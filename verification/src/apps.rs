//! The installed apps, as they are right now.
//!
//! A scan finds the entries and says which of them can open; the catalogue keeps those and no
//! others, so that every surface that lists apps offers the same ones.
use crate::seqs;
use crate::text;
use vstd::prelude::*;

verus! {

/// An app, as its desktop file describes it.
#[derive(Debug)]
pub struct DesktopEntry {
    pub app_id: String,
    pub name: String,
    pub command: String,
}

/// What a [`DesktopEntry`] says.
pub struct App {
    pub app_id: Seq<char>,
    pub name: Seq<char>,
    pub command: Seq<char>,
}

impl View for DesktopEntry {
    type V = App;

    open spec fn view(&self) -> App {
        App { app_id: self.app_id@, name: self.name@, command: self.command@ }
    }
}

impl DesktopEntry {
    pub fn copy(&self) -> (r: DesktopEntry)
        ensures
            r@ == self@,
    {
        DesktopEntry {
            app_id: self.app_id.clone(),
            name: self.name.clone(),
            command: self.command.clone(),
        }
    }
}

/// What entries say, one by one.
pub open spec fn apps(s: Seq<DesktopEntry>) -> Seq<App> {
    Seq::new(s.len(), |i: int| s[i]@)
}

/// An entry a scan found, and whether it can open.
pub struct Scanned {
    pub entry: DesktopEntry,
    pub launchable: bool,
}

/// What a scan found.
pub open spec fn found(s: Seq<Scanned>) -> Seq<(App, bool)> {
    Seq::new(s.len(), |i: int| (s[i].entry@, s[i].launchable))
}

pub open spec fn can_open() -> spec_fn((App, bool)) -> bool {
    |x: (App, bool)| x.1
}

pub open spec fn cannot_open() -> spec_fn((App, bool)) -> bool {
    |x: (App, bool)| !x.1
}

/// The apps that can open, in the order they were found.
pub open spec fn kept(s: Seq<(App, bool)>) -> Seq<App> {
    s.filter(can_open()).map_values(|x: (App, bool)| x.0)
}

/// How an app that was left out is named.
pub open spec fn left_out(a: App) -> Seq<char> {
    a.name + " ("@ + a.command + ")"@
}

/// How the apps that were left out are named.
pub open spec fn dropped(s: Seq<(App, bool)>) -> Seq<Seq<char>> {
    s.filter(cannot_open()).map_values(|x: (App, bool)| left_out(x.0))
}

/// What came of a rescan: how many apps there are now, and which entries were left out.
pub struct Refreshed {
    pub count: usize,
    pub dropped: Vec<String>,
}

/// The installed apps.
pub struct Catalogue {
    entries: Vec<DesktopEntry>,
}

impl View for Catalogue {
    type V = Seq<App>;

    closed spec fn view(&self) -> Seq<App> {
        apps(self.entries@)
    }
}

impl Catalogue {
    pub fn new() -> (r: Catalogue)
        ensures
            r@.len() == 0,
    {
        Catalogue { entries: Vec::new() }
    }

    /// The current list.
    pub fn get(&self) -> (r: &[DesktopEntry])
        ensures
            apps(r@) == self@,
    {
        self.entries.as_slice()
    }

    /// Replace the list by what a scan found. Only what can open is kept.
    pub fn refresh(&mut self, scanned: &[Scanned]) -> (r: Refreshed)
        ensures
            final(self)@ == kept(found(scanned@)),
            r.count == final(self)@.len(),
            text::strs(r.dropped@) == dropped(found(scanned@)),
    {
        let ghost all = found(scanned@);
        let ghost yes = can_open();
        let ghost no = cannot_open();
        let ghost app = |x: (App, bool)| x.0;
        let ghost name = |x: (App, bool)| left_out(x.0);
        let mut entries: Vec<DesktopEntry> = Vec::new();
        let mut names: Vec<String> = Vec::new();
        let mut i: usize = 0;
        proof {
            seqs::lemma_filter_none(all, yes);
            seqs::lemma_filter_none(all, no);
            assert(apps(entries@) =~= all.take(0).filter(yes).map_values(app));
            assert(text::strs(names@) =~= all.take(0).filter(no).map_values(name));
        }
        while i < scanned.len()
            invariant
                i <= scanned@.len(),
                all == found(scanned@),
                yes == can_open(),
                no == cannot_open(),
                app == (|x: (App, bool)| x.0),
                name == (|x: (App, bool)| left_out(x.0)),
                apps(entries@) == all.take(i as int).filter(yes).map_values(app),
                text::strs(names@) == all.take(i as int).filter(no).map_values(name),
            decreases scanned@.len() - i,
        {
            let ghost x = all[i as int];
            let ghost was = apps(entries@);
            let ghost told = text::strs(names@);
            let ghost open = all.take(i as int).filter(yes);
            let ghost shut = all.take(i as int).filter(no);
            proof {
                seqs::lemma_filter_take(all, yes, i as int);
                seqs::lemma_filter_take(all, no, i as int);
                assert(open.push(x).map_values(app) =~= open.map_values(app).push(x.0));
                assert(shut.push(x).map_values(name) =~= shut.map_values(name).push(
                    left_out(x.0),
                ));
            }
            if scanned[i].launchable {
                entries.push(scanned[i].entry.copy());
                assert(apps(entries@) =~= was.push(x.0));
            } else {
                let mut out = scanned[i].entry.name.clone();
                out.append(" (");
                out.append(scanned[i].entry.command.as_str());
                out.append(")");
                names.push(out);
                assert(text::strs(names@) =~= told.push(left_out(x.0)));
            }
            i += 1;
        }
        assert(all.take(i as int) =~= all);
        self.entries = entries;
        Refreshed { count: self.entries.len(), dropped: names }
    }
}

/// What cannot open is never listed, and what can is.
pub proof fn law_only_what_opens_is_listed(scan: Seq<(App, bool)>, a: App)
    ensures
        kept(scan).contains(a) <==> scan.contains((a, true)),
{
    let f = can_open();
    seqs::lemma_filter_from(scan, f);
    let open = scan.filter(f);
    if kept(scan).contains(a) {
        let i = choose|i: int| 0 <= i < kept(scan).len() && kept(scan)[i] == a;
        assert(f(open[i]));
        assert(open[i] == (a, true));
        assert(scan.contains(open[i]));
    }
    if scan.contains((a, true)) {
        assert(f((a, true)));
        assert(open.contains((a, true)));
        let i = choose|i: int| 0 <= i < open.len() && open[i] == (a, true);
        assert(kept(scan)[i] == a);
    }
}

/// What cannot be opened is told, by its name and its command, and what can be is kept, in the order
/// they were found.
pub proof fn law_what_does_not_open_is_told(scan: Seq<(App, bool)>, a: App)
    ensures
        kept(scan.push((a, true))) == kept(scan).push(a),
        kept(scan.push((a, false))) == kept(scan),
        dropped(scan.push((a, true))) == dropped(scan),
        dropped(scan.push((a, false))) == dropped(scan).push(a.name + " ("@ + a.command + ")"@),
{
    reveal(Seq::filter);
    let (f, g) = (can_open(), cannot_open());
    assert(scan.push((a, true)).drop_last() =~= scan);
    assert(scan.push((a, false)).drop_last() =~= scan);
    assert(kept(scan.push((a, true))) =~= kept(scan).push(a));
    assert(dropped(scan.push((a, false))) =~= dropped(scan).push(
        a.name + " ("@ + a.command + ")"@,
    ));
}

} // verus!
