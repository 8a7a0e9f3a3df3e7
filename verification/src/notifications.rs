//! The shell's view of the one notification store.
//!
//! A mirror, not a store: it holds what the last poll said, so that the list and the badge can be
//! drawn without asking again, and it knows whether the service answered.
use crate::json;
use crate::json::{put_last, string, Json, Row, Tree};
use crate::seqs;
use crate::text;
use crate::text::{chars_of, same, to_small, to_upper};
use vstd::prelude::*;

verus! {

/// How many notifications the mirror holds.
pub const MAX_MIRRORED: usize = 500;

/// How much a notification matters.
#[derive(Clone, Copy, PartialEq, Eq, Structural, Debug)]
pub enum Urgency {
    Low,
    Normal,
    Critical,
}

impl Urgency {
    pub open spec fn name(self) -> Seq<char> {
        match self {
            Urgency::Low => "low"@,
            Urgency::Normal => "normal"@,
            Urgency::Critical => "critical"@,
        }
    }

    pub fn as_str(self) -> (r: &'static str)
        ensures
            r@ == self.name(),
    {
        match self {
            Urgency::Low => "low",
            Urgency::Normal => "normal",
            Urgency::Critical => "critical",
        }
    }
}

pub open spec fn urgency_number(u: Urgency) -> i32 {
    match u {
        Urgency::Low => 0,
        Urgency::Normal => 1,
        Urgency::Critical => 2,
    }
}

/// The urgency as the number a row is drawn by.
pub fn urgency_int(urgency: Urgency) -> (r: i32)
    ensures
        r == urgency_number(urgency),
{
    match urgency {
        Urgency::Low => 0,
        Urgency::Normal => 1,
        Urgency::Critical => 2,
    }
}

/// A button of a notification.
#[derive(Clone, Debug, PartialEq, Eq)]
pub struct Action {
    pub id: String,
    pub label: String,
}

/// A notification, as the service holds it.
#[derive(Clone, Debug, PartialEq, Eq)]
pub struct Notification {
    pub id: String,
    pub app: String,
    pub title: String,
    pub body: String,
    pub urgency: Urgency,
    pub created_at: String,
    pub read: bool,
    pub dismissed: bool,
    pub actions: Vec<Action>,
    pub source: String,
    pub replaces_id: Option<String>,
    pub revision: u64,
}

/// What a button says: its id and its label.
pub type Button = (Seq<char>, Seq<char>);

/// What a [`Notification`] says.
pub struct Note {
    pub id: Seq<char>,
    pub app: Seq<char>,
    pub title: Seq<char>,
    pub body: Seq<char>,
    pub urgency: Urgency,
    pub created_at: Seq<char>,
    pub read: bool,
    pub dismissed: bool,
    pub actions: Seq<Button>,
    pub source: Seq<char>,
    pub replaces_id: Option<Seq<char>>,
    pub revision: u64,
}

pub open spec fn buttons(s: Seq<Action>) -> Seq<Button> {
    Seq::new(s.len(), |i: int| (s[i].id@, s[i].label@))
}

impl View for Notification {
    type V = Note;

    open spec fn view(&self) -> Note {
        Note {
            id: self.id@,
            app: self.app@,
            title: self.title@,
            body: self.body@,
            urgency: self.urgency,
            created_at: self.created_at@,
            read: self.read,
            dismissed: self.dismissed,
            actions: buttons(self.actions@),
            source: self.source@,
            replaces_id: text::maybe(self.replaces_id),
            revision: self.revision,
        }
    }
}

/// What notifications say, one by one.
pub open spec fn notes(s: Seq<Notification>) -> Seq<Note> {
    Seq::new(s.len(), |i: int| s[i]@)
}

impl Notification {
    pub fn copy(&self) -> (r: Notification)
        ensures
            r@ == self@,
    {
        let mut actions: Vec<Action> = Vec::new();
        let mut i: usize = 0;
        while i < self.actions.len()
            invariant
                i <= self.actions@.len(),
                buttons(actions@) == buttons(self.actions@).take(i as int),
            decreases self.actions@.len() - i,
        {
            let ghost was = buttons(actions@);
            actions.push(
                Action { id: self.actions[i].id.clone(), label: self.actions[i].label.clone() },
            );
            i += 1;
            assert(buttons(actions@) =~= was.push(buttons(self.actions@)[i - 1]));
            assert(buttons(self.actions@).take(i as int) =~= was.push(
                buttons(self.actions@)[i - 1],
            ));
        }
        assert(buttons(actions@) =~= buttons(self.actions@));
        Notification {
            id: self.id.clone(),
            app: self.app.clone(),
            title: self.title.clone(),
            body: self.body.clone(),
            urgency: self.urgency,
            created_at: self.created_at.clone(),
            read: self.read,
            dismissed: self.dismissed,
            actions,
            source: self.source.clone(),
            replaces_id: match &self.replaces_id {
                Some(id) => Some(id.clone()),
                None => None,
            },
            revision: self.revision,
        }
    }
}

/// What has changed since a revision.
pub struct Since {
    pub revision: u64,
    pub changed: Vec<Notification>,
}

/// What one poll means for the toasts.
#[derive(Debug)]
pub struct Applied {
    /// New, or replaced by their sender.
    pub fresh: Vec<Notification>,
    /// Dismissed since the last poll.
    pub gone: Vec<String>,
}

/// What the last poll said, and whether there was one.
pub struct NotificationMirror {
    items: Vec<Notification>,
    revision: u64,
    notice: Option<String>,
    primed: bool,
}

/// What a [`NotificationMirror`] holds: the notifications oldest first, by when each last said
/// something, the revision it is caught up to, why the service did not answer where it did not,
/// and whether it ever has.
pub struct Mirror {
    pub items: Seq<Note>,
    pub revision: u64,
    pub notice: Option<Seq<char>>,
    pub primed: bool,
}

impl View for NotificationMirror {
    type V = Mirror;

    closed spec fn view(&self) -> Mirror {
        Mirror {
            items: notes(self.items@),
            revision: self.revision,
            notice: text::maybe(self.notice),
            primed: self.primed,
        }
    }
}

pub open spec fn one_each(s: Seq<Note>) -> bool {
    forall|i: int, j: int| 0 <= i < j < s.len() ==> (#[trigger] s[i]).id != (#[trigger] s[j]).id
}

impl Mirror {
    /// What holds of every mirror.
    pub open spec fn wf(self) -> bool {
        &&& self.items.len() <= MAX_MIRRORED
        &&& one_each(self.items)
        &&& !self.primed ==> self.items.len() == 0
    }
}

pub open spec fn with_id(id: Seq<char>) -> spec_fn(Note) -> bool {
    |n: Note| n.id == id
}

/// Where a notification is.
pub open spec fn place_of(s: Seq<Note>, id: Seq<char>) -> int {
    seqs::first(s, with_id(id))
}

/// What a poll has come to so far.
pub struct Fold {
    pub items: Seq<Note>,
    pub fresh: Seq<Note>,
    pub gone: Seq<Seq<char>>,
}

/// Whether a notification says something new: it was not there, or its sender put it up again.
pub open spec fn is_news(items: Seq<Note>, n: Note) -> bool {
    let i = place_of(items, n.id);
    i < items.len() ==> items[i].created_at != n.created_at
}

/// Whether a notification earns a toast: it says something new, and is still up. What happened
/// before the first poll is no news.
pub open spec fn raised(items: Seq<Note>, n: Note, first_poll: bool) -> bool {
    !first_poll && !n.dismissed && is_news(items, n)
}

/// All notifications but the one with an id.
pub open spec fn others(items: Seq<Note>, id: Seq<char>) -> Seq<Note> {
    let i = place_of(items, id);
    if i < items.len() {
        items.remove(i)
    } else {
        items
    }
}

/// The notifications once one of them has changed. They stand in the order in which they last said
/// something: one that is put up again is the newest there is, and one that was only read or
/// dismissed stays where it is.
pub open spec fn with_note(items: Seq<Note>, n: Note) -> Seq<Note> {
    if is_news(items, n) {
        others(items, n.id).push(n)
    } else {
        items.update(place_of(items, n.id), n)
    }
}

pub open spec fn step(so_far: Fold, n: Note, first_poll: bool) -> Fold {
    Fold {
        items: with_note(so_far.items, n),
        fresh: if raised(so_far.items, n, first_poll) {
            so_far.fresh.push(n)
        } else {
            so_far.fresh
        },
        gone: if n.dismissed {
            so_far.gone.push(n.id)
        } else {
            so_far.gone
        },
    }
}

/// What changes come to, taken in one after the other.
pub open spec fn folded(items: Seq<Note>, changed: Seq<Note>, first_poll: bool) -> Fold
    decreases changed.len(),
{
    if changed.len() == 0 {
        Fold { items, fresh: Seq::empty(), gone: Seq::empty() }
    } else {
        step(folded(items, changed.drop_last(), first_poll), changed.last(), first_poll)
    }
}

/// The newest of the notifications, as many as are held.
pub open spec fn newest(s: Seq<Note>) -> Seq<Note> {
    if s.len() <= MAX_MIRRORED {
        s
    } else {
        s.skip(s.len() - MAX_MIRRORED)
    }
}

/// A change keeps one notification for each id.
proof fn lemma_with_note(items: Seq<Note>, n: Note)
    requires
        one_each(items),
    ensures
        one_each(with_note(items, n)),
{
    let f = with_id(n.id);
    seqs::lemma_first(items, f);
    let now = with_note(items, n);
    let at = place_of(items, n.id);
    assert forall|i: int, j: int| 0 <= i < j < now.len() implies (#[trigger] now[i]).id != (
    #[trigger] now[j]).id by {
        if !is_news(items, n) {
            assert(items[i].id != items[j].id);
            assert(f(items[at]));
        } else {
            // Where each of them stood before.
            let x = if i < at {
                i
            } else {
                i + 1
            };
            let y = if j < at {
                j
            } else {
                j + 1
            };
            if j < now.len() - 1 {
                assert(items[x].id != items[y].id);
            } else if at < items.len() {
                assert(f(items[at]));
                assert(items[x].id != items[at].id);
            } else {
                assert(!f(items[i]));
            }
        }
    }
}

pub open spec fn not_dismissed() -> spec_fn(Note) -> bool {
    |n: Note| !n.dismissed
}

pub open spec fn unread() -> spec_fn(Note) -> bool {
    |n: Note| !n.read && !n.dismissed
}

/// What is showing, newest first.
pub open spec fn shown(items: Seq<Note>) -> Seq<Note> {
    items.filter(not_dismissed()).reverse()
}

/// What references to notifications say.
pub open spec fn notes_at(s: Seq<&Notification>) -> Seq<Note> {
    Seq::new(s.len(), |i: int| s[i]@)
}

/// What is described of a notification.
pub open spec fn described(n: Note) -> Tree {
    Tree::Object(
        seq![
            ("id"@, Tree::Str(n.id)),
            ("app"@, Tree::Str(n.app)),
            ("title"@, Tree::Str(n.title)),
            ("urgency"@, Tree::Str(n.urgency.name())),
            ("read"@, Tree::Bool(n.read)),
            ("at"@, Tree::Str(n.created_at)),
        ],
    )
}

impl Row for Notification {
    open spec fn row(&self) -> Tree {
        described(self@)
    }

    fn to_json(&self) -> (r: Json) {
        let mut o: Vec<(String, Json)> = Vec::new();
        put_last(&mut o, "id", string(self.id.as_str()));
        put_last(&mut o, "app", string(self.app.as_str()));
        put_last(&mut o, "title", string(self.title.as_str()));
        put_last(&mut o, "urgency", string(self.urgency.as_str()));
        put_last(&mut o, "read", Json::Bool(self.read));
        put_last(&mut o, "at", string(self.created_at.as_str()));
        assert(json::entries(o@) =~= self.row()->Object_0);
        Json::Object(o)
    }
}

impl Default for NotificationMirror {
    fn default() -> (r: NotificationMirror)
        ensures
            r@.items.len() == 0,
            r@.revision == 0,
            r@.notice is None,
            !r@.primed,
            r@.wf(),
    {
        NotificationMirror::new()
    }
}

impl NotificationMirror {
    pub fn new() -> (r: NotificationMirror)
        ensures
            r@.items.len() == 0,
            r@.revision == 0,
            r@.notice is None,
            !r@.primed,
            r@.wf(),
    {
        NotificationMirror { items: Vec::new(), revision: 0, notice: None, primed: false }
    }

    /// The revision to ask for next.
    pub fn revision(&self) -> (r: u64)
        ensures
            r == self@.revision,
    {
        self.revision
    }

    fn find(&self, id: &str) -> (r: usize)
        ensures
            r == place_of(self@.items, id@),
            r <= self.items@.len(),
    {
        let ghost f = with_id(id@);
        let ghost all = self@.items;
        let mut i: usize = 0;
        while i < self.items.len()
            invariant
                i <= self.items@.len(),
                f == with_id(id@),
                all == self@.items,
                seqs::first(all, f) == seqs::first_from(all, f, i as int),
            decreases self.items@.len() - i,
        {
            assert(all[i as int] == self.items@[i as int]@);
            if same(self.items[i].id.as_str(), id) {
                return i;
            }
            i += 1;
        }
        i
    }

    /// Fold in what the store said changed, and answer with what that means for the toasts.
    pub fn apply(&mut self, since: Since) -> (r: Applied)
        requires
            old(self)@.wf(),
        ensures
            final(self)@.wf(),
            final(self)@.primed,
            final(self)@.notice is None,
            final(self)@.revision == since.revision,
            ({
                let all = folded(old(self)@.items, notes(since.changed@), !old(self)@.primed);
                &&& final(self)@.items == newest(all.items)
                &&& notes(r.fresh@) == all.fresh
                &&& text::strs(r.gone@) == all.gone
            }),
    {
        let first_poll = !self.primed;
        self.primed = true;
        self.notice = None;
        let mut fresh: Vec<Notification> = Vec::new();
        let mut gone: Vec<String> = Vec::new();
        let ghost was = old(self)@.items;
        let ghost changed = notes(since.changed@);
        let mut i: usize = 0;
        proof {
            assert(changed.take(0) =~= Seq::<Note>::empty());
            assert(notes(fresh@) =~= Seq::<Note>::empty());
            assert(text::strs(gone@) =~= Seq::<Seq<char>>::empty());
        }
        while i < since.changed.len()
            invariant
                i <= since.changed@.len(),
                changed == notes(since.changed@),
                one_each(self@.items),
                self@.primed,
                self@.notice is None,
                self@.items == folded(was, changed.take(i as int), first_poll).items,
                notes(fresh@) == folded(was, changed.take(i as int), first_poll).fresh,
                text::strs(gone@) == folded(was, changed.take(i as int), first_poll).gone,
            decreases since.changed@.len() - i,
        {
            let incoming = &since.changed[i];
            let ghost n = incoming@;
            let ghost items = self@.items;
            let ghost before = notes(fresh@);
            let ghost left = text::strs(gone@);
            proof {
                assert(n == changed[i as int]);
                assert(changed.take(i + 1).drop_last() =~= changed.take(i as int));
                lemma_with_note(items, n);
            }
            if incoming.dismissed {
                gone.push(incoming.id.clone());
                assert(text::strs(gone@) =~= left.push(n.id));
            }
            let at = self.find(incoming.id.as_str());
            let known = at < self.items.len();
            let news = if known {
                assert(items[at as int] == self.items@[at as int]@);
                !same(self.items[at].created_at.as_str(), incoming.created_at.as_str())
            } else {
                true
            };
            if news && !incoming.dismissed && !first_poll {
                fresh.push(incoming.copy());
                assert(notes(fresh@) =~= before.push(n));
            }
            let item = incoming.copy();
            if news {
                if known {
                    let _ = self.items.remove(at);
                }
                assert(self@.items =~= others(items, n.id));
                self.items.push(item);
                assert(self@.items =~= others(items, n.id).push(n));
            } else {
                self.items.set(at, item);
                assert(self@.items =~= items.update(at as int, n));
            }
            i += 1;
        }
        assert(changed.take(i as int) =~= changed);
        self.revision = since.revision;
        let ghost all = self@.items;
        assert(all.skip(0) =~= all);
        while self.items.len() > MAX_MIRRORED
            invariant
                self@.items.len() <= all.len(),
                all.len() > MAX_MIRRORED ==> self@.items.len() >= MAX_MIRRORED,
                all.len() <= MAX_MIRRORED ==> self@.items.len() == all.len(),
                self@.items == all.skip(all.len() - self@.items.len()),
                self.items@.len() == self@.items.len(),
                self@.primed,
                self@.notice is None,
                self@.revision == since.revision,
            decreases self.items@.len(),
        {
            let ghost before = self@.items;
            let _ = self.items.remove(0);
            assert(self@.items =~= before.skip(1));
            assert(before.skip(1) =~= all.skip(all.len() - self@.items.len()));
        }
        proof {
            assert forall|x: int, y: int| 0 <= x < y < self@.items.len() implies (
            #[trigger] self@.items[x]).id != (#[trigger] self@.items[y]).id by {
                let d = all.len() - self@.items.len();
                assert(all[x + d].id != all[y + d].id);
            }
        }
        Applied { fresh, gone }
    }

    /// The service could not be reached, and why.
    pub fn unreachable(&mut self, why: String)
        ensures
            final(self)@ == (Mirror { notice: Some(why@), ..old(self)@ }),
    {
        self.notice = Some(why);
    }

    pub fn service_up(&self) -> (r: bool)
        ensures
            r == self@.notice is None,
    {
        self.notice.is_none()
    }

    pub fn notice(&self) -> (r: Option<&str>)
        ensures
            match r {
                Some(why) => self@.notice == Some(why@),
                None => self@.notice is None,
            },
    {
        match &self.notice {
            Some(why) => Some(why.as_str()),
            None => None,
        }
    }

    /// Unread and not dismissed.
    pub fn unread_count(&self) -> (r: usize)
        ensures
            r == self@.items.filter(unread()).len(),
    {
        let ghost f = unread();
        let ghost all = self@.items;
        let mut n: usize = 0;
        let mut i: usize = 0;
        proof {
            seqs::lemma_filter_none(all, f);
        }
        while i < self.items.len()
            invariant
                i <= self.items@.len(),
                n <= i,
                all == self@.items,
                f == unread(),
                n == all.take(i as int).filter(f).len(),
            decreases self.items@.len() - i,
        {
            proof {
                seqs::lemma_filter_take(all, f, i as int);
                assert(all[i as int] == self.items@[i as int]@);
            }
            if !self.items[i].read && !self.items[i].dismissed {
                n += 1;
            }
            i += 1;
        }
        assert(all.take(i as int) =~= all);
        n
    }

    /// Everything still showing, newest first.
    pub fn showing(&self) -> (r: Vec<&Notification>)
        ensures
            notes_at(r@) == shown(self@.items),
    {
        let ghost f = not_dismissed();
        let ghost all = self@.items;
        let mut kept: Vec<&Notification> = Vec::new();
        let mut i: usize = 0;
        proof {
            seqs::lemma_filter_none(all, f);
            assert(notes_at(kept@) =~= all.take(0).filter(f));
        }
        while i < self.items.len()
            invariant
                i <= self.items@.len(),
                all == self@.items,
                f == not_dismissed(),
                notes_at(kept@) == all.take(i as int).filter(f),
            decreases self.items@.len() - i,
        {
            let ghost was = notes_at(kept@);
            proof {
                seqs::lemma_filter_take(all, f, i as int);
                assert(all[i as int] == self.items@[i as int]@);
            }
            if !self.items[i].dismissed {
                kept.push(&self.items[i]);
                assert(notes_at(kept@) =~= was.push(all[i as int]));
            }
            i += 1;
        }
        assert(all.take(i as int) =~= all);
        let ghost forward = notes_at(kept@);
        let mut out: Vec<&Notification> = Vec::new();
        let mut left: usize = kept.len();
        while left > 0
            invariant
                left <= kept@.len(),
                forward == notes_at(kept@),
                out@.len() == kept@.len() - left,
                forall|k: int| 0 <= k < out@.len() ==> #[trigger] out@[k]@ == forward.reverse()[k],
            decreases left,
        {
            left -= 1;
            assert(forward[left as int] == kept@[left as int]@);
            out.push(kept[left]);
        }
        assert(notes_at(out@) =~= forward.reverse());
        out
    }

    /// One notification by id.
    pub fn get(&self, id: &str) -> (r: Option<&Notification>)
        ensures
            ({
                let i = place_of(self@.items, id@);
                match r {
                    Some(n) => i < self@.items.len() && n@ == self@.items[i],
                    None => i == self@.items.len(),
                }
            }),
    {
        let i = self.find(id);
        if i < self.items.len() {
            Some(&self.items[i])
        } else {
            None
        }
    }

    fn mark(&mut self, id: &str, dismiss: bool)
        ensures
            ({
                let was = old(self)@;
                let i = place_of(was.items, id@);
                final(self)@ == if i < was.items.len() {
                    Mirror {
                        items: was.items.update(
                            i,
                            Note {
                                read: true,
                                dismissed: was.items[i].dismissed || dismiss,
                                ..was.items[i]
                            },
                        ),
                        ..was
                    }
                } else {
                    was
                }
            }),
    {
        let ghost was = self@.items;
        let i = self.find(id);
        if i < self.items.len() {
            assert(was[i as int] == self.items@[i as int]@);
            let mut n = self.items[i].copy();
            n.read = true;
            if dismiss {
                n.dismissed = true;
            }
            let ghost now = n@;
            self.items.set(i, n);
            assert(self@.items =~= was.update(i as int, now));
        }
    }

    /// Mark one read here and now.
    pub fn mark_read_locally(&mut self, id: &str)
        requires
            old(self)@.wf(),
        ensures
            final(self)@.wf(),
            ({
                let was = old(self)@;
                let i = place_of(was.items, id@);
                final(self)@ == if i < was.items.len() {
                    Mirror {
                        items: was.items.update(i, Note { read: true, ..was.items[i] }),
                        ..was
                    }
                } else {
                    was
                }
            }),
    {
        proof {
            seqs::lemma_first(self@.items, with_id(id@));
        }
        self.mark(id, false);
    }

    /// Dismiss one here and now.
    pub fn dismiss_locally(&mut self, id: &str)
        requires
            old(self)@.wf(),
        ensures
            final(self)@.wf(),
            ({
                let was = old(self)@;
                let i = place_of(was.items, id@);
                final(self)@ == if i < was.items.len() {
                    Mirror {
                        items: was.items.update(
                            i,
                            Note { read: true, dismissed: true, ..was.items[i] },
                        ),
                        ..was
                    }
                } else {
                    was
                }
            }),
    {
        proof {
            seqs::lemma_first(self@.items, with_id(id@));
        }
        self.mark(id, true);
    }

    /// The most recent, as they are described.
    pub fn latest_for_describe(&self, limit: usize) -> (r: Vec<Json>)
        ensures
            ({
                let all = shown(self@.items);
                json::trees(r@) == all.take(
                    if limit < all.len() {
                        limit as int
                    } else {
                        all.len() as int
                    },
                ).map_values(|n: Note| described(n))
            }),
    {
        let showing = self.showing();
        let ghost all = shown(self@.items);
        let ghost rows = all.map_values(|n: Note| described(n));
        let mut out: Vec<Json> = Vec::new();
        let mut i: usize = 0;
        assert(json::trees(out@) =~= rows.take(0));
        while i < showing.len() && i < limit
            invariant
                i <= showing@.len(),
                i <= limit,
                all == notes_at(showing@),
                rows == all.map_values(|n: Note| described(n)),
                json::trees(out@) == rows.take(i as int),
            decreases showing@.len() - i,
        {
            let ghost was = out@;
            assert(all[i as int] == showing@[i as int]@);
            out.push(showing[i].to_json());
            assert(out@.drop_last() =~= was);
            i += 1;
            assert(rows.take(i as int) =~= rows.take(i - 1).push(rows[i - 1]));
        }
        assert(all.take(i as int).map_values(|n: Note| described(n)) =~= rows.take(i as int));
        out
    }
}

// ── Age ─────────────────────────────────────────────────────────────

/// The seconds since 1970 that `chrono` reads out of an RFC 3339 timestamp.
pub uninterp spec fn moment(s: Seq<char>) -> Option<i64>;

/// `chrono::DateTime::parse_from_rfc3339`, and the `timestamp` of what it reads: which moment a
/// text names, or that it names none, depends on the text alone.
#[verifier::external_body]
fn seconds_of(s: &str) -> (r: Option<i64>)
    ensures
        r == moment(s@),
{
    match chrono::DateTime::parse_from_rfc3339(s) {
        Ok(then) => Some(then.timestamp()),
        Err(_) => None,
    }
}

/// How long ago a moment was: never less than nothing, and nothing where there is no moment.
pub open spec fn age(then: Option<i64>, now: i64) -> int {
    match then {
        Some(t) => if now > t {
            now - t
        } else {
            0
        },
        None => 0,
    }
}

/// How long ago a moment was, in seconds.
pub fn elapsed(then: Option<i64>, now: i64) -> (r: u64)
    ensures
        r == age(then, now),
{
    match then {
        Some(t) => if now > t {
            (now as i128 - t as i128) as u64
        } else {
            0
        },
        None => 0,
    }
}

/// Seconds since an RFC 3339 timestamp. One that will not parse reads as just now.
pub fn seconds_since(created_at: &str, now: i64) -> (r: u64)
    ensures
        r == age(moment(created_at@), now),
{
    elapsed(seconds_of(created_at), now)
}

// ── Rows ────────────────────────────────────────────────────────────

/// A row of the notification centre: a notification, or the header of an app's.
#[derive(Debug)]
pub struct NotificationData {
    pub id: String,
    pub app_name: String,
    pub summary: String,
    pub body: String,
    pub urgency: i32,
    /// How long ago it came, in seconds. A header has no age.
    pub age: Option<u64>,
    pub is_read: bool,
    pub is_group_header: bool,
    pub group_name: String,
    pub group_icon: String,
    pub group_count: i32,
    pub actions: Vec<Action>,
    pub source: String,
}

/// What a row says.
pub struct Line {
    pub id: Seq<char>,
    pub app_name: Seq<char>,
    pub summary: Seq<char>,
    pub body: Seq<char>,
    pub urgency: i32,
    pub age: Option<u64>,
    pub is_read: bool,
    pub is_group_header: bool,
    pub group_name: Seq<char>,
    pub group_icon: Seq<char>,
    pub group_count: i32,
    pub actions: Seq<Button>,
    pub source: Seq<char>,
}

impl View for NotificationData {
    type V = Line;

    open spec fn view(&self) -> Line {
        Line {
            id: self.id@,
            app_name: self.app_name@,
            summary: self.summary@,
            body: self.body@,
            urgency: self.urgency,
            age: self.age,
            is_read: self.is_read,
            is_group_header: self.is_group_header,
            group_name: self.group_name@,
            group_icon: self.group_icon@,
            group_count: self.group_count,
            actions: buttons(self.actions@),
            source: self.source@,
        }
    }
}

/// What rows say, one by one.
pub open spec fn lines(s: Seq<NotificationData>) -> Seq<Line> {
    Seq::new(s.len(), |i: int| s[i]@)
}

/// The letter a group is shown by.
pub open spec fn initial(app: Seq<char>) -> Seq<char> {
    text::upper(
        if app.len() == 0 {
            '?'
        } else {
            app[0]
        },
    )
}

/// The letter a group is shown by.
pub fn first_letter(app: &str) -> (r: String)
    ensures
        r@ == initial(app@),
{
    let v = chars_of(app);
    if v.len() == 0 {
        to_upper('?')
    } else {
        to_upper(v[0])
    }
}

/// The buttons that are drawn. The one that stands for the notification itself is no button.
pub open spec fn drawn() -> spec_fn(Button) -> bool {
    |b: Button| b.0 != "default"@
}

/// The row of a notification.
pub open spec fn line_of(n: Note, now: i64) -> Line {
    Line {
        id: n.id,
        app_name: n.app,
        summary: n.title,
        body: n.body,
        urgency: urgency_number(n.urgency),
        age: Some(age(moment(n.created_at), now) as u64),
        is_read: n.read,
        is_group_header: false,
        group_name: n.app,
        group_icon: initial(n.app),
        group_count: 0,
        actions: n.actions.filter(drawn()),
        source: n.source,
    }
}

/// The row before a group.
pub open spec fn header_of(first: Note, count: int) -> Line {
    Line {
        id: ""@,
        app_name: first.app,
        summary: first.app,
        body: ""@,
        urgency: 0,
        age: None,
        is_read: true,
        is_group_header: true,
        group_name: first.app,
        group_icon: initial(first.app),
        group_count: count as i32,
        actions: Seq::empty(),
        source: first.source,
    }
}

fn drawn_actions(actions: &[Action]) -> (r: Vec<Action>)
    ensures
        buttons(r@) == buttons(actions@).filter(drawn()),
{
    let ghost f = drawn();
    let ghost all = buttons(actions@);
    let mut out: Vec<Action> = Vec::new();
    let mut i: usize = 0;
    proof {
        seqs::lemma_filter_none(all, f);
        assert(buttons(out@) =~= all.take(0).filter(f));
    }
    while i < actions.len()
        invariant
            i <= actions@.len(),
            all == buttons(actions@),
            f == drawn(),
            buttons(out@) == all.take(i as int).filter(f),
        decreases actions@.len() - i,
    {
        let ghost was = buttons(out@);
        proof {
            seqs::lemma_filter_take(all, f, i as int);
        }
        if !same(actions[i].id.as_str(), "default") {
            out.push(Action { id: actions[i].id.clone(), label: actions[i].label.clone() });
            assert(buttons(out@) =~= was.push(all[i as int]));
        }
        i += 1;
    }
    assert(all.take(i as int) =~= all);
    out
}

/// The row of a notification.
pub fn to_slint_data(n: &Notification, now: i64) -> (r: NotificationData)
    ensures
        r@ == line_of(n@, now),
{
    NotificationData {
        id: n.id.clone(),
        app_name: n.app.clone(),
        summary: n.title.clone(),
        body: n.body.clone(),
        urgency: urgency_int(n.urgency),
        age: Some(seconds_since(n.created_at.as_str(), now)),
        is_read: n.read,
        is_group_header: false,
        group_name: n.app.clone(),
        group_icon: first_letter(n.app.as_str()),
        group_count: 0,
        actions: drawn_actions(n.actions.as_slice()),
        source: n.source.clone(),
    }
}

/// The apps, each by its name in small letters, in the order they first stand there.
pub open spec fn apps_in(s: Seq<Note>) -> Seq<Seq<char>>
    decreases s.len(),
{
    if s.len() == 0 {
        Seq::empty()
    } else {
        let before = apps_in(s.drop_last());
        let key = text::small(s.last().app);
        if before.contains(key) {
            before
        } else {
            before.push(key)
        }
    }
}

pub open spec fn from_app(key: Seq<char>) -> spec_fn(Note) -> bool {
    |n: Note| text::small(n.app) == key
}

/// A group: a header, then what the app said.
pub open spec fn group(s: Seq<Note>, key: Seq<char>, now: i64) -> Seq<Line> {
    let of_it = s.filter(from_app(key));
    seq![header_of(of_it[0], of_it.len() as int)] + of_it.map_values(|n: Note| line_of(n, now))
}

/// The groups, one after the other.
pub open spec fn groups(s: Seq<Note>, keys: Seq<Seq<char>>, now: i64) -> Seq<Line>
    decreases keys.len(),
{
    if keys.len() == 0 {
        Seq::empty()
    } else {
        groups(s, keys.drop_last(), now) + group(s, keys.last(), now)
    }
}

/// Every app that is named has said something, and whatever was said was said by one of them.
proof fn lemma_apps_in(s: Seq<Note>)
    ensures
        apps_in(s).len() <= s.len(),
        forall|k: int|
            0 <= k < apps_in(s).len() ==> exists|i: int|
                0 <= i < s.len() && text::small((#[trigger] s[i]).app) == #[trigger] apps_in(s)[k],
        forall|i: int| 0 <= i < s.len() ==> apps_in(s).contains(text::small((#[trigger] s[i]).app)),
        apps_in(s).no_duplicates(),
    decreases s.len(),
{
    if s.len() > 0 {
        let t = s.drop_last();
        lemma_apps_in(t);
        let key = text::small(s.last().app);
        assert forall|k: int| 0 <= k < apps_in(s).len() implies exists|i: int|
            0 <= i < s.len() && text::small((#[trigger] s[i]).app) == #[trigger] apps_in(s)[k] by {
            if k < apps_in(t).len() {
                assert(apps_in(s)[k] == apps_in(t)[k]);
                let i = choose|i: int|
                    0 <= i < t.len() && text::small((#[trigger] t[i]).app) == apps_in(t)[k];
                assert(text::small(s[i].app) == apps_in(s)[k]);
            } else {
                assert(text::small(s[s.len() - 1].app) == apps_in(s)[k]);
            }
        }
        assert forall|i: int| 0 <= i < s.len() implies apps_in(s).contains(
            text::small((#[trigger] s[i]).app),
        ) by {
            if i < s.len() - 1 {
                let app = text::small(t[i].app);
                assert(apps_in(t).contains(app));
                let k = choose|k: int| 0 <= k < apps_in(t).len() && apps_in(t)[k] == app;
                assert(apps_in(s)[k] == app);
            } else if !apps_in(t).contains(key) {
                assert(apps_in(s)[apps_in(s).len() - 1] == key);
            }
        }
    }
}

fn keys_of(showing: &[&Notification]) -> (r: Vec<String>)
    ensures
        text::strs(r@) == apps_in(notes_at(showing@)),
{
    let ghost all = notes_at(showing@);
    let mut out: Vec<String> = Vec::new();
    let mut i: usize = 0;
    proof {
        assert(all.take(0) =~= Seq::<Note>::empty());
        assert(text::strs(out@) =~= Seq::<Seq<char>>::empty());
    }
    while i < showing.len()
        invariant
            i <= showing@.len(),
            all == notes_at(showing@),
            text::strs(out@) == apps_in(all.take(i as int)),
        decreases showing@.len() - i,
    {
        let ghost was = text::strs(out@);
        let key = to_small(showing[i].app.as_str());
        assert(all.take(i + 1).drop_last() =~= all.take(i as int));
        assert(all.take(i + 1).last() == showing@[i as int]@);
        let mut known = false;
        let mut k: usize = 0;
        while k < out.len()
            invariant
                k <= out@.len(),
                was == text::strs(out@),
                known == exists|j: int| 0 <= j < k && #[trigger] was[j] == key@,
            decreases out@.len() - k,
        {
            assert(was[k as int] == out@[k as int]@);
            if same(out[k].as_str(), key.as_str()) {
                known = true;
            }
            k += 1;
        }
        assert(known == was.contains(key@));
        if !known {
            let ghost name = key@;
            out.push(key);
            assert(text::strs(out@) =~= was.push(name));
        }
        i += 1;
    }
    assert(all.take(i as int) =~= all);
    out
}

fn put_group(out: &mut Vec<NotificationData>, showing: &[&Notification], key: &str, now: i64)
    requires
        showing@.len() <= MAX_MIRRORED,
        notes_at(showing@).filter(from_app(key@)).len() > 0,
    ensures
        lines(final(out)@) == lines(old(out)@) + group(notes_at(showing@), key@, now),
{
    let ghost all = notes_at(showing@);
    let ghost f = from_app(key@);
    let ghost before = lines(out@);
    let mut of_it: Vec<&Notification> = Vec::new();
    let mut i: usize = 0;
    proof {
        seqs::lemma_filter_none(all, f);
        seqs::lemma_filter_from(all, f);
        assert(notes_at(of_it@) =~= all.take(0).filter(f));
    }
    while i < showing.len()
        invariant
            i <= showing@.len(),
            all == notes_at(showing@),
            f == from_app(key@),
            notes_at(of_it@) == all.take(i as int).filter(f),
        decreases showing@.len() - i,
    {
        let ghost was = notes_at(of_it@);
        proof {
            seqs::lemma_filter_take(all, f, i as int);
        }
        if same(to_small(showing[i].app.as_str()).as_str(), key) {
            of_it.push(showing[i]);
            assert(notes_at(of_it@) =~= was.push(all[i as int]));
        }
        i += 1;
    }
    assert(all.take(i as int) =~= all);
    let ghost members = all.filter(f);
    assert(members.len() == of_it@.len());
    let first = of_it[0];
    assert(members[0] == first@);
    let header = NotificationData {
        id: "".to_owned(),
        app_name: first.app.clone(),
        summary: first.app.clone(),
        body: "".to_owned(),
        urgency: 0,
        age: None,
        is_read: true,
        is_group_header: true,
        group_name: first.app.clone(),
        group_icon: first_letter(first.app.as_str()),
        group_count: of_it.len() as i32,
        actions: Vec::new(),
        source: first.source.clone(),
    };
    let ghost top = header_of(members[0], members.len() as int);
    assert(header@.actions =~= top.actions);
    out.push(header);
    assert(lines(out@) =~= before.push(top));
    let ghost rows = members.map_values(|n: Note| line_of(n, now));
    let mut k: usize = 0;
    assert(before.push(top) =~= before.push(top) + rows.take(0));
    while k < of_it.len()
        invariant
            k <= of_it@.len(),
            members == notes_at(of_it@),
            rows == members.map_values(|n: Note| line_of(n, now)),
            lines(out@) == before.push(top) + rows.take(k as int),
        decreases of_it@.len() - k,
    {
        let ghost was = lines(out@);
        assert(members[k as int] == of_it@[k as int]@);
        out.push(to_slint_data(of_it[k], now));
        assert(lines(out@) =~= was.push(rows[k as int]));
        k += 1;
        assert(rows.take(k as int) =~= rows.take(k - 1).push(rows[k - 1]));
        assert(lines(out@) =~= before.push(top) + rows.take(k as int));
    }
    assert(rows.take(k as int) =~= rows);
    assert(lines(out@) =~= before + group(all, key@, now));
}

/// The rows of the notification centre.
pub open spec fn listed(items: Seq<Note>, now: i64) -> Seq<Line> {
    groups(shown(items), apps_in(shown(items)), now)
}

/// The whole list: grouped by app, newest group first, newest within a group first, with a header
/// before each group.
pub fn list(mirror: &NotificationMirror, now: i64) -> (r: Vec<NotificationData>)
    requires
        mirror@.wf(),
    ensures
        lines(r@) == listed(mirror@.items, now),
{
    let showing = mirror.showing();
    let ghost all = shown(mirror@.items);
    let order = keys_of(showing.as_slice());
    let ghost keys = apps_in(all);
    proof {
        seqs::lemma_filter_from(mirror@.items, not_dismissed());
        lemma_apps_in(all);
        assert(all.len() <= MAX_MIRRORED);
        assert(notes_at(showing@).len() == showing@.len());
        assert(keys.take(0) =~= Seq::<Seq<char>>::empty());
    }
    let mut out: Vec<NotificationData> = Vec::new();
    assert(lines(out@) =~= Seq::<Line>::empty());
    let mut i: usize = 0;
    while i < order.len()
        invariant
            i <= order@.len(),
            all == notes_at(showing@),
            showing@.len() <= MAX_MIRRORED,
            keys == apps_in(all),
            text::strs(order@) == keys,
            lines(out@) == groups(all, keys.take(i as int), now),
        decreases order@.len() - i,
    {
        proof {
            assert(keys[i as int] == order@[i as int]@);
            lemma_apps_in(all);
            let j = choose|j: int|
                0 <= j < all.len() && text::small((#[trigger] all[j]).app) == keys[i as int];
            let f = from_app(keys[i as int]);
            assert(f(all[j]));
            assert(all.contains(all[j]));
            seqs::lemma_filter_from(all, f);
            assert(all.filter(f).contains(all[j]));
            assert(keys.take(i + 1).drop_last() =~= keys.take(i as int));
        }
        put_group(&mut out, showing.as_slice(), order[i].as_str(), now);
        i += 1;
    }
    assert(keys.take(i as int) =~= keys);
    out
}

// ── Laws ────────────────────────────────────────────────────────────

/// The first poll raises no toasts, whatever happened before it, and what it names once each is
/// what is held from then on.
pub proof fn law_first_poll_is_quiet(changed: Seq<Note>)
    ensures
        folded(Seq::empty(), changed, true).fresh.len() == 0,
        one_each(changed) ==> folded(Seq::empty(), changed, true).items == changed,
    decreases changed.len(),
{
    if changed.len() == 0 {
        assert(folded(Seq::empty(), changed, true).items =~= changed);
    } else {
        let before = changed.drop_last();
        law_first_poll_is_quiet(before);
        if one_each(changed) {
            assert forall|i: int, j: int| 0 <= i < j < before.len() implies (
            #[trigger] before[i]).id != (#[trigger] before[j]).id by {
                assert(changed[i].id != changed[j].id);
            }
            let n = changed.last();
            let f = with_id(n.id);
            assert forall|i: int| 0 <= i < before.len() implies !f(#[trigger] before[i]) by {
                assert(changed[i].id != changed[changed.len() - 1].id);
            }
            seqs::lemma_first_none(before, f);
            assert(before.push(n) =~= changed);
        }
    }
}

/// The app that stands first is the one that said what stands first.
proof fn lemma_first_app(s: Seq<Note>)
    requires
        s.len() > 0,
    ensures
        apps_in(s).len() > 0,
        apps_in(s)[0] == text::small(s[0].app),
    decreases s.len(),
{
    let t = s.drop_last();
    if t.len() > 0 {
        lemma_first_app(t);
    } else {
        assert(apps_in(t) =~= Seq::empty());
    }
}

/// What was said last stands first: a notification that is new, or that its sender put up again,
/// is on top of everything else that is showing, which stays in its order, and its app's group is
/// on top of the list.
pub proof fn law_the_last_word_stands_first(items: Seq<Note>, n: Note)
    requires
        !n.dismissed,
        is_news(items, n),
    ensures
        shown(with_note(items, n)) == seq![n] + shown(others(items, n.id)),
        apps_in(shown(with_note(items, n)))[0] == text::small(n.app),
{
    reveal(Seq::filter);
    let rest = others(items, n.id);
    let f = not_dismissed();
    assert(rest.push(n).drop_last() =~= rest);
    assert(rest.push(n).filter(f) =~= rest.filter(f).push(n));
    assert(rest.filter(f).push(n).reverse() =~= seq![n] + rest.filter(f).reverse());
    lemma_first_app(shown(with_note(items, n)));
}

/// What a poll says is dismissed takes its toast down, and is never a reason to raise one.
pub proof fn law_a_dismissal_is_not_news(items: Seq<Note>, changed: Seq<Note>, first_poll: bool)
    ensures
        ({
            let all = folded(items, changed, first_poll);
            &&& forall|i: int|
                0 <= i < changed.len() && (#[trigger] changed[i]).dismissed ==> all.gone.contains(
                    changed[i].id,
                )
            &&& forall|k: int|
                0 <= k < all.fresh.len() ==> !(#[trigger] all.fresh[k]).dismissed
                    && changed.contains(all.fresh[k])
        }),
    decreases changed.len(),
{
    if changed.len() > 0 {
        let t = changed.drop_last();
        let n = changed.last();
        law_a_dismissal_is_not_news(items, t, first_poll);
        let before = folded(items, t, first_poll);
        let all = folded(items, changed, first_poll);
        assert forall|i: int| 0 <= i < changed.len() && (
        #[trigger] changed[i]).dismissed implies all.gone.contains(changed[i].id) by {
            if i < t.len() {
                assert(t[i].dismissed);
                let k = choose|k: int| 0 <= k < before.gone.len() && before.gone[k] == t[i].id;
                assert(all.gone[k] == changed[i].id);
            } else {
                assert(all.gone[all.gone.len() - 1] == n.id);
            }
        }
        assert forall|k: int| 0 <= k < all.fresh.len() implies !(
        #[trigger] all.fresh[k]).dismissed && changed.contains(all.fresh[k]) by {
            if k < before.fresh.len() {
                assert(all.fresh[k] == before.fresh[k]);
                let i = choose|i: int| 0 <= i < t.len() && t[i] == before.fresh[k];
                assert(changed[i] == all.fresh[k]);
            } else {
                assert(changed[changed.len() - 1] == n);
            }
        }
    }
}

/// Reading a notification neither raises a toast nor takes one down.
pub proof fn law_reading_is_not_news(items: Seq<Note>, i: int, first_poll: bool)
    requires
        one_each(items),
        0 <= i < items.len(),
        !items[i].dismissed,
    ensures
        ({
            let read = Note { read: true, ..items[i] };
            let all = folded(items, seq![read], first_poll);
            all.fresh.len() == 0 && all.gone.len() == 0 && all.items == items.update(i, read)
        }),
{
    let read = Note { read: true, ..items[i] };
    let f = with_id(read.id);
    assert forall|j: int| 0 <= j < i implies !f(#[trigger] items[j]) by {
        assert(items[j].id != items[i].id);
    }
    seqs::lemma_first_is(items, f, i);
    assert(seq![read].drop_last() =~= Seq::<Note>::empty());
    reveal_with_fuel(folded, 2);
}

/// The list shows everything that is showing, each under the header of its own app, and no app has
/// two headers.
pub proof fn law_every_notification_is_listed(items: Seq<Note>)
    ensures
        apps_in(shown(items)).no_duplicates(),
        forall|i: int|
            0 <= i < shown(items).len() ==> apps_in(shown(items)).contains(
                text::small((#[trigger] shown(items)[i]).app),
            ) && shown(items).filter(from_app(text::small(shown(items)[i].app))).contains(
                shown(items)[i],
            ),
{
    let all = shown(items);
    lemma_apps_in(all);
    assert forall|i: int| 0 <= i < all.len() implies apps_in(all).contains(
        text::small((#[trigger] all[i]).app),
    ) && all.filter(from_app(text::small(all[i].app))).contains(all[i]) by {
        let f = from_app(text::small(all[i].app));
        assert(f(all[i]));
        assert(all.contains(all[i]));
        seqs::lemma_filter_from(all, f);
    }
}

// ── Toasts, exactly ─────────────────────────────────────────────────

/// Whether a notification is held that was put up at the same moment under the same id. Whether it
/// was read since, or what else it says, does not matter.
pub open spec fn held_as(items: Seq<Note>, id: Seq<char>, created_at: Seq<char>) -> bool {
    exists|i: int|
        0 <= i < items.len() && (#[trigger] items[i]).id == id && items[i].created_at == created_at
}

/// What earns a toast beside what is held.
pub open spec fn earns_a_toast(items: Seq<Note>) -> spec_fn(Note) -> bool {
    |n: Note| !n.dismissed && !held_as(items, n.id, n.created_at)
}

proof fn lemma_news(items: Seq<Note>, n: Note)
    requires
        one_each(items),
    ensures
        is_news(items, n) <==> !held_as(items, n.id, n.created_at),
        0 <= place_of(items, n.id) <= items.len(),
        place_of(items, n.id) < items.len() ==> items[place_of(items, n.id)].id == n.id,
        place_of(items, n.id) == items.len() ==> forall|i: int|
            0 <= i < items.len() ==> (#[trigger] items[i]).id != n.id,
{
    let f = with_id(n.id);
    seqs::lemma_first(items, f);
    let at = place_of(items, n.id);
    if at < items.len() {
        assert(f(items[at]));
        assert forall|i: int| 0 <= i < items.len() && (#[trigger] items[i]).id == n.id implies i
            == at by {
            if i < at {
                assert(!f(items[i]));
            }
        }
    } else {
        assert forall|i: int| 0 <= i < items.len() implies (#[trigger] items[i]).id != n.id by {
            assert(!f(items[i]));
        }
    }
}

/// A notification earns a toast exactly where it is up and either none of its id is held or the one
/// that is was put up at another moment. Having read the earlier one changes nothing: what is put
/// up again is told again.
pub proof fn law_what_is_put_up_again_is_told_again(items: Seq<Note>, n: Note)
    requires
        one_each(items),
    ensures
        folded(items, seq![n], false).fresh == if !n.dismissed && !held_as(
            items,
            n.id,
            n.created_at,
        ) {
            seq![n]
        } else {
            Seq::empty()
        },
        folded(items, seq![n], false).gone == if n.dismissed {
            seq![n.id]
        } else {
            Seq::empty()
        },
{
    lemma_news(items, n);
    assert(seq![n].drop_last() =~= Seq::<Note>::empty());
    reveal_with_fuel(folded, 2);
}

/// What is told does not depend on what was read, nor on anything the held notifications say: lists
/// that hold the same ids, put up at the same moments, tell the same.
pub proof fn law_reading_silences_nothing(a: Seq<Note>, b: Seq<Note>, n: Note)
    requires
        one_each(a),
        a.len() == b.len(),
        forall|i: int|
            0 <= i < a.len() ==> (#[trigger] a[i]).id == (#[trigger] b[i]).id && a[i].created_at
                == b[i].created_at,
    ensures
        folded(a, seq![n], false).fresh == folded(b, seq![n], false).fresh,
{
    assert forall|i: int, j: int| 0 <= i < j < b.len() implies (#[trigger] b[i]).id != (
    #[trigger] b[j]).id by {
        assert(a[i].id != a[j].id);
    }
    law_what_is_put_up_again_is_told_again(a, n);
    law_what_is_put_up_again_is_told_again(b, n);
    if held_as(a, n.id, n.created_at) {
        let i = choose|i: int|
            0 <= i < a.len() && (#[trigger] a[i]).id == n.id && a[i].created_at == n.created_at;
        assert(b[i].id == n.id);
    }
    if held_as(b, n.id, n.created_at) {
        let i = choose|i: int|
            0 <= i < b.len() && (#[trigger] b[i]).id == n.id && b[i].created_at == n.created_at;
        assert(a[i].id == n.id);
    }
}

/// A change takes the place of the notification with its id and touches no other: what is held
/// afterwards is the change, and whatever has another id.
pub proof fn law_a_change_replaces_its_own(items: Seq<Note>, n: Note, x: Note)
    requires
        one_each(items),
    ensures
        with_note(items, n).contains(x) <==> x == n || items.contains(x) && x.id != n.id,
{
    lemma_news(items, n);
    let at = place_of(items, n.id);
    let now = with_note(items, n);
    if is_news(items, n) {
        assert(now[now.len() - 1] == n);
    } else {
        assert(now[at] == n);
    }
    if items.contains(x) && x.id != n.id {
        let i = choose|i: int| 0 <= i < items.len() && items[i] == x;
        if !is_news(items, n) || i < at {
            assert(now[i] == x);
        } else {
            assert(now[i - 1] == x);
        }
    }
    if now.contains(x) && x != n {
        let k = choose|k: int| 0 <= k < now.len() && now[k] == x;
        let i = if is_news(items, n) && k >= at {
            k + 1
        } else {
            k
        };
        assert(items[i] == x);
        if at < items.len() {
            assert(i != at);
            assert(items[if i < at { i } else { at }].id != items[if i < at { at } else { i }].id);
        }
    }
}

/// Where a change comes to stand: one that is new goes last, one that was put up again goes last
/// and leaves its old place, and one that was only changed stays where it was.
pub proof fn law_where_a_change_stands(items: Seq<Note>, n: Note, i: int)
    requires
        one_each(items),
        0 <= i < items.len(),
    ensures
        items[i].id == n.id && items[i].created_at == n.created_at ==> with_note(items, n)
            == items.update(i, n),
        items[i].id == n.id && items[i].created_at != n.created_at ==> with_note(items, n)
            == items.remove(i).push(n),
        (forall|j: int| 0 <= j < items.len() ==> (#[trigger] items[j]).id != n.id) ==> with_note(
            items,
            n,
        ) == items.push(n),
{
    lemma_news(items, n);
    let at = place_of(items, n.id);
    if items[i].id == n.id {
        assert(at == i) by {
            if at < i {
                assert(items[at].id != items[i].id);
            }
            if i < at {
                assert(!with_id(n.id)(items[i])) by {
                    seqs::lemma_first(items, with_id(n.id));
                }
            }
        }
    }
}

/// A poll tells each thing that is news, once and in the order the service gave it, and takes down
/// the toast of each thing that was dismissed.
pub proof fn law_a_poll_tells_what_is_news(items: Seq<Note>, changed: Seq<Note>)
    requires
        one_each(items),
        one_each(changed),
    ensures
        folded(items, changed, false).fresh == changed.filter(earns_a_toast(items)),
        one_each(folded(items, changed, false).items),
        forall|x: Note| #[trigger] folded(items, changed, false).items.contains(x) <==> {
            ||| changed.contains(x)
            ||| items.contains(x) && forall|k: int|
                0 <= k < changed.len() ==> (#[trigger] changed[k]).id != x.id
        },
    decreases changed.len(),
{
    reveal(Seq::filter);
    let all = folded(items, changed, false);
    let f = earns_a_toast(items);
    if changed.len() == 0 {
        assert(all.fresh =~= changed.filter(f));
    } else {
        let t = changed.drop_last();
        let n = changed.last();
        assert forall|i: int, j: int| 0 <= i < j < t.len() implies (#[trigger] t[i]).id != (
        #[trigger] t[j]).id by {
            assert(changed[i].id != changed[j].id);
        }
        law_a_poll_tells_what_is_news(items, t);
        let before = folded(items, t, false);
        lemma_with_note(before.items, n);
        lemma_news(before.items, n);
        assert forall|k: int| 0 <= k < t.len() implies (#[trigger] t[k]).id != n.id by {
            assert(changed[k].id != changed[changed.len() - 1].id);
        }
        assert(held_as(before.items, n.id, n.created_at) <==> held_as(items, n.id, n.created_at))
            by {
            if held_as(before.items, n.id, n.created_at) {
                let i = choose|i: int|
                    0 <= i < before.items.len() && (#[trigger] before.items[i]).id == n.id
                        && before.items[i].created_at == n.created_at;
                let x = before.items[i];
                assert(before.items.contains(x));
                if t.contains(x) {
                    let k = choose|k: int| 0 <= k < t.len() && t[k] == x;
                    assert(t[k].id != n.id);
                }
                assert(items.contains(x));
                let j = choose|j: int| 0 <= j < items.len() && items[j] == x;
                assert(items[j].id == n.id);
            }
            if held_as(items, n.id, n.created_at) {
                let i = choose|i: int|
                    0 <= i < items.len() && (#[trigger] items[i]).id == n.id
                        && items[i].created_at == n.created_at;
                let x = items[i];
                assert(items.contains(x));
                assert(before.items.contains(x));
                let j = choose|j: int| 0 <= j < before.items.len() && before.items[j] == x;
                assert(before.items[j].id == n.id);
            }
        }
        assert forall|x: Note| #[trigger] all.items.contains(x) <==> {
            ||| changed.contains(x)
            ||| items.contains(x) && forall|k: int|
                0 <= k < changed.len() ==> (#[trigger] changed[k]).id != x.id
        } by {
            law_a_change_replaces_its_own(before.items, n, x);
            assert(before.items.contains(x) <==> {
                ||| t.contains(x)
                ||| items.contains(x) && forall|k: int|
                    0 <= k < t.len() ==> (#[trigger] t[k]).id != x.id
            });
            assert(changed[changed.len() - 1] == n);
            if t.contains(x) {
                let k = choose|k: int| 0 <= k < t.len() && t[k] == x;
                assert(t[k].id != n.id);
                assert(changed[k] == x);
            }
            if changed.contains(x) && x != n {
                let k = choose|k: int| 0 <= k < changed.len() && changed[k] == x;
                assert(t[k] == x);
            }
            if items.contains(x) && x.id != n.id && forall|k: int|
                0 <= k < t.len() ==> (#[trigger] t[k]).id != x.id {
                assert forall|k: int| 0 <= k < changed.len() implies (#[trigger] changed[k]).id
                    != x.id by {
                    if k < t.len() {
                        assert(t[k].id != x.id);
                    }
                }
            }
            if forall|k: int| 0 <= k < changed.len() ==> (#[trigger] changed[k]).id != x.id {
                assert forall|k: int| 0 <= k < t.len() implies (#[trigger] t[k]).id != x.id by {
                    assert(changed[k].id != x.id);
                }
            }
        }
    }
}

/// What is showing is whatever was not dismissed, the latest first.
pub proof fn law_the_latest_shows_first(items: Seq<Note>, n: Note)
    ensures
        shown(items.push(n)) == if n.dismissed {
            shown(items)
        } else {
            seq![n] + shown(items)
        },
        shown(Seq::empty()).len() == 0,
{
    reveal(Seq::filter);
    let f = not_dismissed();
    assert(items.push(n).drop_last() =~= items);
    if !n.dismissed {
        assert(items.filter(f).push(n).reverse() =~= seq![n] + items.filter(f).reverse());
    }
}

/// The badge counts whatever is up and was not read.
pub proof fn law_the_badge_counts_the_unread(items: Seq<Note>, n: Note)
    ensures
        items.push(n).filter(unread()).len() == items.filter(unread()).len() + (if n.read
            || n.dismissed {
            0int
        } else {
            1int
        }),
        Seq::<Note>::empty().filter(unread()).len() == 0,
{
    reveal(Seq::filter);
    assert(items.push(n).drop_last() =~= items);
}

/// Five hundred notifications are held, the latest, and none is let go before that.
pub proof fn law_the_latest_are_held(items: Seq<Note>)
    ensures
        items.len() <= 500 ==> newest(items) == items,
        items.len() > 500 ==> newest(items).len() == 500 && forall|i: int|
            0 <= i < 500 ==> #[trigger] newest(items)[i] == items[items.len() - 500 + i],
{
}

/// A row says what its notification says: its words as they are, how long ago it was put up, and
/// its buttons, the one for the notification itself aside.
pub proof fn law_a_row_says_what_its_notification_says(n: Note, now: i64, b: Button)
    ensures
        ({
            let row = line_of(n, now);
            &&& row.id == n.id && row.summary == n.title && row.body == n.body
            &&& row.app_name == n.app && row.group_name == n.app && row.source == n.source
            &&& row.is_read == n.read && !row.is_group_header && row.group_count == 0
            &&& n.urgency == Urgency::Low ==> row.urgency == 0
            &&& n.urgency == Urgency::Normal ==> row.urgency == 1
            &&& n.urgency == Urgency::Critical ==> row.urgency == 2
            &&& row.actions.contains(b) <==> n.actions.contains(b) && b.0 != "default"@
            &&& row.age is Some
            &&& match moment(n.created_at) {
                Some(then) => if then <= now {
                    then + row.age->0 == now
                } else {
                    row.age->0 == 0
                },
                None => row.age->0 == 0,
            }
        }),
{
    seqs::lemma_filter_from(n.actions, drawn());
    let all = n.actions.filter(drawn());
    if all.contains(b) {
        let i = choose|i: int| 0 <= i < all.len() && all[i] == b;
        assert(drawn()(all[i]));
    }
}

/// An app's group is one header, which says how many there are, and one row for each.
pub proof fn law_a_group_is_headed(s: Seq<Note>, key: Seq<char>, now: i64)
    requires
        s.len() <= 500,
    ensures
        ({
            let n = s.filter(from_app(key)).len();
            let rows = group(s, key, now);
            &&& rows.len() == n + 1
            &&& rows[0].is_group_header
            &&& rows[0].group_count == n
            &&& rows[0].id.len() == 0
            &&& forall|i: int|
                1 <= i < rows.len() ==> !(#[trigger] rows[i]).is_group_header && rows[i]
                    == line_of(s.filter(from_app(key))[i - 1], now)
        }),
{
    reveal_strlit("");
    seqs::lemma_filter_from(s, from_app(key));
}

proof fn lemma_listed_under(s: Seq<Note>, keys: Seq<Seq<char>>, now: i64, n: Note)
    requires
        s.contains(n),
        keys.contains(text::small(n.app)),
    ensures
        groups(s, keys, now).contains(line_of(n, now)),
    decreases keys.len(),
{
    let key = text::small(n.app);
    let i = choose|i: int| 0 <= i < keys.len() && keys[i] == key;
    let rest = groups(s, keys.drop_last(), now);
    let all = groups(s, keys, now);
    if i == keys.len() - 1 {
        let f = from_app(key);
        assert(f(n));
        seqs::lemma_filter_from(s, f);
        let of_it = s.filter(f);
        assert(of_it.contains(n));
        let k = choose|k: int| 0 <= k < of_it.len() && of_it[k] == n;
        assert(group(s, key, now)[k + 1] == line_of(n, now));
        assert(all[rest.len() + k + 1] == line_of(n, now));
    } else {
        assert(keys.drop_last()[i] == key);
        lemma_listed_under(s, keys.drop_last(), now, n);
        let k = choose|k: int| 0 <= k < rest.len() && rest[k] == line_of(n, now);
        assert(all[k] == line_of(n, now));
    }
}

/// Whatever was not dismissed has its row in the list.
pub proof fn law_whatever_is_up_has_its_row(items: Seq<Note>, now: i64, n: Note)
    requires
        items.contains(n),
        !n.dismissed,
    ensures
        listed(items, now).contains(line_of(n, now)),
{
    let f = not_dismissed();
    assert(f(n));
    seqs::lemma_filter_from(items, f);
    let kept = items.filter(f);
    let k = choose|k: int| 0 <= k < kept.len() && kept[k] == n;
    let all = shown(items);
    assert(all[all.len() - 1 - k] == n);
    law_every_notification_is_listed(items);
    assert(apps_in(all).contains(text::small(all[all.len() - 1 - k].app)));
    lemma_listed_under(all, apps_in(all), now, n);
}

/// Reading one here marks that one read and nothing else, and dismissing it takes it down besides;
/// an id that is not here changes nothing.
pub proof fn law_one_is_marked_here(
    read: &mut NotificationMirror,
    dismissed: &mut NotificationMirror,
    id: &str,
    j: int,
)
    requires
        call_ensures(NotificationMirror::mark_read_locally, (read, id), ()),
        call_ensures(NotificationMirror::dismiss_locally, (dismissed, id), ()),
        old(read)@ == old(dismissed)@,
        old(read)@.wf(),
        0 <= j < old(read)@.items.len(),
    ensures
        final(read)@.items.len() == old(read)@.items.len(),
        final(dismissed)@.items.len() == old(read)@.items.len(),
        old(read)@.items[j].id == id@ ==> final(read)@.items[j] == (Note {
            read: true,
            ..old(read)@.items[j]
        }) && final(dismissed)@.items[j] == (Note {
            read: true,
            dismissed: true,
            ..old(read)@.items[j]
        }),
        old(read)@.items[j].id != id@ ==> final(read)@.items[j] == old(read)@.items[j] && final(dismissed)@.items[j] == old(read)@.items[j],
        final(read)@.revision == old(read)@.revision && final(dismissed)@.revision == old(read)@.revision,
        final(read)@.primed == old(read)@.primed && final(read)@.notice == old(read)@.notice,
{
    let s = old(read)@.items;
    let f = with_id(id@);
    seqs::lemma_first(s, f);
    if s[j].id == id@ {
        assert forall|k: int| 0 <= k < j implies !f(#[trigger] s[k]) by {
            assert(s[k].id != s[j].id);
        }
        seqs::lemma_first_is(s, f, j);
    }
}

/// After a poll the mirror stands at the revision of the store, and says that the service is up;
/// the first poll puts up nothing.
pub proof fn law_where_a_poll_leaves_the_mirror(mirror: &mut NotificationMirror, since: Since, r: Applied)
    requires
        call_ensures(NotificationMirror::apply, (mirror, since), r),
        old(mirror)@.wf(),
    ensures
        final(mirror)@.revision == since.revision,
        final(mirror)@.notice is None,
        final(mirror)@.primed,
        final(mirror)@.items.len() <= 500,
        !old(mirror)@.primed ==> r.fresh@.len() == 0,
{
    if !old(mirror)@.primed {
        law_first_poll_is_quiet(notes(since.changed@));
        assert(old(mirror)@.items =~= Seq::<Note>::empty());
        assert(notes(r.fresh@).len() == r.fresh@.len());
    }
}

/// A service that cannot be reached is told to be down, and takes nothing down with it.
pub proof fn law_a_service_that_is_down_loses_nothing(mirror: &mut NotificationMirror, why: String)
    requires
        call_ensures(NotificationMirror::unreachable, (mirror, why), ()),
    ensures
        final(mirror)@.notice == Some(why@),
        final(mirror)@.items == old(mirror)@.items,
        final(mirror)@.revision == old(mirror)@.revision,
        final(mirror)@.primed == old(mirror)@.primed,
{
}

/// The more urgent a notification, the higher its number, and a group goes by the first letter of
/// its app, or by a question mark.
pub proof fn law_how_urgent_a_notification_is(u: Urgency, first: Note, count: int)
    ensures
        u == Urgency::Low ==> urgency_number(u) == 0,
        u == Urgency::Normal ==> urgency_number(u) == 1,
        u == Urgency::Critical ==> urgency_number(u) == 2,
        first.app.len() > 0 ==> header_of(first, count).group_icon == text::upper(first.app[0]),
        first.app.len() == 0 ==> header_of(first, count).group_icon == text::upper('?'),
        header_of(first, count).group_name == first.app,
        header_of(first, count).source == first.source,
{
}

/// One is found by its id, wherever it stands, and what is told of them is the latest, no more than
/// is asked for.
pub proof fn law_one_is_found_by_its_id(
    mirror: NotificationMirror,
    id: &str,
    r: Option<&Notification>,
    i: int,
    limit: usize,
    told: Vec<Json>,
)
    requires
        mirror@.wf(),
        call_ensures(NotificationMirror::get, (&mirror, id), r),
        call_ensures(NotificationMirror::latest_for_describe, (&mirror, limit), told),
    ensures
        0 <= i < mirror@.items.len() && mirror@.items[i].id == id@ ==> r is Some && r->0@
            == mirror@.items[i],
        (forall|j: int| 0 <= j < mirror@.items.len() ==> (#[trigger] mirror@.items[j]).id != id@)
            ==> r is None,
        told@.len() <= limit,
        told@.len() == limit || told@.len() == shown(mirror@.items).len(),
        0 <= i < told@.len() ==> told@[i]@ == described(shown(mirror@.items)[i]),
{
    let s = mirror@.items;
    let f = with_id(id@);
    seqs::lemma_first(s, f);
    if 0 <= i < s.len() && s[i].id == id@ {
        assert forall|j: int| 0 <= j < i implies !f(#[trigger] s[j]) by {
            assert(s[j].id != s[i].id);
        }
        seqs::lemma_first_is(s, f, i);
    }
    if forall|j: int| 0 <= j < s.len() ==> (#[trigger] s[j]).id != id@ {
        seqs::lemma_first_none(s, f);
    }
    json::lemma_trees(told@);
    if 0 <= i < told@.len() {
        assert(json::trees(told@)[i] == told@[i]@);
    }
}

/// A notification is as old as the time since it was put up; one from the future, or of no known
/// time, is new.
pub proof fn law_how_old_a_notification_is(then: i64, now: i64)
    ensures
        now >= then ==> age(Some(then), now) == now - then,
        now < then ==> age(Some(then), now) == 0,
        age(None, now) == 0,
{
}

} // verus!
