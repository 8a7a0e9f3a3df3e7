//! Which apps the shell has launched, and whether they are still alive.
//!
//! One entry per app, and the entry belongs to the process that owns the window. Which processes
//! live, and what time it is, are the caller's to say.
use crate::json;
use crate::json::{comes_before, number, put_last, string, Json, Row, Tree};
use crate::seqs;
use crate::text::same;
use vstd::prelude::*;

verus! {

/// How long a process must survive before it is no longer called a failed launch.
pub const LAUNCH_GRACE_MS: u64 = 3_000;

/// One app the shell launched and has not yet reaped.
#[derive(Clone, Debug)]
pub struct RunningApp {
    /// The id the shell launched it under.
    pub app_id: String,
    pub pid: u32,
    /// The binary that was spawned.
    pub binary: String,
    /// Unix seconds when it was launched.
    pub since_unix: u64,
}

/// What a [`RunningApp`] says.
pub struct Launched {
    pub app_id: Seq<char>,
    pub pid: u32,
    pub binary: Seq<char>,
    pub since_unix: u64,
}

impl View for RunningApp {
    type V = Launched;

    open spec fn view(&self) -> Launched {
        Launched {
            app_id: self.app_id@,
            pid: self.pid,
            binary: self.binary@,
            since_unix: self.since_unix,
        }
    }
}

impl RunningApp {
    pub fn copy(&self) -> (r: RunningApp)
        ensures
            r@ == self@,
    {
        RunningApp {
            app_id: self.app_id.clone(),
            pid: self.pid,
            binary: self.binary.clone(),
            since_unix: self.since_unix,
        }
    }
}

/// A launch that started and then died before it could show a window.
#[derive(Clone, Debug)]
pub struct LaunchFailure {
    pub app_id: String,
    /// The binary that was spawned.
    pub binary: String,
    /// How the process ended, as the system reported it.
    pub status: String,
    /// How long it survived, in milliseconds.
    pub lived_ms: u64,
    pub at_unix: u64,
}

/// What a [`LaunchFailure`] says.
pub struct Died {
    pub app_id: Seq<char>,
    pub binary: Seq<char>,
    pub status: Seq<char>,
    pub lived_ms: u64,
    pub at_unix: u64,
}

impl View for LaunchFailure {
    type V = Died;

    open spec fn view(&self) -> Died {
        Died {
            app_id: self.app_id@,
            binary: self.binary@,
            status: self.status@,
            lived_ms: self.lived_ms,
            at_unix: self.at_unix,
        }
    }
}

impl LaunchFailure {
    pub fn copy(&self) -> (r: LaunchFailure)
        ensures
            r@ == self@,
    {
        LaunchFailure {
            app_id: self.app_id.clone(),
            binary: self.binary.clone(),
            status: self.status.clone(),
            lived_ms: self.lived_ms,
            at_unix: self.at_unix,
        }
    }
}

/// What is reported of a failed launch.
pub open spec fn failure_row(d: Died) -> Tree {
    Tree::Object(
        seq![
            ("app"@, Tree::Str(d.app_id)),
            ("binary"@, Tree::Str(d.binary)),
            ("status"@, Tree::Str(d.status)),
            ("lived_ms"@, Tree::Num(json::whole(d.lived_ms))),
        ],
    )
}

impl Row for LaunchFailure {
    open spec fn row(&self) -> Tree {
        failure_row(self@)
    }

    fn to_json(&self) -> (r: Json) {
        let mut o: Vec<(String, Json)> = Vec::new();
        put_last(&mut o, "app", string(self.app_id.as_str()));
        put_last(&mut o, "binary", string(self.binary.as_str()));
        put_last(&mut o, "status", string(self.status.as_str()));
        put_last(&mut o, "lived_ms", number(self.lived_ms));
        assert(json::entries(o@) =~= self.row()->Object_0);
        Json::Object(o)
    }
}

// ── Open apps ───────────────────────────────────────────────────────

/// The apps the shell has launched.
pub struct Running {
    apps: Vec<RunningApp>,
}

/// What apps are.
pub open spec fn launched(s: Seq<RunningApp>) -> Seq<Launched> {
    Seq::new(s.len(), |i: int| s[i]@)
}

impl View for Running {
    type V = Seq<Launched>;

    closed spec fn view(&self) -> Seq<Launched> {
        launched(self.apps@)
    }
}

pub open spec fn of_app(app_id: Seq<char>) -> spec_fn(Launched) -> bool {
    |a: Launched| a.app_id == app_id
}

/// Where an app's entry is.
pub open spec fn entry_of(s: Seq<Launched>, app_id: Seq<char>) -> int {
    seqs::first(s, of_app(app_id))
}

/// One entry per app.
pub open spec fn one_each(s: Seq<Launched>) -> bool {
    forall|i: int, j: int|
        0 <= i < j < s.len() ==> (#[trigger] s[i]).app_id != (#[trigger] s[j]).app_id
}

/// Whether the entry belongs to a process that still lives, other than this one.
pub open spec fn taken(s: Seq<Launched>, app_id: Seq<char>, pid: u32, live: Seq<u32>) -> bool {
    let i = entry_of(s, app_id);
    i < s.len() && s[i].pid != pid && live.contains(s[i].pid)
}

/// The entries with one more launch among them.
pub open spec fn with_launch(s: Seq<Launched>, a: Launched) -> Seq<Launched> {
    let i = entry_of(s, a.app_id);
    if i < s.len() {
        s.update(i, a)
    } else {
        s.push(a)
    }
}

/// The entries once a process is gone: the app's entry goes only where it is that process's.
pub open spec fn without_pid(s: Seq<Launched>, app_id: Seq<char>, pid: u32) -> Seq<Launched> {
    let i = entry_of(s, app_id);
    if i < s.len() && s[i].pid == pid {
        s.remove(i)
    } else {
        s
    }
}

pub open spec fn lives(live: Seq<u32>) -> spec_fn(Launched) -> bool {
    |a: Launched| live.contains(a.pid)
}

pub open spec fn by_id() -> spec_fn(Launched, Launched) -> bool {
    |a: Launched, b: Launched| json::before(a.app_id, b.app_id)
}

/// The apps that are open: those whose process lives, by id.
pub open spec fn open_now(s: Seq<Launched>, live: Seq<u32>) -> Seq<Launched> {
    seqs::in_order(s.filter(lives(live)), by_id())
}

fn is_live(live: &[u32], pid: u32) -> (r: bool)
    ensures
        r == live@.contains(pid),
{
    let mut i: usize = 0;
    while i < live.len()
        invariant
            i <= live@.len(),
            forall|k: int| 0 <= k < i ==> live@[k] != pid,
        decreases live@.len() - i,
    {
        if live[i] == pid {
            assert(live@[i as int] == pid);
            return true;
        }
        i += 1;
    }
    false
}

fn put_by_id(apps: &mut Vec<RunningApp>, app: RunningApp)
    ensures
        launched(final(apps)@) == seqs::settle(launched(old(apps)@), app@, by_id()),
{
    let ghost was = launched(apps@);
    let ghost a = app@;
    let ghost f = |x: Launched| by_id()(a, x);
    let mut i: usize = 0;
    while i < apps.len()
        invariant_except_break
            i <= apps@.len(),
            was == launched(apps@),
            a == app@,
            f == (|x: Launched| by_id()(a, x)),
            seqs::first(was, f) == seqs::first_from(was, f, i as int),
        ensures
            i <= apps@.len(),
            was == launched(apps@),
            seqs::first(was, f) == i,
        decreases apps@.len() - i,
    {
        assert(was[i as int] == apps@[i as int]@);
        if comes_before(app.app_id.as_str(), apps[i].app_id.as_str()) {
            break;
        }
        i += 1;
    }
    apps.insert(i, app);
    assert(launched(apps@) =~= was.insert(i as int, a));
}

impl Running {
    pub fn new() -> (r: Running)
        ensures
            r@.len() == 0,
            one_each(r@),
    {
        Running { apps: Vec::new() }
    }

    fn find(&self, app_id: &str) -> (r: usize)
        ensures
            r == entry_of(self@, app_id@),
            r <= self.apps@.len(),
    {
        let ghost f = of_app(app_id@);
        let mut i: usize = 0;
        while i < self.apps.len()
            invariant
                i <= self.apps@.len(),
                f == of_app(app_id@),
                seqs::first(self@, f) == seqs::first_from(self@, f, i as int),
            decreases self.apps@.len() - i,
        {
            assert(self@[i as int] == self.apps@[i as int]@);
            if same(self.apps[i].app_id.as_str(), app_id) {
                return i;
            }
            i += 1;
        }
        i
    }

    /// Record that the shell has started an app as a process. Says whether the entry is now that
    /// process's: an entry whose own process still lives is left alone.
    pub fn mark_launched(
        &mut self,
        app_id: &str,
        pid: u32,
        binary: &str,
        live: &[u32],
        now_unix: u64,
    ) -> (r: bool)
        requires
            one_each(old(self)@),
        ensures
            one_each(final(self)@),
            r == !taken(old(self)@, app_id@, pid, live@),
            !r ==> final(self)@ == old(self)@,
            r ==> final(self)@ == with_launch(
                old(self)@,
                (Launched { app_id: app_id@, pid, binary: binary@, since_unix: now_unix }),
            ),
    {
        let i = self.find(app_id);
        let ghost was = self@;
        proof {
            seqs::lemma_first(was, of_app(app_id@));
        }
        if i < self.apps.len() {
            assert(was[i as int] == self.apps@[i as int]@);
            if self.apps[i].pid != pid && is_live(live, self.apps[i].pid) {
                return false;
            }
        }
        let app = RunningApp {
            app_id: app_id.to_owned(),
            pid,
            binary: binary.to_owned(),
            since_unix: now_unix,
        };
        let ghost a = app@;
        if i < self.apps.len() {
            self.apps.set(i, app);
            assert(self@ =~= was.update(i as int, a));
        } else {
            self.apps.push(app);
            assert(self@ =~= was.push(a));
        }
        proof {
            assert forall|x: int, y: int| 0 <= x < y < self@.len() implies (
            #[trigger] self@[x]).app_id != (#[trigger] self@[y]).app_id by {
                if y < was.len() {
                    assert(was[x].app_id != was[y].app_id);
                } else {
                    assert(!of_app(app_id@)(was[x]));
                }
            }
        }
        true
    }

    /// Record that a process launched as an app has exited. The entry goes only where it is that
    /// process's.
    pub fn mark_exited(&mut self, app_id: &str, pid: u32)
        requires
            one_each(old(self)@),
        ensures
            one_each(final(self)@),
            final(self)@ == without_pid(old(self)@, app_id@, pid),
    {
        let i = self.find(app_id);
        let ghost was = self@;
        if i < self.apps.len() {
            assert(was[i as int] == self.apps@[i as int]@);
            if self.apps[i].pid == pid {
                let _ = self.apps.remove(i);
                proof {
                    assert(self@ =~= was.remove(i as int));
                    assert forall|x: int, y: int| 0 <= x < y < self@.len() implies (
                    #[trigger] self@[x]).app_id != (#[trigger] self@[y]).app_id by {
                        let p = if x < i { x } else { x + 1 };
                        let q = if y < i { y } else { y + 1 };
                        assert(was[p].app_id != was[q].app_id);
                    }
                }
            }
        }
    }

    /// Every app the shell has open, by id.
    pub fn running(&self, live: &[u32]) -> (r: Vec<RunningApp>)
        ensures
            launched(r@) == open_now(self@, live@),
    {
        let ghost f = lives(live@);
        let ghost all = self@;
        let mut out: Vec<RunningApp> = Vec::new();
        proof {
            seqs::lemma_filter_none(all, f);
            assert(launched(out@) =~= Seq::empty());
        }
        let mut i: usize = 0;
        while i < self.apps.len()
            invariant
                i <= self.apps@.len(),
                all == self@,
                f == lives(live@),
                launched(out@) == seqs::in_order(all.take(i as int).filter(f), by_id()),
            decreases self.apps@.len() - i,
        {
            proof {
                seqs::lemma_filter_take(all, f, i as int);
                assert(all[i as int] == self.apps@[i as int]@);
                let before = all.take(i as int).filter(f);
                assert(before.push(all[i as int]).drop_last() =~= before);
            }
            if is_live(live, self.apps[i].pid) {
                put_by_id(&mut out, self.apps[i].copy());
            }
            i += 1;
        }
        assert(all.take(i as int) =~= all);
        out
    }

    /// Whether the shell has this app open.
    pub fn is_running(&self, app_id: &str, live: &[u32]) -> (r: bool)
        ensures
            ({
                let i = entry_of(self@, app_id@);
                r == (i < self@.len() && live@.contains(self@[i].pid))
            }),
    {
        let i = self.find(app_id);
        if i < self.apps.len() {
            assert(self@[i as int] == self.apps@[i as int]@);
            is_live(live, self.apps[i].pid)
        } else {
            false
        }
    }
}

// ── Failed launches ─────────────────────────────────────────────────

/// The launches that died before they became a window.
pub struct Failures {
    died: Vec<LaunchFailure>,
}

/// What failed launches are.
pub open spec fn deaths(s: Seq<LaunchFailure>) -> Seq<Died> {
    Seq::new(s.len(), |i: int| s[i]@)
}

impl View for Failures {
    type V = Seq<Died>;

    closed spec fn view(&self) -> Seq<Died> {
        deaths(self.died@)
    }
}

pub open spec fn died_as(app_id: Seq<char>) -> spec_fn(Died) -> bool {
    |d: Died| d.app_id == app_id
}

pub open spec fn failure_of(s: Seq<Died>, app_id: Seq<char>) -> int {
    seqs::first(s, died_as(app_id))
}

/// One failure per app.
pub open spec fn one_failure_each(s: Seq<Died>) -> bool {
    forall|i: int, j: int|
        0 <= i < j < s.len() ==> (#[trigger] s[i]).app_id != (#[trigger] s[j]).app_id
}

/// The failures without an app's.
pub open spec fn without_failure(s: Seq<Died>, app_id: Seq<char>) -> Seq<Died> {
    let i = failure_of(s, app_id);
    if i < s.len() {
        s.remove(i)
    } else {
        s
    }
}

pub open spec fn newest() -> spec_fn(Died, Died) -> bool {
    |a: Died, b: Died| a.at_unix > b.at_unix
}

impl Failures {
    pub fn new() -> (r: Failures)
        ensures
            r@.len() == 0,
            one_failure_each(r@),
    {
        Failures { died: Vec::new() }
    }

    fn find(&self, app_id: &str) -> (r: usize)
        ensures
            r == failure_of(self@, app_id@),
            r <= self.died@.len(),
    {
        let ghost f = died_as(app_id@);
        let mut i: usize = 0;
        while i < self.died.len()
            invariant
                i <= self.died@.len(),
                f == died_as(app_id@),
                seqs::first(self@, f) == seqs::first_from(self@, f, i as int),
            decreases self.died@.len() - i,
        {
            assert(self@[i as int] == self.died@[i as int]@);
            if same(self.died[i].app_id.as_str(), app_id) {
                return i;
            }
            i += 1;
        }
        i
    }

    /// Record that a launch died before it could become a window: the app's last failure is this.
    pub fn mark_launch_failed(
        &mut self,
        app_id: &str,
        binary: &str,
        status: &str,
        lived_ms: u64,
        now_unix: u64,
    )
        requires
            one_failure_each(old(self)@),
        ensures
            one_failure_each(final(self)@),
            final(self)@ == without_failure(old(self)@, app_id@).push(
                (Died {
                    app_id: app_id@,
                    binary: binary@,
                    status: status@,
                    lived_ms,
                    at_unix: now_unix,
                }),
            ),
    {
        let ghost start = self@;
        self.clear_launch_failure(app_id);
        let ghost was = self@;
        let f = LaunchFailure {
            app_id: app_id.to_owned(),
            binary: binary.to_owned(),
            status: status.to_owned(),
            lived_ms,
            at_unix: now_unix,
        };
        let ghost d = f@;
        self.died.push(f);
        proof {
            assert(self@ =~= was.push(d));
            assert forall|x: int, y: int| 0 <= x < y < self@.len() implies (
            #[trigger] self@[x]).app_id != (#[trigger] self@[y]).app_id by {
                if y < was.len() {
                    assert(was[x].app_id != was[y].app_id);
                }
            }
        }
    }

    /// Clear any past failure of an app, because it has just been launched again.
    pub fn clear_launch_failure(&mut self, app_id: &str)
        requires
            one_failure_each(old(self)@),
        ensures
            one_failure_each(final(self)@),
            final(self)@ == without_failure(old(self)@, app_id@),
            forall|i: int|
                0 <= i < final(self)@.len() ==> (#[trigger] final(self)@[i]).app_id != app_id@,
    {
        let i = self.find(app_id);
        let ghost was = self@;
        proof {
            seqs::lemma_first(was, died_as(app_id@));
        }
        if i < self.died.len() {
            let _ = self.died.remove(i);
            proof {
                assert(self@ =~= was.remove(i as int));
                assert forall|x: int, y: int| 0 <= x < y < self@.len() implies (
                #[trigger] self@[x]).app_id != (#[trigger] self@[y]).app_id by {
                    let p = if x < i { x } else { x + 1 };
                    let q = if y < i { y } else { y + 1 };
                    assert(was[p].app_id != was[q].app_id);
                }
                assert forall|x: int| 0 <= x < self@.len() implies (#[trigger] self@[x]).app_id
                    != app_id@ by {
                    let p = if x < i { x } else { x + 1 };
                    if p < i {
                        assert(was[p].app_id != was[i as int].app_id);
                    } else {
                        assert(was[i as int].app_id != was[p].app_id);
                    }
                }
            }
        } else {
            assert forall|x: int| 0 <= x < self@.len() implies (#[trigger] self@[x]).app_id
                != app_id@ by {
                assert(!died_as(app_id@)(was[x]));
            }
        }
    }

    /// The last failed launch of an app, if it failed rather than opened.
    pub fn last_launch_failure(&self, app_id: &str) -> (r: Option<LaunchFailure>)
        ensures
            ({
                let i = failure_of(self@, app_id@);
                match r {
                    Some(f) => i < self@.len() && f@ == self@[i],
                    None => i >= self@.len(),
                }
            }),
    {
        let i = self.find(app_id);
        if i < self.died.len() {
            assert(self@[i as int] == self.died@[i as int]@);
            Some(self.died[i].copy())
        } else {
            None
        }
    }

    /// Every launch that has failed and not since succeeded, newest first.
    pub fn launch_failures(&self) -> (r: Vec<LaunchFailure>)
        ensures
            deaths(r@) == seqs::in_order(self@, newest()),
    {
        let ghost all = self@;
        let mut out: Vec<LaunchFailure> = Vec::new();
        assert(deaths(out@) =~= Seq::empty());
        let mut i: usize = 0;
        assert(all.take(0) =~= Seq::empty());
        while i < self.died.len()
            invariant
                i <= self.died@.len(),
                all == self@,
                deaths(out@) == seqs::in_order(all.take(i as int), newest()),
            decreases self.died@.len() - i,
        {
            let ghost was = deaths(out@);
            let one = self.died[i].copy();
            let ghost d = one@;
            let ghost f = |x: Died| newest()(d, x);
            let mut k: usize = 0;
            while k < out.len()
                invariant_except_break
                    k <= out@.len(),
                    was == deaths(out@),
                    d == one@,
                    f == (|x: Died| newest()(d, x)),
                    seqs::first(was, f) == seqs::first_from(was, f, k as int),
                ensures
                    k <= out@.len(),
                    was == deaths(out@),
                    seqs::first(was, f) == k,
                decreases out@.len() - k,
            {
                assert(was[k as int] == out@[k as int]@);
                if one.at_unix > out[k].at_unix {
                    break;
                }
                k += 1;
            }
            out.insert(k, one);
            i += 1;
            proof {
                assert(deaths(out@) =~= was.insert(k as int, d));
                assert(all.take(i as int).drop_last() =~= all.take(i - 1));
                assert(all.take(i as int).last() == d);
            }
        }
        assert(all.take(i as int) =~= all);
        out
    }
}

// ── Laws ────────────────────────────────────────────────────────────

/// A second copy of an app that is open neither takes the entry nor, by exiting, takes the app off
/// the list of what is open.
pub proof fn law_a_second_copy_evicts_nothing(
    s: Seq<Launched>,
    app_id: Seq<char>,
    second: u32,
    live: Seq<u32>,
)
    requires
        taken(s, app_id, second, live),
    ensures
        without_pid(s, app_id, second) == s,
{
}

/// Once the process that owns an app's entry is gone, the app is not open, and can be launched as
/// any process.
pub proof fn law_an_exit_frees_the_entry(s: Seq<Launched>, app_id: Seq<char>)
    requires
        one_each(s),
        entry_of(s, app_id) < s.len(),
    ensures
        ({
            let gone = without_pid(s, app_id, s[entry_of(s, app_id)].pid);
            entry_of(gone, app_id) == gone.len() && forall|pid: u32, live: Seq<u32>|
                !taken(gone, app_id, pid, live)
        }),
{
    let f = of_app(app_id);
    let i = entry_of(s, app_id);
    seqs::lemma_first(s, f);
    let gone = without_pid(s, app_id, s[i].pid);
    assert forall|j: int| 0 <= j < gone.len() implies !f(#[trigger] gone[j]) by {
        if j < i {
            assert(gone[j] == s[j]);
            assert(s[j].app_id != s[i].app_id);
        } else {
            assert(gone[j] == s[j + 1]);
            assert(s[i].app_id != s[j + 1].app_id);
        }
    }
    seqs::lemma_first_none(gone, f);
}

/// What is open is listed by id, and is exactly what was launched and lives.
pub proof fn law_what_is_open_is_listed_by_id(s: Seq<Launched>, live: Seq<u32>)
    ensures
        seqs::ordered(open_now(s, live), by_id()),
        forall|a: Launched| #[trigger]
            open_now(s, live).contains(a) <==> s.contains(a) && live.contains(a.pid),
{
    assert(seqs::ranks(by_id())) by {
        assert forall|a: Launched, b: Launched, c: Launched| by_id()(a, c) implies #[trigger]
            by_id()(a, b) || #[trigger] by_id()(b, c) by {
            json::lemma_before_total(a.app_id, b.app_id);
            if json::before(b.app_id, a.app_id) {
                json::lemma_before_trans(b.app_id, a.app_id, c.app_id);
            }
        }
        assert forall|a: Launched, b: Launched| #[trigger] by_id()(a, b) implies !by_id()(b, a) by {
            json::lemma_before_total(a.app_id, b.app_id);
        }
    }
    seqs::lemma_in_order(s.filter(lives(live)), by_id());
    seqs::lemma_filter_from(s, lives(live));
    assert forall|a: Launched| #[trigger] open_now(s, live).contains(a) implies s.contains(a)
        && live.contains(a.pid) by {
        assert(s.filter(lives(live)).contains(a));
        let i = choose|i: int|
            0 <= i < s.filter(lives(live)).len() && s.filter(lives(live))[i] == a;
        assert(lives(live)(s.filter(lives(live))[i]));
    }
}

/// Failed launches are listed newest first, each of them.
pub proof fn law_failures_are_listed_newest_first(s: Seq<Died>)
    ensures
        seqs::in_order(s, newest()).len() == s.len(),
        seqs::ordered(seqs::in_order(s, newest()), newest()),
        forall|d: Died| #[trigger] seqs::in_order(s, newest()).contains(d) <==> s.contains(d),
{
    seqs::lemma_in_order(s, newest());
}

/// An app that is open is not opened as another process, and one whose process is gone, or that is
/// that very process, is.
pub proof fn law_an_open_app_is_not_opened_again(
    s: Seq<Launched>,
    i: int,
    pid: u32,
    live: Seq<u32>,
)
    requires
        one_each(s),
        0 <= i < s.len(),
    ensures
        taken(s, s[i].app_id, pid, live) <==> s[i].pid != pid && live.contains(s[i].pid),
{
    let f = of_app(s[i].app_id);
    assert forall|j: int| 0 <= j < i implies !f(#[trigger] s[j]) by {
        assert(s[j].app_id != s[i].app_id);
    }
    seqs::lemma_first_is(s, f, i);
}

/// A launch is entered under its app, in the place of the one before it, and no other app's entry
/// moves.
pub proof fn law_a_launch_is_entered(s: Seq<Launched>, a: Launched, i: int)
    requires
        one_each(s),
        0 <= i < s.len(),
    ensures
        s[i].app_id == a.app_id ==> with_launch(s, a) == s.update(i, a),
        (forall|j: int| 0 <= j < s.len() ==> (#[trigger] s[j]).app_id != a.app_id) ==> with_launch(
            s,
            a,
        ) == s.push(a),
        s[i].app_id != a.app_id ==> with_launch(s, a)[i] == s[i],
        with_launch(s, a).contains(a),
{
    let f = of_app(a.app_id);
    seqs::lemma_first(s, f);
    let k = entry_of(s, a.app_id);
    let now = with_launch(s, a);
    if s[i].app_id == a.app_id {
        assert(f(s[i]));
        assert(f(s[k]));
        assert(k == i) by {
            if k < i {
                assert(s[k].app_id != s[i].app_id);
            }
        }
    }
    if k < s.len() {
        assert(f(s[k]));
        assert(now[k] == a);
    } else {
        assert(now[s.len() as int] == a);
    }
}

/// The end of a process frees its own app's entry, and no other's.
pub proof fn law_an_end_frees_only_its_own(s: Seq<Launched>, i: int, pid: u32)
    requires
        one_each(s),
        0 <= i < s.len(),
    ensures
        s[i].pid == pid ==> without_pid(s, s[i].app_id, pid) == s.remove(i),
        s[i].pid != pid ==> without_pid(s, s[i].app_id, pid) == s,
{
    let f = of_app(s[i].app_id);
    assert forall|j: int| 0 <= j < i implies !f(#[trigger] s[j]) by {
        assert(s[j].app_id != s[i].app_id);
    }
    seqs::lemma_first_is(s, f, i);
}

/// A failure is taken off by its app's name, and no other failure with it.
pub proof fn law_a_failure_is_taken_off(s: Seq<Died>, i: int)
    requires
        one_failure_each(s),
        0 <= i < s.len(),
    ensures
        without_failure(s, s[i].app_id) == s.remove(i),
{
    let f = died_as(s[i].app_id);
    assert forall|j: int| 0 <= j < i implies !f(#[trigger] s[j]) by {
        assert(s[j].app_id != s[i].app_id);
    }
    seqs::lemma_first_is(s, f, i);
}

/// An app is open while the process it was entered with lives, and not otherwise.
pub proof fn law_when_an_app_is_open(running: Running, app_id: &str, live: &[u32], i: int, r: bool)
    requires
        call_ensures(Running::is_running, (&running, app_id, live), r),
        one_each(running@),
    ensures
        0 <= i < running@.len() && running@[i].app_id == app_id@ ==> (r <==> live@.contains(
            running@[i].pid,
        )),
        (forall|j: int| 0 <= j < running@.len() ==> (#[trigger] running@[j]).app_id != app_id@)
            ==> !r,
{
    let s = running@;
    let f = of_app(app_id@);
    if 0 <= i < s.len() && s[i].app_id == app_id@ {
        assert forall|j: int| 0 <= j < i implies !f(#[trigger] s[j]) by {
            assert(s[j].app_id != s[i].app_id);
        }
        seqs::lemma_first_is(s, f, i);
    }
    if forall|j: int| 0 <= j < s.len() ==> (#[trigger] s[j]).app_id != app_id@ {
        seqs::lemma_first_none(s, f);
    }
}

/// A launch that failed is told by its app, what was run, how it ended and how long it lived.
pub proof fn law_what_is_told_of_a_failed_launch(d: Died)
    ensures
        ({
            let e = failure_row(d)->Object_0;
            &&& e.len() == 4
            &&& e[0] == ("app"@, Tree::Str(d.app_id))
            &&& e[1] == ("binary"@, Tree::Str(d.binary))
            &&& e[2] == ("status"@, Tree::Str(d.status))
            &&& e[3] == ("lived_ms"@, Tree::Num(json::whole(d.lived_ms)))
        }),
{
}

/// What was launched is entered under its app, unless another live process is there already, and
/// then nothing changes; no other app is touched.
pub proof fn law_a_launch_is_entered_once(
    running: &mut Running,
    app_id: &str,
    pid: u32,
    binary: &str,
    live: &[u32],
    now: u64,
    i: int,
    r: bool,
)
    requires
        one_each(old(running)@),
        call_ensures(Running::mark_launched, (running, app_id, pid, binary, live, now), r),
        0 <= i < old(running)@.len(),
    ensures
        old(running)@[i].app_id == app_id@ ==> (r <==> old(running)@[i].pid == pid
            || !live@.contains(old(running)@[i].pid)),
        old(running)@[i].app_id == app_id@ && r ==> final(running)@[i] == (Launched {
            app_id: app_id@,
            pid,
            binary: binary@,
            since_unix: now,
        }),
        old(running)@[i].app_id != app_id@ ==> final(running)@[i] == old(running)@[i],
        !r ==> final(running)@ == old(running)@,
{
    let s = old(running)@;
    let f = of_app(app_id@);
    seqs::lemma_first(s, f);
    if s[i].app_id == app_id@ {
        assert forall|j: int| 0 <= j < i implies !f(#[trigger] s[j]) by {
            assert(s[j].app_id != s[i].app_id);
        }
        seqs::lemma_first_is(s, f, i);
    }
}

/// The last failure of an app is told where there is one.
pub proof fn law_the_failure_of_an_app_is_told(
    failures: Failures,
    app_id: &str,
    i: int,
    r: Option<LaunchFailure>,
)
    requires
        one_failure_each(failures@),
        call_ensures(Failures::last_launch_failure, (&failures, app_id), r),
        0 <= i < failures@.len(),
    ensures
        failures@[i].app_id == app_id@ ==> r is Some && r->0@ == failures@[i],
        (forall|j: int| 0 <= j < failures@.len() ==> (#[trigger] failures@[j]).app_id != app_id@)
            ==> r is None,
{
    let s = failures@;
    let f = died_as(app_id@);
    seqs::lemma_first(s, f);
    if s[i].app_id == app_id@ {
        assert forall|j: int| 0 <= j < i implies !f(#[trigger] s[j]) by {
            assert(s[j].app_id != s[i].app_id);
        }
        seqs::lemma_first_is(s, f, i);
    }
    if forall|j: int| 0 <= j < s.len() ==> (#[trigger] s[j]).app_id != app_id@ {
        seqs::lemma_first_none(s, f);
    }
}

} // verus!
