//! Pending approval requests, and the grants only a person can create.
//!
//! A caller raises a request, the shell puts a card in front of the person, and a grant exists
//! only because the person pressed a button. One grant covers one action with one exact set of
//! arguments, once. Nothing here is persistent: a grant that outlived the thing that was asking
//! would be a grant nobody remembers giving.
//!
//! Times are nanoseconds on the shell's monotonic clock; the caller reads the clock.
use crate::clock;
use crate::clock::{elapsed, SECOND};
use crate::json;
use crate::json::{render, Entry, Json, Tree};
use crate::seqs;
use crate::text;
use crate::text::{decimal, has, joined, lowered, same, trimmed};
use vstd::prelude::*;

verus! {

/// How long a request waits for an answer before it stops being one: two minutes.
pub const REQUEST_TTL: u64 = 120_000_000_000;

/// How long a grant survives being given, if nobody burns it: one minute.
pub const GRANT_TTL: u64 = 60_000_000_000;

/// How many requests may be waiting at once. A stack of cards is a stack nobody reads.
pub const MAX_PENDING: usize = 3;

/// How long a denial silences the identical request: two minutes.
pub const DENIAL_QUIET: u64 = 120_000_000_000;

/// How many decided requests are kept for the transcript record.
pub const RECORD_TAIL: usize = 8;

/// How long a settled request stays in the store: ten minutes.
pub const KEEP: u64 = 600_000_000_000;

/// Where a request is.
#[derive(Clone, Copy, PartialEq, Eq, Debug, Structural)]
pub enum Status {
    Pending,
    Granted,
    Denied,
    Expired,
    Consumed,
}

pub open spec fn status_word(s: Status) -> Seq<char> {
    match s {
        Status::Pending => "pending"@,
        Status::Granted => "granted"@,
        Status::Denied => "denied"@,
        Status::Expired => "expired"@,
        Status::Consumed => "consumed"@,
    }
}

pub open spec fn settled(s: Status) -> bool {
    s != Status::Pending && s != Status::Granted
}

impl Status {
    pub fn as_str(self) -> (r: &'static str)
        ensures
            r@ == status_word(self),
    {
        match self {
            Status::Pending => "pending",
            Status::Granted => "granted",
            Status::Denied => "denied",
            Status::Expired => "expired",
            Status::Consumed => "consumed",
        }
    }

    /// Whether anything more can happen to a request in this state.
    pub fn is_final(self) -> (r: bool)
        ensures
            r == settled(self),
    {
        !matches!(self, Status::Pending | Status::Granted)
    }
}

/// What the person was asked, and what they said.
pub struct Asked {
    pub id: Seq<char>,
    pub requester: Seq<char>,
    pub app: Seq<char>,
    pub action: Seq<char>,
    pub args: Tree,
    pub grade: Seq<char>,
    pub purpose: Seq<char>,
    pub created: int,
    pub created_at: Seq<char>,
    pub decided: Option<int>,
    pub decided_at: Seq<char>,
    pub state: Status,
}

/// Everything a store holds: the requests, oldest first, and the number the next one gets.
pub struct Shelf {
    pub records: Seq<Asked>,
    pub next: int,
}

/// Where a request stands at `now`. Expiry is a fact about the clock, not something stored.
pub open spec fn standing(r: Asked, now: int) -> Status {
    match r.state {
        Status::Pending => if clock::since(now, r.created) >= REQUEST_TTL {
            Status::Expired
        } else {
            Status::Pending
        },
        Status::Granted => match r.decided {
            Some(at) => if clock::since(now, at) >= GRANT_TTL {
                Status::Expired
            } else {
                Status::Granted
            },
            None => Status::Granted,
        },
        other => other,
    }
}

struct Record {
    id: String,
    requester: String,
    app: String,
    action: String,
    args: Json,
    /// The arguments as the grant is bound to them: the text the card was built from is the text
    /// a consume is compared against.
    canonical: String,
    grade: String,
    purpose: String,
    created: u64,
    created_at: String,
    decided: Option<u64>,
    decided_at: String,
    state: Status,
}

impl Record {
    spec fn asked(self) -> Asked {
        Asked {
            id: self.id@,
            requester: self.requester@,
            app: self.app@,
            action: self.action@,
            args: self.args@,
            grade: self.grade@,
            purpose: self.purpose@,
            created: self.created as int,
            created_at: self.created_at@,
            decided: match self.decided {
                Some(at) => Some(at as int),
                None => None,
            },
            decided_at: self.decided_at@,
            state: self.state,
        }
    }

    spec fn bound(self) -> bool {
        &&& self.canonical@ == json::compact(json::tidy(self.args@))
        &&& forall|t: Tree|
            #[trigger] json::compact(json::tidy(t)) == self.canonical@ ==> json::tidy(t) == json::tidy(self.args@)
    }

    fn status(&self, now: u64) -> (r: Status)
        ensures
            r == standing(self.asked(), now as int),
    {
        match self.state {
            Status::Pending => if elapsed(now, self.created) >= REQUEST_TTL {
                Status::Expired
            } else {
                Status::Pending
            },
            Status::Granted => match self.decided {
                Some(at) => if elapsed(now, at) >= GRANT_TTL {
                    Status::Expired
                } else {
                    Status::Granted
                },
                None => Status::Granted,
            },
            other => other,
        }
    }
}

// ── What a person reads on the card ─────────────────────────────────

/// The one argument a string reads better as: without its quotes.
pub open spec fn shown(t: Tree) -> Seq<char> {
    match t {
        Tree::Str(s) => s,
        other => json::compact(other),
    }
}

/// `key: value` for each entry.
pub open spec fn arg_rows(v: Seq<Entry>) -> Seq<Seq<char>> {
    Seq::new(v.len(), |i: int| v[i].0 + ": "@ + shown(v[i].1))
}

/// Whether each value that is no string is told from every other value by its compact text.
pub open spec fn told_apart(v: Seq<Entry>) -> bool {
    forall|i: int, t: Tree|
        0 <= i < v.len() && !((#[trigger] v[i]).1 is Str) && #[trigger] json::compact(json::tidy(t))
            == json::compact(v[i].1) ==> json::tidy(t) == v[i].1
}

/// The rows of a value: none, where it is no object.
pub open spec fn rows_of(t: Tree) -> Seq<Seq<char>> {
    match json::tidy(t) {
        Tree::Object(v) => arg_rows(v),
        _ => Seq::empty(),
    }
}

/// The arguments as a person reads them, in the order the grant is bound in.
pub open spec fn lines_for(t: Tree) -> Seq<char> {
    match json::tidy(t) {
        Tree::Null => "(no arguments)"@,
        Tree::Object(v) => if v.len() == 0 {
            "(no arguments)"@
        } else {
            text::join(arg_rows(v), "\n"@)
        },
        other => json::compact(other),
    }
}

/// Canonical JSON: object keys in order, everything else as it is. Arrays keep their order.
pub fn canonical(value: &Json) -> (r: String)
    ensures
        r@ == json::compact(json::tidy(value@)),
        forall|t: Tree| #[trigger] json::compact(json::tidy(t)) == r@ ==> json::tidy(t) == json::tidy(value@),
{
    render(value)
}

/// One `key: value` row for each argument, in the order the grant is bound in.
pub fn args_rows(value: &Json) -> (r: Vec<String>)
    ensures
        text::strs(r@) == rows_of(value@),
        json::tidy(value@) matches Tree::Object(v) ==> told_apart(v),
{
    let tidied = value.tidied();
    let mut out: Vec<String> = Vec::new();
    proof {
        json::lemma_tidy_twice(value@);
    }
    match &tidied {
        Json::Object(v) => {
            let mut i: usize = 0;
            proof {
                json::lemma_entries(v@);
            }
            let ghost es = json::entries(v@);
            assert(json::tidy(value@) == Tree::Object(es));
            proof {
                json::lemma_tidy_values(value@->Object_0);
            }
            while i < v.len()
                invariant
                    i <= v@.len(),
                    es == json::entries(v@),
                    es.len() == v@.len(),
                    forall|k: int| 0 <= k < v@.len() ==> #[trigger] es[k] == (v@[k].0@, v@[k].1@),
                    forall|k: int| 0 <= k < v@.len() ==> json::tidy((#[trigger] es[k]).1) == es[k].1,
                    told_apart(es.take(i as int)),
                    text::strs(out@) == arg_rows(es).take(i as int),
                decreases v@.len() - i,
            {
                let mut row = v[i].0.clone();
                row.append(": ");
                let ghost e = es[i as int];
                match &v[i].1 {
                    Json::Str(s) => row.append(s.as_str()),
                    other => row.append(render(other).as_str()),
                }
                let ghost line = row@;
                let ghost earlier = text::strs(out@);
                let ghost told = es.take(i as int);
                assert(line == arg_rows(es)[i as int]);
                out.push(row);
                i += 1;
                assert(told_apart(es.take(i as int))) by {
                    assert(es.take(i as int) =~= told.push(e));
                }
                assert(text::strs(out@) =~= earlier.push(line));
                assert(text::strs(out@) =~= arg_rows(es).take(i as int));
            }
            assert(arg_rows(es).take(i as int) =~= arg_rows(es));
            assert(es.take(i as int) =~= es);
        },
        _ => {
            assert(text::strs(out@) =~= Seq::<Seq<char>>::empty());
        },
    }
    out
}

/// The arguments as lines a person can read, in the order the grant is bound in.
pub fn args_lines(value: &Json) -> (r: String)
    ensures
        r@ == lines_for(value@),
        json::tidy(value@) matches Tree::Object(v) ==> told_apart(v),
{
    match value {
        Json::Null => "(no arguments)".to_owned(),
        Json::Object(v) => {
            let rows = args_rows(value);
            assert(json::tidy(value@) is Object);
            if rows.len() == 0 {
                assert(text::strs(rows@).len() == 0);
                return "(no arguments)".to_owned();
            }
            assert(text::strs(rows@).len() > 0);
            joined(rows.as_slice(), "\n")
        },
        other => render(other),
    }
}

/// Whether the app's own sentence about an action says that it cannot be taken back.
pub open spec fn says_final(purpose: Seq<char>) -> bool {
    let p = text::lower(purpose);
    ||| text::contains(p, "not recoverable"@)
    ||| text::contains(p, "cannot be undone"@)
    ||| text::contains(p, "can't be undone"@)
    ||| text::contains(p, "irreversible"@)
    ||| text::contains(p, "permanently"@)
    ||| text::contains(p, "permanent"@)
    ||| text::contains(p, "no undo"@)
}

/// Whether the app's own sentence about an action says that it cannot be taken back.
pub fn unrecoverable(purpose: &str) -> (r: bool)
    ensures
        r == says_final(purpose@),
{
    let low = lowered(purpose);
    let p = low.as_str();
    has(p, "not recoverable") || has(p, "cannot be undone") || has(p, "can't be undone") || has(
        p,
        "irreversible",
    ) || has(p, "permanently") || has(p, "permanent") || has(p, "no undo")
}

/// The sentence to put in front of the buttons, or nothing.
pub open spec fn warning(grade: Seq<char>, purpose: Seq<char>) -> Seq<char> {
    if grade == "dangerous"@ {
        if says_final(purpose) {
            "This is graded dangerous and the app says it cannot be undone."@
        } else {
            "This is graded dangerous — it can destroy work or state."@
        }
    } else if says_final(purpose) {
        "The app says this cannot be undone."@
    } else {
        Seq::empty()
    }
}

/// The warning line, or empty. The grade is the OS's own judgement about the action, the purpose
/// the app's own sentence about it, and either can be the reason for one.
pub fn warning_for(grade: &str, purpose: &str) -> (r: String)
    ensures
        r@ == warning(grade@, purpose@),
{
    let dangerous = same(grade, "dangerous");
    let last = unrecoverable(purpose);
    if dangerous && last {
        "This is graded dangerous and the app says it cannot be undone.".to_owned()
    } else if dangerous {
        "This is graded dangerous — it can destroy work or state.".to_owned()
    } else if last {
        "The app says this cannot be undone.".to_owned()
    } else {
        String::new()
    }
}

/// Whether a person may be offered a standing yes for an action: never for one that is graded
/// dangerous, nor for one that the app says cannot be taken back.
pub open spec fn rule_offered(grade: Seq<char>, purpose: Seq<char>) -> bool {
    grade != "dangerous"@ && !says_final(purpose)
}

pub fn may_offer_session_rule(grade: &str, purpose: &str) -> (r: bool)
    ensures
        r == rule_offered(grade@, purpose@),
{
    !same(grade, "dangerous") && !unrecoverable(purpose)
}

/// A standing yes is offered exactly where the card carries no warning.
pub proof fn law_a_warning_rules_out_a_standing_yes(grade: Seq<char>, purpose: Seq<char>)
    ensures
        rule_offered(grade, purpose) <==> warning(grade, purpose).len() == 0,
{
    reveal_strlit("This is graded dangerous and the app says it cannot be undone.");
    reveal_strlit("This is graded dangerous — it can destroy work or state.");
    reveal_strlit("The app says this cannot be undone.");
}

// ── Tests on requests ───────────────────────────────────────────────

/// What stays in the store at `now`: whatever can still change, and what settled lately.
pub open spec fn kept_at(now: int) -> spec_fn(Asked) -> bool {
    |r: Asked|
        !settled(standing(r, now)) || clock::since(
            now,
            match r.decided {
                Some(at) => at,
                None => r.created,
            },
        ) < KEEP
}

pub open spec fn pending_at(now: int) -> spec_fn(Asked) -> bool {
    |r: Asked| standing(r, now) == Status::Pending
}

pub open spec fn decided_at(now: int) -> spec_fn(Asked) -> bool {
    |r: Asked| standing(r, now) != Status::Pending
}

pub open spec fn called(id: Seq<char>) -> spec_fn(Asked) -> bool {
    |r: Asked| r.id == id
}

/// What is asked, by whom, about what.
pub struct Question {
    pub requester: Seq<char>,
    pub app: Seq<char>,
    pub action: Seq<char>,
    pub args: Tree,
    pub grade: Seq<char>,
    pub purpose: Seq<char>,
}

/// The same action with the same arguments.
pub open spec fn same_question(r: Asked, app: Seq<char>, action: Seq<char>, args: Tree) -> bool {
    r.app == app && r.action == action && json::tidy(r.args) == json::tidy(args)
}

pub open spec fn asked_already(q: Question, now: int) -> spec_fn(Asked) -> bool {
    |r: Asked| standing(r, now) == Status::Pending && same_question(r, q.app, q.action, q.args)
}

pub open spec fn denied_lately(q: Question, now: int) -> spec_fn(Asked) -> bool {
    |r: Asked|
        r.state == Status::Denied && same_question(r, q.app, q.action, q.args) && (match r.decided {
            Some(at) => clock::since(now, at) < DENIAL_QUIET,
            None => false,
        })
}

// ── Asking ──────────────────────────────────────────────────────────

pub open spec fn denied_text(q: Question, ago: int) -> Seq<char> {
    "the person denied `"@ + q.app + "."@ + q.action + "` with these exact arguments "@ + text::dec(
        ago as nat,
    )
        + "s ago, so this was not put in front of them again. Do not ask a third time unless they bring it up themselves."@
}

pub open spec fn flood_text(waiting: nat) -> Seq<char> {
    text::dec(waiting)
        + " approval requests are already waiting for an answer, which is the most this shell will show at once. A person cannot read a stack of them, and a stack is how the one that matters gets waved through. Wait for the ones on screen to be answered or to expire ("@
        + text::dec((REQUEST_TTL / SECOND) as nat) + "s each), then ask again."@
}

/// The name of the `n`th request.
pub open spec fn numbered(n: int) -> Seq<char> {
    "appr-"@ + text::dec(n as nat)
}

/// What a request is answered: the card's name, or why there is none.
pub open spec fn answer_to(s: Shelf, q: Question, now: int) -> Result<Seq<char>, Seq<char>> {
    let kept = s.records.filter(kept_at(now));
    let twin = seqs::first(kept, asked_already(q, now));
    let refused = seqs::first(kept, denied_lately(q, now));
    let waiting = kept.filter(pending_at(now)).len();
    if twin < kept.len() {
        Ok(kept[twin].id)
    } else if refused < kept.len() {
        Err(denied_text(q, clock::since(now, kept[refused].decided->0) / (SECOND as int)))
    } else if waiting >= MAX_PENDING {
        Err(flood_text(waiting))
    } else {
        Ok(numbered(s.next))
    }
}

/// The card a request puts up.
pub open spec fn new_card(id: Seq<char>, q: Question, now: int, at: Seq<char>) -> Asked {
    Asked {
        id,
        requester: text::trim(q.requester),
        app: q.app,
        action: q.action,
        args: q.args,
        grade: q.grade,
        purpose: text::trim(q.purpose),
        created: now,
        created_at: at,
        decided: None,
        decided_at: Seq::empty(),
        state: Status::Pending,
    }
}

/// The store after a request: what nobody will look at again is gone, and a question that is new
/// and may be asked has its card.
pub open spec fn after_request(s: Shelf, q: Question, now: int, at: Seq<char>) -> Shelf {
    let kept = s.records.filter(kept_at(now));
    let fresh = seqs::first(kept, asked_already(q, now)) >= kept.len() && seqs::first(
        kept,
        denied_lately(q, now),
    ) >= kept.len() && kept.filter(pending_at(now)).len() < MAX_PENDING;
    if fresh {
        Shelf {
            records: kept.push(new_card(numbered(s.next), q, now, at)),
            next: s.next + 1,
        }
    } else {
        Shelf { records: kept, next: s.next }
    }
}

/// What [`Store::request`] answers with.
#[derive(Clone, PartialEq, Eq, Debug)]
pub struct Requested {
    pub id: String,
    /// Always `pending`.
    pub status: Status,
}

/// The requests this shell is holding.
pub struct Store {
    records: Vec<Record>,
    next: u64,
}

spec fn views(s: Seq<Record>) -> Seq<Asked> {
    Seq::new(s.len(), |i: int| s[i].asked())
}

/// Whether `id` names a request made before the `next`th.
pub open spec fn is_name(id: Seq<char>, next: int) -> bool {
    exists|k: int| 1 <= k < next && id == #[trigger] numbered(k)
}

/// What holds of every store: the requests are named by their numbers, no two alike, an expiry is
/// never stored, and exactly the decided ones say when.
pub open spec fn well_kept(s: Shelf) -> bool {
    &&& s.next >= 1
    &&& forall|i: int|
        0 <= i < s.records.len() ==> is_name((#[trigger] s.records[i]).id, s.next)
    &&& forall|i: int, j: int|
        0 <= i < j < s.records.len() ==> (#[trigger] s.records[i]).id != (
        #[trigger] s.records[j]).id
    &&& forall|i: int|
        0 <= i < s.records.len() ==> (#[trigger] s.records[i]).state != Status::Expired && (
        s.records[i].decided is Some <==> s.records[i].state != Status::Pending)
}

impl View for Store {
    type V = Shelf;

    closed spec fn view(&self) -> Shelf {
        Shelf { records: views(self.records@), next: self.next as int }
    }
}

impl Default for Store {
    fn default() -> (r: Self)
        ensures
            r.wf(),
            r@.records.len() == 0,
            r@.next == 1,
    {
        Store::new()
    }
}

impl Store {
    /// The stored text of every request's arguments is the canonical one.
    pub closed spec fn bound(&self) -> bool {
        forall|i: int| 0 <= i < self.records@.len() ==> (#[trigger] self.records@[i]).bound()
    }

    pub open spec fn wf(&self) -> bool {
        well_kept(self@) && self.bound()
    }

    pub fn new() -> (r: Self)
        ensures
            r.wf(),
            r@.records.len() == 0,
            r@.next == 1,
    {
        Store { records: Vec::new(), next: 1 }
    }

    /// Drop what nobody will look at again, so a long session does not grow a list forever.
    fn prune(&mut self, now: u64)
        requires
            old(self).wf(),
        ensures
            final(self).wf(),
            final(self)@ == (Shelf {
                records: old(self)@.records.filter(kept_at(now as int)),
                next: old(self)@.next,
            }),
    {
        let ghost all = views(self.records@);
        let ghost f = kept_at(now as int);
        let ghost mut n: int = 0;
        let ghost next = self.next;
        let mut i: usize = 0;
        proof {
            seqs::lemma_filter_none(all, f);
            assert(all.take(0).filter(f) + all.skip(0) =~= all);
        }
        while i < self.records.len()
            invariant
                0 <= n <= all.len(),
                f == kept_at(now as int),
                self.next == next,
                i == all.take(n).filter(f).len(),
                views(self.records@) == all.take(n).filter(f) + all.skip(n),
                forall|k: int|
                    0 <= k < self.records@.len() ==> (#[trigger] self.records@[k]).bound(),
            decreases all.len() - n,
        {
            let ghost kept = all.take(n).filter(f);
            let ghost was = self.records@;
            assert(views(was).len() == was.len());
            assert(was[i as int].asked() == views(was)[i as int]);
            assert(views(was)[i as int] == all[n]);
            let record = &self.records[i];
            let status = record.status(now);
            let then: u64 = match record.decided {
                Some(at) => at,
                None => record.created,
            };
            let keep = !status.is_final() || elapsed(now, then) < KEEP;
            assert(keep == f(all[n]));
            proof {
                seqs::lemma_filter_take(all, f, n);
            }
            if keep {
                i += 1;
                proof {
                    assert(kept.push(all[n]) + all.skip(n + 1) =~= kept + all.skip(n));
                }
            } else {
                let _ = self.records.remove(i);
                proof {
                    assert(views(was) == kept + all.skip(n));
                    assert(self.records@ == was.remove(i as int));
                    assert(views(self.records@) =~= views(was).remove(i as int));
                    assert(views(was).remove(i as int) =~= kept + all.skip(n + 1));
                }
            }
            proof {
                n = n + 1;
            }
        }
        proof {
            assert(n == all.len()) by {
                assert(views(self.records@).len() == self.records@.len());
            }
            assert(all.take(n) =~= all);
            assert(all.filter(f) + all.skip(n) =~= all.filter(f));
            lemma_prune_keeps(Shelf { records: all, next: next as int }, now as int);
        }
    }
}

/// Dropping requests leaves the store as it should be.
pub proof fn lemma_prune_keeps(s: Shelf, now: int)
    requires
        well_kept(s),
    ensures
        well_kept(Shelf { records: s.records.filter(kept_at(now)), next: s.next }),
{
    let f = kept_at(now);
    let w = s.records.filter(f);
    let t = Shelf { records: w, next: s.next };
    seqs::lemma_filter_from(s.records, f);
    let key = |r: Asked| r.id;
    assert forall|i: int, j: int| 0 <= i < j < s.records.len() implies key(
        #[trigger] s.records[i],
    ) != key(#[trigger] s.records[j]) by {}
    seqs::lemma_filter_distinct(s.records, f, key);
    assert forall|i: int, j: int| 0 <= i < j < w.len() implies (#[trigger] w[i]).id != (
    #[trigger] w[j]).id by {
        assert(key(w[i]) != key(w[j]));
    }
    assert forall|i: int| 0 <= i < w.len() implies is_name((#[trigger] w[i]).id, s.next)
        && w[i].state != Status::Expired && (w[i].decided is Some <==> w[i].state
        != Status::Pending) by {
        assert(s.records.contains(w[i]));
        let j = choose|j: int| 0 <= j < s.records.len() && s.records[j] == w[i];
        assert(is_name(s.records[j].id, s.next));
    }
}

impl Store {
    /// Where the first request is that `app.action` with these arguments is the same question as.
    fn twin(&self, q: Ghost<Question>, app: &str, action: &str, canonical: &str, now: u64) -> (r:
        usize)
        requires
            self.wf(),
            q@.app == app@,
            q@.action == action@,
            canonical@ == json::compact(json::tidy(q@.args)),
        ensures
            r == seqs::first(self@.records, asked_already(q@, now as int)),
    {
        let mut i: usize = 0;
        let ghost f = asked_already(q@, now as int);
        while i < self.records.len()
            invariant
                self.wf(),
                i <= self.records@.len(),
                q@.app == app@,
                q@.action == action@,
                canonical@ == json::compact(json::tidy(q@.args)),
                f == asked_already(q@, now as int),
                seqs::first(self@.records, f) == seqs::first_from(self@.records, f, i as int),
            decreases self.records@.len() - i,
        {
            let record = &self.records[i];
            assert(record.bound());
            assert(self@.records[i as int] == record.asked());
            if record.status(now) == Status::Pending && same(record.app.as_str(), app) && same(
                record.action.as_str(),
                action,
            ) && same(record.canonical.as_str(), canonical) {
                return i;
            }
            i += 1;
        }
        i
    }

    /// Where the first request is that asked the same and was denied a moment ago.
    fn refusal(&self, q: Ghost<Question>, app: &str, action: &str, canonical: &str, now: u64) -> (r:
        usize)
        requires
            self.wf(),
            q@.app == app@,
            q@.action == action@,
            canonical@ == json::compact(json::tidy(q@.args)),
        ensures
            r == seqs::first(self@.records, denied_lately(q@, now as int)),
    {
        let mut i: usize = 0;
        let ghost f = denied_lately(q@, now as int);
        while i < self.records.len()
            invariant
                self.wf(),
                i <= self.records@.len(),
                q@.app == app@,
                q@.action == action@,
                canonical@ == json::compact(json::tidy(q@.args)),
                f == denied_lately(q@, now as int),
                seqs::first(self@.records, f) == seqs::first_from(self@.records, f, i as int),
            decreases self.records@.len() - i,
        {
            let record = &self.records[i];
            assert(record.bound());
            assert(self@.records[i as int] == record.asked());
            let lately = match record.decided {
                Some(at) => elapsed(now, at) < DENIAL_QUIET,
                None => false,
            };
            if record.state == Status::Denied && same(record.app.as_str(), app) && same(
                record.action.as_str(),
                action,
            ) && same(record.canonical.as_str(), canonical) && lately {
                return i;
            }
            i += 1;
        }
        i
    }

    /// How many requests are waiting for an answer.
    fn waiting(&self, now: u64) -> (r: usize)
        ensures
            r == self@.records.filter(pending_at(now as int)).len(),
    {
        let mut i: usize = 0;
        let mut count: usize = 0;
        let ghost f = pending_at(now as int);
        proof {
            seqs::lemma_filter_none(self@.records, f);
        }
        while i < self.records.len()
            invariant
                i <= self.records@.len(),
                count <= i,
                f == pending_at(now as int),
                count == self@.records.take(i as int).filter(f).len(),
            decreases self.records@.len() - i,
        {
            proof {
                seqs::lemma_filter_take(self@.records, f, i as int);
            }
            assert(self@.records[i as int] == self.records@[i as int].asked());
            if self.records[i].status(now) == Status::Pending {
                count += 1;
            }
            i += 1;
        }
        assert(self@.records.take(i as int) =~= self@.records);
        count
    }

    /// Whether a question is one whose card is not up already: only such a question takes the
    /// screen and is worth a notification.
    pub fn is_fresh(&self, app: &str, action: &str, args: &Json, now: u64) -> (r: bool)
        requires
            self.wf(),
        ensures
            r == !any(
                self@,
                |r: Asked|
                    standing(r, now as int) == Status::Pending && same_question(
                        r,
                        app@,
                        action@,
                        args@,
                    ),
            ),
    {
        let ghost q = Question {
            requester: Seq::empty(),
            app: app@,
            action: action@,
            args: args@,
            grade: Seq::empty(),
            purpose: Seq::empty(),
        };
        let canon = canonical(args);
        let twin = self.twin(Ghost(q), app, action, canon.as_str(), now);
        proof {
            let f = asked_already(q, now as int);
            seqs::lemma_first(self@.records, f);
            assert(f =~= |r: Asked|
                standing(r, now as int) == Status::Pending && same_question(r, app@, action@, args@));
            if twin < self@.records.len() {
                assert(f(self@.records[twin as int]));
            }
        }
        twin >= self.records.len()
    }

    /// Raise a request. The only thing this does is make a card appear.
    pub fn request(
        &mut self,
        requester: &str,
        app: &str,
        action: &str,
        args: Json,
        grade: &str,
        purpose: &str,
        now: u64,
        at: &str,
    ) -> (r: Result<Requested, String>)
        requires
            old(self).wf(),
            old(self)@.next < u64::MAX,
        ensures
            final(self).wf(),
            ({
                let q = Question {
                    requester: requester@,
                    app: app@,
                    action: action@,
                    args: args@,
                    grade: grade@,
                    purpose: purpose@,
                };
                &&& final(self)@ == after_request(old(self)@, q, now as int, at@)
                &&& match answer_to(old(self)@, q, now as int) {
                    Ok(id) => r matches Ok(card) && card.id@ == id && card.status
                        == Status::Pending,
                    Err(why) => r matches Err(text) && text@ == why,
                }
            }),
    {
        let ghost q = Question {
            requester: requester@,
            app: app@,
            action: action@,
            args: args@,
            grade: grade@,
            purpose: purpose@,
        };
        let ghost was = self@;
        self.prune(now);
        let ghost kept = self@;
        let canon = canonical(&args);

        let twin = self.twin(Ghost(q), app, action, canon.as_str(), now);
        if twin < self.records.len() {
            assert(self@.records[twin as int] == self.records@[twin as int].asked());
            return Ok(Requested { id: self.records[twin].id.clone(), status: Status::Pending });
        }
        let refused = self.refusal(Ghost(q), app, action, canon.as_str(), now);
        if refused < self.records.len() {
            proof {
                seqs::lemma_first(self@.records, denied_lately(q, now as int));
                assert(self@.records[refused as int] == self.records@[refused as int].asked());
            }
            let ago: u64 = match self.records[refused].decided {
                Some(d) => elapsed(now, d) / SECOND,
                None => 0,
            };
            let mut why = "the person denied `".to_owned();
            why.append(app);
            why.append(".");
            why.append(action);
            why.append("` with these exact arguments ");
            why.append(decimal(ago).as_str());
            why.append(
                "s ago, so this was not put in front of them again. Do not ask a third time unless they bring it up themselves.",
            );
            return Err(why);
        }
        let waiting = self.waiting(now);
        if waiting >= MAX_PENDING {
            let mut why = decimal(waiting as u64);
            why.append(
                " approval requests are already waiting for an answer, which is the most this shell will show at once. A person cannot read a stack of them, and a stack is how the one that matters gets waved through. Wait for the ones on screen to be answered or to expire (",
            );
            why.append(decimal(REQUEST_TTL / SECOND).as_str());
            why.append("s each), then ask again.");
            return Err(why);
        }
        let mut id = "appr-".to_owned();
        id.append(decimal(self.next).as_str());
        let ghost number = self.next as int;
        self.next = self.next + 1;
        self.records.push(
            Record {
                id: id.clone(),
                requester: trimmed(requester),
                app: app.to_owned(),
                action: action.to_owned(),
                args,
                canonical: canon,
                grade: grade.to_owned(),
                purpose: trimmed(purpose),
                created: now,
                created_at: at.to_owned(),
                decided: None,
                decided_at: String::new(),
                state: Status::Pending,
            },
        );
        proof {
            let card = new_card(numbered(number), q, now as int, at@);
            assert(self.records@.last().asked() == card);
            assert(self@.records =~= kept.records.push(card));
            lemma_push_keeps(kept, card);
        }
        Ok(Requested { id, status: Status::Pending })
    }
}

/// A store with one more request under the next number is as it should be.
proof fn lemma_push_keeps(s: Shelf, card: Asked)
    requires
        well_kept(s),
        card.id == numbered(s.next),
        card.state == Status::Pending,
        card.decided is None,
    ensures
        well_kept(Shelf { records: s.records.push(card), next: s.next + 1 }),
{
    let w = s.records.push(card);
    assert forall|i: int| 0 <= i < w.len() implies is_name((#[trigger] w[i]).id, s.next + 1) by {
        if i < s.records.len() {
            assert(is_name(s.records[i].id, s.next));
            let k = choose|k: int| 1 <= k < s.next && s.records[i].id == #[trigger] numbered(k);
            assert(w[i].id == numbered(k));
        }
    }
    assert forall|i: int, j: int| 0 <= i < j < w.len() implies (#[trigger] w[i]).id != (
    #[trigger] w[j]).id by {
        if j == s.records.len() {
            assert(is_name(s.records[i].id, s.next));
            let k = choose|k: int| 1 <= k < s.next && s.records[i].id == #[trigger] numbered(k);
            if numbered(k) == numbered(s.next) {
                lemma_numbered(k, s.next);
            }
        }
    }
}

proof fn lemma_numbered(a: int, b: int)
    requires
        1 <= a,
        1 <= b,
        numbered(a) == numbered(b),
    ensures
        a == b,
{
    let p = "appr-"@;
    assert(numbered(a).skip(p.len() as int) =~= text::dec(a as nat));
    assert(numbered(b).skip(p.len() as int) =~= text::dec(b as nat));
    text::lemma_dec_injective(a as nat, b as nat);
}

// ── Deciding ────────────────────────────────────────────────────────

/// Where a request stands, or nothing where there is none by that name.
pub open spec fn status_of(s: Shelf, id: Seq<char>, now: int) -> Option<Status> {
    let i = seqs::first(s.records, called(id));
    if i < s.records.len() {
        Some(standing(s.records[i], now))
    } else {
        None
    }
}

/// What a decision is answered.
pub open spec fn answer_to_decision(s: Shelf, id: Seq<char>, now: int) -> Result<(), Seq<char>> {
    match status_of(s, id, now) {
        None => Err("no approval request `"@ + id + "`"@),
        Some(Status::Pending) => Ok(()),
        Some(other) => Err("`"@ + id + "` is "@ + status_word(other) + " and cannot be decided now"@),
    }
}

/// The store after a decision: the card says so where it was still waiting, and nothing else
/// moved.
pub open spec fn after_decision(
    s: Shelf,
    id: Seq<char>,
    decision: Status,
    now: int,
    at: Seq<char>,
) -> Shelf {
    let i = seqs::first(s.records, called(id));
    if answer_to_decision(s, id, now) is Ok {
        Shelf {
            records: s.records.update(
                i,
                Asked { state: decision, decided: Some(now), decided_at: at, ..s.records[i] },
            ),
            next: s.next,
        }
    } else {
        s
    }
}

// ── Burning a grant ─────────────────────────────────────────────────

/// What burning a grant is answered. The refusal says which part differed.
pub open spec fn answer_to_consume(
    s: Shelf,
    id: Seq<char>,
    app: Seq<char>,
    action: Seq<char>,
    args: Tree,
    now: int,
) -> Result<(), Seq<char>> {
    let i = seqs::first(s.records, called(id));
    let r = s.records[i];
    match status_of(s, id, now) {
        None => Err(
            "no approval request `"@ + id
                + "` — it may have been dropped when the shell restarted. Ask again."@,
        ),
        Some(Status::Pending) => Err(
            "`"@ + id
                + "` has not been answered yet; nothing was authorised. Keep polling approval_status, or let it expire."@,
        ),
        Some(Status::Denied) => Err(
            "the person denied `"@ + id + "`; nothing was authorised and nothing was run."@,
        ),
        Some(Status::Consumed) => Err(
            "`"@ + id
                + "` was already used. A grant authorises one action once; this second use authorises nothing. Ask again if the action still needs doing."@,
        ),
        Some(Status::Expired) => Err(
            "`"@ + id + "` has expired — a grant lasts "@ + text::dec((GRANT_TTL / SECOND) as nat)
                + "s and a request "@ + text::dec((REQUEST_TTL / SECOND) as nat)
                + "s. Nothing was authorised. Ask again."@,
        ),
        Some(Status::Granted) => if r.app != app {
            Err(
                "`"@ + id + "` was approved for app `"@ + r.app + "`, not `"@ + app
                    + "`. Nothing was authorised."@,
            )
        } else if r.action != action {
            Err(
                "`"@ + id + "` was approved for action `"@ + r.app + "."@ + r.action + "`, not `"@
                    + r.app + "."@ + action + "`. Nothing was authorised."@,
            )
        } else if json::tidy(r.args) != json::tidy(args) {
            Err(
                "`"@ + id + "` was approved for `"@ + r.app + "."@ + r.action + "` with arguments "@
                    + json::compact(json::tidy(r.args)) + ", and this call carries "@ + json::compact(json::tidy(args))
                    + ". The person approved what they were shown; a different argument is a different action. Nothing was authorised."@,
            )
        } else {
            Ok(())
        },
    }
}

/// The store after a consume: the grant is used up where it covered the call, and nothing moved
/// where it did not.
pub open spec fn after_consume(
    s: Shelf,
    id: Seq<char>,
    app: Seq<char>,
    action: Seq<char>,
    args: Tree,
    now: int,
) -> Shelf {
    let i = seqs::first(s.records, called(id));
    if answer_to_consume(s, id, app, action, args, now) is Ok {
        Shelf {
            records: s.records.update(i, Asked { state: Status::Consumed, ..s.records[i] }),
            next: s.next,
        }
    } else {
        s
    }
}

impl Store {
    fn find(&self, id: &str) -> (r: usize)
        ensures
            r == seqs::first(self@.records, called(id@)),
    {
        let mut i: usize = 0;
        let ghost f = called(id@);
        while i < self.records.len()
            invariant
                i <= self.records@.len(),
                f == called(id@),
                seqs::first(self@.records, f) == seqs::first_from(self@.records, f, i as int),
            decreases self.records@.len() - i,
        {
            assert(self@.records[i as int] == self.records@[i as int].asked());
            if same(self.records[i].id.as_str(), id) {
                return i;
            }
            i += 1;
        }
        i
    }

    /// Where a request stands. `None` means no request by that id, which is not the same as
    /// expired.
    pub fn status(&self, id: &str, now: u64) -> (r: Option<Status>)
        ensures
            r == status_of(self@, id@, now as int),
    {
        let i = self.find(id);
        if i < self.records.len() {
            assert(self@.records[i as int] == self.records@[i as int].asked());
            Some(self.records[i].status(now))
        } else {
            None
        }
    }

    /// One request as it is at `now`.
    pub fn card(&self, id: &str, now: u64) -> (r: Option<Card>)
        ensures
            ({
                let i = seqs::first(self@.records, called(id@));
                match r {
                    Some(c) => i < self@.records.len() && shows(c, self@.records[i], now as int),
                    None => i >= self@.records.len(),
                }
            }),
    {
        let i = self.find(id);
        if i < self.records.len() {
            assert(self@.records[i as int] == self.records@[i as int].asked());
            Some(card_of(&self.records[i], now))
        } else {
            None
        }
    }

    /// A person pressed Allow.
    pub fn grant(&mut self, id: &str, now: u64, at: &str) -> (r: Result<(), String>)
        requires
            old(self).wf(),
        ensures
            final(self).wf(),
            final(self)@ == after_decision(old(self)@, id@, Status::Granted, now as int, at@),
            match answer_to_decision(old(self)@, id@, now as int) {
                Ok(_) => r is Ok,
                Err(why) => r matches Err(text) && text@ == why,
            },
    {
        self.decide(id, Status::Granted, now, at)
    }

    /// A person pressed Deny.
    pub fn deny(&mut self, id: &str, now: u64, at: &str) -> (r: Result<(), String>)
        requires
            old(self).wf(),
        ensures
            final(self).wf(),
            final(self)@ == after_decision(old(self)@, id@, Status::Denied, now as int, at@),
            match answer_to_decision(old(self)@, id@, now as int) {
                Ok(_) => r is Ok,
                Err(why) => r matches Err(text) && text@ == why,
            },
    {
        self.decide(id, Status::Denied, now, at)
    }

    fn decide(&mut self, id: &str, decision: Status, now: u64, at: &str) -> (r: Result<(), String>)
        requires
            old(self).wf(),
            decision == Status::Granted || decision == Status::Denied,
        ensures
            final(self).wf(),
            final(self)@ == after_decision(old(self)@, id@, decision, now as int, at@),
            match answer_to_decision(old(self)@, id@, now as int) {
                Ok(_) => r is Ok,
                Err(why) => r matches Err(text) && text@ == why,
            },
    {
        let i = self.find(id);
        if i >= self.records.len() {
            let mut why = "no approval request `".to_owned();
            why.append(id);
            why.append("`");
            return Err(why);
        }
        assert(self@.records[i as int] == self.records@[i as int].asked());
        let status = self.records[i].status(now);
        if status != Status::Pending {
            let mut why = "`".to_owned();
            why.append(id);
            why.append("` is ");
            why.append(status.as_str());
            why.append(" and cannot be decided now");
            return Err(why);
        }
        let ghost was = self.records@;
        let ghost shelf = self@;
        let mut record = self.records.remove(i);
        record.state = decision;
        record.decided = Some(now);
        record.decided_at = at.to_owned();
        let ghost card = record.asked();
        self.records.insert(i, record);
        proof {
            assert(self.records@ =~= was.update(i as int, record));
            assert(self@.records =~= shelf.records.update(i as int, card));
            lemma_update_keeps(shelf, i as int, card);
            assert forall|k: int| 0 <= k < self.records@.len() implies (
            #[trigger] self.records@[k]).bound() by {
                assert(was[k].bound());
            }
        }
        Ok(())
    }

    /// Burn a grant, if the app, the action and the arguments match exactly. Succeeds at most
    /// once per grant.
    pub fn consume(&mut self, id: &str, app: &str, action: &str, args: &Json, now: u64) -> (r:
        Result<(), String>)
        requires
            old(self).wf(),
        ensures
            final(self).wf(),
            final(self)@ == after_consume(old(self)@, id@, app@, action@, args@, now as int),
            match answer_to_consume(old(self)@, id@, app@, action@, args@, now as int) {
                Ok(_) => r is Ok,
                Err(why) => r matches Err(text) && text@ == why,
            },
    {
        let i = self.find(id);
        if i >= self.records.len() {
            let mut why = "no approval request `".to_owned();
            why.append(id);
            why.append("` — it may have been dropped when the shell restarted. Ask again.");
            return Err(why);
        }
        assert(self@.records[i as int] == self.records@[i as int].asked());
        let record = &self.records[i];
        assert(record.bound());
        match record.status(now) {
            Status::Granted => {},
            Status::Pending => {
                let mut why = "`".to_owned();
                why.append(id);
                why.append(
                    "` has not been answered yet; nothing was authorised. Keep polling approval_status, or let it expire.",
                );
                return Err(why);
            },
            Status::Denied => {
                let mut why = "the person denied `".to_owned();
                why.append(id);
                why.append("`; nothing was authorised and nothing was run.");
                return Err(why);
            },
            Status::Consumed => {
                let mut why = "`".to_owned();
                why.append(id);
                why.append(
                    "` was already used. A grant authorises one action once; this second use authorises nothing. Ask again if the action still needs doing.",
                );
                return Err(why);
            },
            Status::Expired => {
                let mut why = "`".to_owned();
                why.append(id);
                why.append("` has expired — a grant lasts ");
                why.append(decimal(GRANT_TTL / SECOND).as_str());
                why.append("s and a request ");
                why.append(decimal(REQUEST_TTL / SECOND).as_str());
                why.append("s. Nothing was authorised. Ask again.");
                return Err(why);
            },
        }
        if !same(record.app.as_str(), app) {
            let mut why = "`".to_owned();
            why.append(id);
            why.append("` was approved for app `");
            why.append(record.app.as_str());
            why.append("`, not `");
            why.append(app);
            why.append("`. Nothing was authorised.");
            return Err(why);
        }
        if !same(record.action.as_str(), action) {
            let mut why = "`".to_owned();
            why.append(id);
            why.append("` was approved for action `");
            why.append(record.app.as_str());
            why.append(".");
            why.append(record.action.as_str());
            why.append("`, not `");
            why.append(record.app.as_str());
            why.append(".");
            why.append(action);
            why.append("`. Nothing was authorised.");
            return Err(why);
        }
        let given = canonical(args);
        if !same(record.canonical.as_str(), given.as_str()) {
            let mut why = "`".to_owned();
            why.append(id);
            why.append("` was approved for `");
            why.append(record.app.as_str());
            why.append(".");
            why.append(record.action.as_str());
            why.append("` with arguments ");
            why.append(record.canonical.as_str());
            why.append(", and this call carries ");
            why.append(given.as_str());
            why.append(
                ". The person approved what they were shown; a different argument is a different action. Nothing was authorised.",
            );
            return Err(why);
        }
        let ghost was = self.records@;
        let ghost shelf = self@;
        let mut record = self.records.remove(i);
        record.state = Status::Consumed;
        let ghost card = record.asked();
        self.records.insert(i, record);
        proof {
            assert(self.records@ =~= was.update(i as int, record));
            assert(self@.records =~= shelf.records.update(i as int, card));
            lemma_update_keeps(shelf, i as int, card);
            assert forall|k: int| 0 <= k < self.records@.len() implies (
            #[trigger] self.records@[k]).bound() by {
                assert(was[k].bound());
            }
        }
        Ok(())
    }
}

/// A store with one request decided is as it should be.
proof fn lemma_update_keeps(s: Shelf, i: int, card: Asked)
    requires
        well_kept(s),
        0 <= i < s.records.len(),
        card.id == s.records[i].id,
        card.state != Status::Expired,
        card.decided is Some <==> card.state != Status::Pending,
    ensures
        well_kept(Shelf { records: s.records.update(i, card), next: s.next }),
{
    let w = s.records.update(i, card);
    assert forall|k: int| 0 <= k < w.len() implies is_name((#[trigger] w[k]).id, s.next) by {
        assert(is_name(s.records[k].id, s.next));
    }
    assert forall|a: int, b: int| 0 <= a < b < w.len() implies (#[trigger] w[a]).id != (
    #[trigger] w[b]).id by {
        assert(s.records[a].id != s.records[b].id);
    }
}

// ── What is shown ───────────────────────────────────────────────────

/// The line that stays in the conversation after the card is gone.
pub open spec fn line_of(r: Asked, now: int) -> Seq<char> {
    let what = r.app + "."@ + r.action;
    match standing(r, now) {
        Status::Pending => Seq::empty(),
        Status::Granted => "Allowed once: "@ + what + " — "@ + r.decided_at,
        Status::Consumed => "Allowed once: "@ + what + " — "@ + r.decided_at,
        Status::Denied => "Denied: "@ + what + " — "@ + r.decided_at,
        Status::Expired => if r.state == Status::Granted {
            "Allowed once: "@ + what + " — "@ + r.decided_at + " (grant expired unused)"@
        } else {
            "Not answered: "@ + what + " — asked "@ + r.created_at
        },
    }
}

/// One request as the UI and `describe` see it.
#[derive(Clone, Debug)]
pub struct Card {
    pub id: String,
    pub requester: String,
    pub app: String,
    pub action: String,
    pub grade: String,
    pub purpose: String,
    /// The arguments, one `key: value` line each, in the order the grant is bound in.
    pub args_lines: String,
    /// A sentence to put in front of the buttons, or empty.
    pub warning: String,
    pub status: Status,
    /// The one-line transcript record, once this has been decided. Empty while pending.
    pub record: String,
    pub age_secs: u64,
}

/// Whether a card shows a request as it is at `now`.
pub open spec fn shows(c: Card, r: Asked, now: int) -> bool {
    &&& c.id@ == r.id
    &&& c.requester@ == r.requester
    &&& c.app@ == r.app
    &&& c.action@ == r.action
    &&& c.grade@ == r.grade
    &&& c.purpose@ == r.purpose
    &&& c.args_lines@ == lines_for(r.args)
    &&& c.warning@ == warning(r.grade, r.purpose)
    &&& c.status == standing(r, now)
    &&& c.record@ == line_of(r, now)
    &&& c.age_secs == clock::since(now, r.created) / (SECOND as int)
}

/// Whether these cards show these requests, one for one.
pub open spec fn all_show(cards: Seq<Card>, s: Seq<Asked>, now: int) -> bool {
    &&& cards.len() == s.len()
    &&& forall|i: int| 0 <= i < s.len() ==> shows(#[trigger] cards[i], s[i], now)
}

/// The last `n` of a sequence, or all of it where it is shorter.
pub open spec fn tail<A>(s: Seq<A>, n: int) -> Seq<A> {
    if s.len() <= n {
        s
    } else {
        s.skip(s.len() - n)
    }
}

/// The requests on show: the last few decided ones, then everything that waits.
pub open spec fn on_show(s: Shelf, now: int) -> Seq<Asked> {
    tail(s.records.filter(decided_at(now)), RECORD_TAIL as int) + s.records.filter(pending_at(now))
}

fn record_line(record: &Record, status: Status) -> (r: String)
    requires
        exists|now: int| status == #[trigger] standing(record.asked(), now),
    ensures
        forall|now: int|
            status == #[trigger] standing(record.asked(), now) ==> r@ == line_of(
                record.asked(),
                now,
            ),
{
    let mut what = record.app.clone();
    what.append(".");
    what.append(record.action.as_str());
    match status {
        Status::Pending => String::new(),
        Status::Denied => {
            let mut line = "Denied: ".to_owned();
            line.append(what.as_str());
            line.append(" — ");
            line.append(record.decided_at.as_str());
            line
        },
        Status::Expired => {
            if record.state == Status::Granted {
                let mut line = "Allowed once: ".to_owned();
                line.append(what.as_str());
                line.append(" — ");
                line.append(record.decided_at.as_str());
                line.append(" (grant expired unused)");
                line
            } else {
                let mut line = "Not answered: ".to_owned();
                line.append(what.as_str());
                line.append(" — asked ");
                line.append(record.created_at.as_str());
                line
            }
        },
        _ => {
            let mut line = "Allowed once: ".to_owned();
            line.append(what.as_str());
            line.append(" — ");
            line.append(record.decided_at.as_str());
            line
        },
    }
}

fn card_of(record: &Record, now: u64) -> (r: Card)
    ensures
        shows(r, record.asked(), now as int),
{
    let status = record.status(now);
    Card {
        id: record.id.clone(),
        requester: record.requester.clone(),
        app: record.app.clone(),
        action: record.action.clone(),
        grade: record.grade.clone(),
        purpose: record.purpose.clone(),
        args_lines: args_lines(&record.args),
        warning: warning_for(record.grade.as_str(), record.purpose.as_str()),
        status,
        record: record_line(record, status),
        age_secs: elapsed(now, record.created) / SECOND,
    }
}

impl Store {
    /// Everything the UI and `describe` show: what was recently decided, then what is waiting.
    pub fn cards(&self, now: u64) -> (r: Vec<Card>)
        ensures
            all_show(r@, on_show(self@, now as int), now as int),
    {
        let ghost all = self@.records;
        let ghost d = decided_at(now as int);
        let ghost p = pending_at(now as int);
        let mut decided: Vec<Card> = Vec::new();
        let mut pending: Vec<Card> = Vec::new();
        let mut i: usize = 0;
        proof {
            seqs::lemma_filter_none(all, d);
            seqs::lemma_filter_none(all, p);
        }
        while i < self.records.len()
            invariant
                i <= self.records@.len(),
                all == self@.records,
                d == decided_at(now as int),
                p == pending_at(now as int),
                all_show(decided@, all.take(i as int).filter(d), now as int),
                all_show(pending@, all.take(i as int).filter(p), now as int),
            decreases self.records@.len() - i,
        {
            let card = card_of(&self.records[i], now);
            proof {
                assert(all[i as int] == self.records@[i as int].asked());
                seqs::lemma_filter_take(all, d, i as int);
                seqs::lemma_filter_take(all, p, i as int);
            }
            if card.status == Status::Pending {
                pending.push(card);
            } else {
                decided.push(card);
            }
            i += 1;
        }
        assert(all.take(i as int) =~= all);
        let skip: usize = if decided.len() > RECORD_TAIL {
            decided.len() - RECORD_TAIL
        } else {
            0
        };
        let mut out = decided.split_off(skip);
        out.append(&mut pending);
        out
    }

    /// Only what is waiting for an answer.
    pub fn pending(&self, now: u64) -> (r: Vec<Card>)
        ensures
            all_show(r@, self@.records.filter(pending_at(now as int)), now as int),
    {
        let ghost all = self@.records;
        let ghost p = pending_at(now as int);
        let mut out: Vec<Card> = Vec::new();
        let mut i: usize = 0;
        proof {
            seqs::lemma_filter_none(all, p);
        }
        while i < self.records.len()
            invariant
                i <= self.records@.len(),
                all == self@.records,
                p == pending_at(now as int),
                all_show(out@, all.take(i as int).filter(p), now as int),
            decreases self.records@.len() - i,
        {
            let card = card_of(&self.records[i], now);
            proof {
                assert(all[i as int] == self.records@[i as int].asked());
                seqs::lemma_filter_take(all, p, i as int);
            }
            if card.status == Status::Pending {
                out.push(card);
            }
            i += 1;
        }
        assert(all.take(i as int) =~= all);
        out
    }
}

// ── Laws ────────────────────────────────────────────────────────────

/// A request is found under its own name.
pub proof fn lemma_found(s: Shelf, i: int)
    requires
        well_kept(s),
        0 <= i < s.records.len(),
    ensures
        seqs::first(s.records, called(s.records[i].id)) == i,
{
    seqs::lemma_first_is(s.records, called(s.records[i].id), i);
}

/// A grant authorises one call and no second one, whatever the second one asks for and whenever.
pub proof fn law_a_grant_authorises_once(
    s: Shelf,
    id: Seq<char>,
    app: Seq<char>,
    action: Seq<char>,
    args: Tree,
    now: int,
    app2: Seq<char>,
    action2: Seq<char>,
    args2: Tree,
    later: int,
)
    requires
        well_kept(s),
        answer_to_consume(s, id, app, action, args, now) is Ok,
    ensures
        status_of(after_consume(s, id, app, action, args, now), id, later) == Some(
            Status::Consumed,
        ),
        answer_to_consume(
            after_consume(s, id, app, action, args, now),
            id,
            app2,
            action2,
            args2,
            later,
        ) is Err,
{
    let i = seqs::first(s.records, called(id));
    seqs::lemma_first(s.records, called(id));
    let t = after_consume(s, id, app, action, args, now);
    lemma_update_keeps(s, i, t.records[i]);
    lemma_found(t, i);
}

/// A refused consume burns nothing: the store is left as it was.
pub proof fn law_a_refused_consume_changes_nothing(
    s: Shelf,
    id: Seq<char>,
    app: Seq<char>,
    action: Seq<char>,
    args: Tree,
    now: int,
)
    requires
        answer_to_consume(s, id, app, action, args, now) is Err,
    ensures
        after_consume(s, id, app, action, args, now) == s,
{
}

/// A consume succeeds exactly on a grant that still stands, for the app, the action and the
/// arguments that were asked about.
pub proof fn law_a_grant_covers_what_was_shown(
    s: Shelf,
    id: Seq<char>,
    app: Seq<char>,
    action: Seq<char>,
    args: Tree,
    now: int,
)
    ensures
        answer_to_consume(s, id, app, action, args, now) is Ok <==> {
            let i = seqs::first(s.records, called(id));
            &&& status_of(s, id, now) == Some(Status::Granted)
            &&& same_question(s.records[i], app, action, args)
        },
{
}

/// What is shown and what is bound cannot drift: arguments that a grant takes for the same are
/// shown in the same lines, whatever order they were written in.
pub proof fn law_what_is_shown_is_what_is_bound(a: Tree, b: Tree)
    requires
        json::tidy(a) == json::tidy(b),
    ensures
        lines_for(a) == lines_for(b),
        rows_of(a) == rows_of(b),
{
}

/// Asking grants nothing: no request that stands granted after one was not granted before.
pub proof fn law_asking_grants_nothing(s: Shelf, q: Question, now: int, at: Seq<char>, i: int)
    requires
        0 <= i < after_request(s, q, now, at).records.len(),
        after_request(s, q, now, at).records[i].state == Status::Granted,
    ensures
        s.records.contains(after_request(s, q, now, at).records[i]),
{
    seqs::lemma_filter_from(s.records, kept_at(now));
    let kept = s.records.filter(kept_at(now));
    assert(i < kept.len());
    assert(after_request(s, q, now, at).records[i] == kept[i]);
}

/// Burning a grant makes none: what stands granted afterwards stood granted before.
pub proof fn law_consuming_grants_nothing(
    s: Shelf,
    id: Seq<char>,
    app: Seq<char>,
    action: Seq<char>,
    args: Tree,
    now: int,
    i: int,
)
    requires
        0 <= i < after_consume(s, id, app, action, args, now).records.len(),
        after_consume(s, id, app, action, args, now).records[i].state == Status::Granted,
    ensures
        i < s.records.len(),
        after_consume(s, id, app, action, args, now).records[i] == s.records[i],
{
    seqs::lemma_first(s.records, called(id));
}

/// A decided card is decided: no second decision moves it, and none revives an expired one.
pub proof fn law_a_decision_is_final(s: Shelf, id: Seq<char>, decision: Status, now: int, at: Seq<char>)
    requires
        status_of(s, id, now) != Some(Status::Pending),
    ensures
        answer_to_decision(s, id, now) is Err,
        after_decision(s, id, decision, now, at) == s,
{
}

/// What a person decided is where the card stands from that moment.
pub proof fn law_a_decision_stands(s: Shelf, id: Seq<char>, decision: Status, now: int, at: Seq<char>)
    requires
        well_kept(s),
        status_of(s, id, now) == Some(Status::Pending),
        decision == Status::Granted || decision == Status::Denied,
    ensures
        status_of(after_decision(s, id, decision, now, at), id, now) == Some(decision),
{
    let i = seqs::first(s.records, called(id));
    seqs::lemma_first(s.records, called(id));
    let t = after_decision(s, id, decision, now, at);
    lemma_update_keeps(s, i, t.records[i]);
    lemma_found(t, i);
}

/// What has expired stays so: a request that waits at one time waited at every earlier one.
pub proof fn law_waiting_only_runs_out(r: Asked, earlier: int, now: int)
    requires
        earlier <= now,
        standing(r, now) == Status::Pending,
    ensures
        standing(r, earlier) == Status::Pending,
{
}

proof fn lemma_fewer_wait(s: Seq<Asked>, f: spec_fn(Asked) -> bool, earlier: int, now: int)
    requires
        earlier <= now,
    ensures
        s.filter(f).filter(pending_at(now)).len() <= s.filter(pending_at(earlier)).len(),
    decreases s.len(),
{
    reveal(Seq::filter);
    if s.len() > 0 {
        lemma_fewer_wait(s.drop_last(), f, earlier, now);
        if f(s.last()) {
            assert(s.filter(f).drop_last() =~= s.drop_last().filter(f));
            if standing(s.last(), now) == Status::Pending {
                law_waiting_only_runs_out(s.last(), earlier, now);
            }
        }
    }
}

/// No more cards wait at once than fit: asking never takes a store past the bound.
pub proof fn law_no_more_than_fit_wait_at_once(
    s: Shelf,
    q: Question,
    earlier: int,
    now: int,
    at: Seq<char>,
)
    requires
        earlier <= now,
        s.records.filter(pending_at(earlier)).len() <= MAX_PENDING,
    ensures
        after_request(s, q, now, at).records.filter(pending_at(now)).len() <= MAX_PENDING,
{
    let kept = s.records.filter(kept_at(now));
    lemma_fewer_wait(s.records, kept_at(now), earlier, now);
    let t = after_request(s, q, now, at).records;
    if t != kept {
        reveal(Seq::filter);
        assert(t.drop_last() =~= kept);
    }
}

/// Asking the same question again while its card waits puts up no second card: the answer is the
/// card that is there, and the store does not change.
pub proof fn law_the_same_question_is_one_card(
    s: Shelf,
    q: Question,
    again: Question,
    now: int,
    at: Seq<char>,
    at2: Seq<char>,
)
    requires
        well_kept(s),
        answer_to(s, q, now) is Ok,
        again.app == q.app,
        again.action == q.action,
        json::tidy(again.args) == json::tidy(q.args),
    ensures
        ({
            let t = after_request(s, q, now, at);
            &&& answer_to(t, again, now) == answer_to(s, q, now)
            &&& after_request(t, again, now, at2).records == t.records
            &&& after_request(t, again, now, at2).next == t.next
        }),
{
    let kept = s.records.filter(kept_at(now));
    let t = after_request(s, q, now, at);
    let f = asked_already(q, now);
    let g = asked_already(again, now);
    lemma_prune_twice(s.records, now);
    assert forall|r: Asked| #[trigger] f(r) == g(r) by {}
    seqs::lemma_first(kept, f);
    seqs::lemma_first(kept, g);
    if t.records == kept {
        assert(t.records.filter(kept_at(now)) == kept);
        assert(seqs::first(kept, f) < kept.len());
        seqs::lemma_first_is(kept, g, seqs::first(kept, f));
    } else {
        let card = new_card(numbered(s.next), q, now, at);
        assert(t.records == kept.push(card));
        reveal(Seq::filter);
        assert(t.records.drop_last() =~= kept);
        assert(kept_at(now)(card));
        assert(t.records.filter(kept_at(now)) == t.records);
        assert(g(t.records[kept.len() as int]));
        seqs::lemma_first_is(t.records, g, kept.len() as int);
    }
}

proof fn lemma_prune_twice(s: Seq<Asked>, now: int)
    ensures
        s.filter(kept_at(now)).filter(kept_at(now)) == s.filter(kept_at(now)),
    decreases s.len(),
{
    reveal(Seq::filter);
    if s.len() > 0 {
        lemma_prune_twice(s.drop_last(), now);
        if kept_at(now)(s.last()) {
            assert(s.filter(kept_at(now)).drop_last() =~= s.drop_last().filter(kept_at(now)));
        }
    }
}

/// What passes a narrower test passes it whether or not a wider one was made first.
proof fn lemma_filter_narrower(
    s: Seq<Asked>,
    wide: spec_fn(Asked) -> bool,
    narrow: spec_fn(Asked) -> bool,
)
    requires
        forall|r: Asked| #[trigger] narrow(r) ==> wide(r),
    ensures
        s.filter(wide).filter(narrow) == s.filter(narrow),
    decreases s.len(),
{
    reveal(Seq::filter);
    if s.len() > 0 {
        lemma_filter_narrower(s.drop_last(), wide, narrow);
        if wide(s.last()) {
            assert(s.filter(wide).drop_last() =~= s.drop_last().filter(wide));
        }
    }
}

/// How many requests wait at `now`.
pub open spec fn waiting(s: Shelf, now: int) -> nat {
    s.records.filter(pending_at(now)).len()
}

/// Whether any request of a store passes a test.
pub open spec fn any(s: Shelf, f: spec_fn(Asked) -> bool) -> bool {
    exists|i: int| 0 <= i < s.records.len() && #[trigger] f(s.records[i])
}

/// Whether a store holds no request but those of another, and gave out no number.
pub open spec fn no_new_card(s: Shelf, t: Shelf) -> bool {
    &&& t.next == s.next
    &&& forall|i: int| 0 <= i < t.records.len() ==> s.records.contains(#[trigger] t.records[i])
}

/// Pruning hides nothing that a request is answered by.
proof fn lemma_prune_hides_nothing(s: Shelf, f: spec_fn(Asked) -> bool, now: int)
    requires
        forall|r: Asked| #[trigger] f(r) ==> kept_at(now)(r),
    ensures
        ({
            let kept = s.records.filter(kept_at(now));
            let i = seqs::first(kept, f);
            &&& any(s, f) <==> i < kept.len()
            &&& i < kept.len() ==> f(kept[i]) && s.records.contains(kept[i])
        }),
{
    let kept = s.records.filter(kept_at(now));
    seqs::lemma_filter_from(s.records, kept_at(now));
    s.records.filter_lemma(kept_at(now));
    seqs::lemma_first(kept, f);
    let i = seqs::first(kept, f);
    if i < kept.len() {
        assert(s.records.contains(kept[i]));
        let k = choose|k: int| 0 <= k < s.records.len() && s.records[k] == kept[i];
        assert(f(s.records[k]));
    }
    if any(s, f) {
        let k = choose|k: int| 0 <= k < s.records.len() && #[trigger] f(s.records[k]);
        assert(kept.contains(s.records[k]));
        let j = choose|j: int| 0 <= j < kept.len() && kept[j] == s.records[k];
        assert(f(kept[j]));
    }
}

/// A request is answered by the first of these that holds: its card is up already, and the answer
/// is that card; the person denied the same question a moment ago, and it is refused; as many cards
/// wait as fit, and it is refused; and otherwise it has a card of its own, under a name that no
/// request had before, which waits. Only then is there a new card, and one more that waits.
pub proof fn law_a_request_is_answered_in_order(s: Shelf, q: Question, now: int, at: Seq<char>)
    requires
        well_kept(s),
    ensures
        ({
            let answer = answer_to(s, q, now);
            let t = after_request(s, q, now, at);
            if any(s, asked_already(q, now)) {
                &&& answer matches Ok(id) && any(
                    s,
                    |r: Asked| asked_already(q, now)(r) && r.id == id,
                )
                &&& no_new_card(s, t)
                &&& waiting(t, now) == waiting(s, now)
            } else if any(s, denied_lately(q, now)) || waiting(s, now) >= MAX_PENDING {
                &&& answer is Err
                &&& no_new_card(s, t)
                &&& waiting(t, now) == waiting(s, now)
            } else {
                &&& answer == Ok::<Seq<char>, Seq<char>>(numbered(s.next))
                &&& forall|k: int| 1 <= k < s.next ==> #[trigger] numbered(k) != numbered(s.next)
                &&& t.next == s.next + 1
                &&& status_of(t, numbered(s.next), now) == Some(Status::Pending)
                &&& waiting(t, now) == waiting(s, now) + 1
            }
        }),
{
    let kept = s.records.filter(kept_at(now));
    let t = after_request(s, q, now, at);
    seqs::lemma_filter_from(s.records, kept_at(now));
    lemma_prune_hides_nothing(s, asked_already(q, now), now);
    lemma_prune_hides_nothing(s, denied_lately(q, now), now);
    lemma_filter_narrower(s.records, kept_at(now), pending_at(now));
    lemma_prune_keeps(s, now);
    let twin = seqs::first(kept, asked_already(q, now));
    if twin < kept.len() {
        let g = |r: Asked| asked_already(q, now)(r) && r.id == kept[twin].id;
        let k = choose|k: int| 0 <= k < s.records.len() && s.records[k] == kept[twin];
        assert(g(s.records[k]));
    }
    assert forall|k: int| 1 <= k < s.next implies #[trigger] numbered(k) != numbered(s.next) by {
        if numbered(k) == numbered(s.next) {
            lemma_numbered(k, s.next);
        }
    }
    if t.next == s.next + 1 {
        let card = new_card(numbered(s.next), q, now, at);
        assert(t.records == kept.push(card));
        reveal(Seq::filter);
        assert(t.records.drop_last() =~= kept);
        lemma_push_keeps(Shelf { records: kept, next: s.next }, card);
        lemma_found(t, kept.len() as int);
    }
}

/// One thing that is done to a store.
pub enum Step {
    Ask { q: Question, now: int, at: Seq<char> },
    Decide { id: Seq<char>, granted: bool, now: int, at: Seq<char> },
    Burn { id: Seq<char>, app: Seq<char>, action: Seq<char>, args: Tree, now: int },
}

/// When it was done.
pub open spec fn time_of(step: Step) -> int {
    match step {
        Step::Ask { q, now, at } => now,
        Step::Decide { id, granted, now, at } => now,
        Step::Burn { id, app, action, args, now } => now,
    }
}

/// The store afterwards.
pub open spec fn after_step(s: Shelf, step: Step) -> Shelf {
    match step {
        Step::Ask { q, now, at } => after_request(s, q, now, at),
        Step::Decide { id, granted, now, at } => after_decision(
            s,
            id,
            if granted {
                Status::Granted
            } else {
                Status::Denied
            },
            now,
            at,
        ),
        Step::Burn { id, app, action, args, now } => after_consume(s, id, app, action, args, now),
    }
}

/// A fresh store after all of these, one after the other.
pub open spec fn after_steps(steps: Seq<Step>) -> Shelf
    decreases steps.len(),
{
    if steps.len() == 0 {
        Shelf { records: Seq::empty(), next: 1 }
    } else {
        after_step(after_steps(steps.drop_last()), steps.last())
    }
}

/// Whether these were done in the order of their times, the last of them no later than `now`.
pub open spec fn in_time(steps: Seq<Step>, now: int) -> bool
    decreases steps.len(),
{
    steps.len() > 0 ==> time_of(steps.last()) <= now && in_time(
        steps.drop_last(),
        time_of(steps.last()),
    )
}

proof fn lemma_update_waits_no_more(s: Seq<Asked>, i: int, card: Asked, f: spec_fn(Asked) -> bool)
    requires
        0 <= i < s.len(),
        !f(card),
    ensures
        s.update(i, card).filter(f).len() <= s.filter(f).len(),
    decreases s.len(),
{
    reveal(Seq::filter);
    let u = s.update(i, card);
    if i == s.len() - 1 {
        assert(u.drop_last() =~= s.drop_last());
    } else {
        assert(u.drop_last() =~= s.drop_last().update(i, card));
        lemma_update_waits_no_more(s.drop_last(), i, card, f);
    }
}

proof fn lemma_step_keeps(s: Shelf, step: Step)
    requires
        well_kept(s),
    ensures
        well_kept(after_step(s, step)),
{
    match step {
        Step::Ask { q, now, at } => {
            let kept = Shelf { records: s.records.filter(kept_at(now)), next: s.next };
            lemma_prune_keeps(s, now);
            let t = after_request(s, q, now, at);
            if t.next == s.next + 1 {
                lemma_push_keeps(kept, new_card(numbered(s.next), q, now, at));
            }
        },
        Step::Decide { id, granted, now, at } => {
            let i = seqs::first(s.records, called(id));
            seqs::lemma_first(s.records, called(id));
            if answer_to_decision(s, id, now) is Ok {
                lemma_update_keeps(s, i, after_step(s, step).records[i]);
            }
        },
        Step::Burn { id, app, action, args, now } => {
            let i = seqs::first(s.records, called(id));
            seqs::lemma_first(s.records, called(id));
            if answer_to_consume(s, id, app, action, args, now) is Ok {
                lemma_update_keeps(s, i, after_step(s, step).records[i]);
            }
        },
    }
}

/// Whatever is asked, decided and burned, in whatever order, every store is as it should be, and no
/// more cards wait at once than fit, then or at any later time.
pub proof fn law_no_history_puts_up_too_many(steps: Seq<Step>, now: int)
    requires
        in_time(steps, now),
    ensures
        well_kept(after_steps(steps)),
        waiting(after_steps(steps), now) <= MAX_PENDING,
    decreases steps.len(),
{
    if steps.len() == 0 {
        seqs::lemma_filter_none(Seq::<Asked>::empty(), pending_at(now));
        assert(Seq::<Asked>::empty().take(0) =~= Seq::<Asked>::empty());
    } else {
        let step = steps.last();
        let s = after_steps(steps.drop_last());
        let then = time_of(step);
        let t = after_step(s, step);
        law_no_history_puts_up_too_many(steps.drop_last(), then);
        lemma_step_keeps(s, step);
        match step {
            Step::Ask { q, now: at_time, at } => {
                law_no_more_than_fit_wait_at_once(s, q, then, then, at);
            },
            Step::Decide { id, granted, now: at_time, at } => {
                let i = seqs::first(s.records, called(id));
                seqs::lemma_first(s.records, called(id));
                if answer_to_decision(s, id, then) is Ok {
                    lemma_update_waits_no_more(s.records, i, t.records[i], pending_at(then));
                }
            },
            Step::Burn { id, app, action, args, now: at_time } => {
                let i = seqs::first(s.records, called(id));
                seqs::lemma_first(s.records, called(id));
                if answer_to_consume(s, id, app, action, args, then) is Ok {
                    lemma_update_waits_no_more(s.records, i, t.records[i], pending_at(then));
                }
            },
        }
        let everything = |r: Asked| true;
        lemma_fewer_wait(t.records, everything, then, now);
        lemma_filter_narrower(t.records, everything, pending_at(now));
    }
}

// ── What a person is shown, over all arguments ──────────────────────

/// Every argument is shown, and the whole of it: one row each, in the order of the keys, the key
/// first, and behind it the string itself, or the JSON text of whatever else the value is.
pub proof fn law_every_argument_is_shown_whole(t: Tree, v: Seq<Entry>, i: int)
    requires
        json::tidy(t) == Tree::Object(v),
        0 <= i < v.len(),
    ensures
        rows_of(t).len() == v.len(),
        ({
            let row = rows_of(t)[i];
            let key = v[i].0;
            &&& row.len() >= key.len() + 2
            &&& row.take(key.len() as int) == key
            &&& row[key.len() as int] == ':'
            &&& row[key.len() + 1int] == ' '
            &&& v[i].1 matches Tree::Str(s) ==> row.skip(key.len() + 2int) == s
            &&& !(v[i].1 is Str) ==> row.skip(key.len() + 2int) == json::compact(v[i].1)
            &&& text::contains(lines_for(t), row)
        }),
{
    reveal_strlit(": ");
    let row = rows_of(t)[i];
    let key = v[i].0;
    assert(row.take(key.len() as int) =~= key);
    assert(row.skip(key.len() + 2int) =~= shown(v[i].1));
    text::lemma_join_holds(arg_rows(v), "\n"@, i);
}

/// A value and a string that spells it: the one difference that a row does not show.
pub open spec fn spells(a: Tree, b: Tree) -> bool {
    ||| a matches Tree::Str(s) && s == json::compact(b)
    ||| b matches Tree::Str(s) && s == json::compact(a)
}

/// What differs is shown apart: arguments that a grant does not take for the same are shown in
/// different rows, unless all that differs is a string against the value it spells. (Keys with a
/// colon in them are told apart only from themselves.)
pub proof fn law_what_differs_is_shown_apart(a: Tree, b: Tree, v: Seq<Entry>, w: Seq<Entry>)
    requires
        json::tidy(a) == Tree::Object(v),
        json::tidy(b) == Tree::Object(w),
        v != w,
        told_apart(v),
        forall|i: int|
            0 <= i < v.len() && i < w.len() ==> {
                &&& (#[trigger] v[i]).0 == w[i].0 || !v[i].0.contains(':') && !w[i].0.contains(':')
                &&& !spells(v[i].1, w[i].1)
            },
    ensures
        rows_of(a) != rows_of(b),
{
    if rows_of(a) == rows_of(b) {
        json::lemma_tidy_values(b->Object_0);
        assert(v.len() == rows_of(a).len());
        assert(w.len() == rows_of(b).len());
        assert forall|i: int| 0 <= i < v.len() implies v[i] == w[i] by {
            law_every_argument_is_shown_whole(a, v, i);
            law_every_argument_is_shown_whole(b, w, i);
            let row = rows_of(a)[i];
            assert(row == rows_of(b)[i]);
            let (k, l) = (v[i].0, w[i].0);
            if k != l {
                if k.len() < l.len() {
                    assert(row[k.len() as int] == l[k.len() as int]);
                    assert(l.contains(':'));
                } else if l.len() < k.len() {
                    assert(row[l.len() as int] == k[l.len() as int]);
                    assert(k.contains(':'));
                }
                assert(k =~= l);
            }
            if !(v[i].1 is Str) && !(w[i].1 is Str) {
                assert(json::tidy(w[i].1) == w[i].1);
                assert(json::compact(json::tidy(w[i].1)) == json::compact(v[i].1));
            }
        }
        assert(v =~= w);
    }
}

/// The lines of a card are its rows, one below the other: where no row has a line end in it, cards
/// that read alike have the same rows.
pub proof fn law_a_card_reads_as_its_rows(a: Tree, b: Tree)
    requires
        rows_of(a).len() > 0,
        rows_of(b).len() > 0,
        forall|i: int| 0 <= i < rows_of(a).len() ==> !(#[trigger] rows_of(a)[i]).contains('\n'),
        forall|i: int| 0 <= i < rows_of(b).len() ==> !(#[trigger] rows_of(b)[i]).contains('\n'),
        lines_for(a) == lines_for(b),
    ensures
        rows_of(a) == rows_of(b),
{
    text::lemma_join_lines(rows_of(a), rows_of(b));
}

/// Nothing is hidden either where there are no named arguments: nothing at all is said to be
/// nothing, and any other value is shown as its JSON text.
pub proof fn law_odd_arguments_are_shown_too(t: Tree)
    ensures
        t is Null ==> lines_for(t) == "(no arguments)"@,
        t == Tree::Object(Seq::empty()) ==> lines_for(t) == "(no arguments)"@,
        !(t is Null) && !(t is Object) ==> lines_for(t) == json::compact(json::tidy(t)),
{
}

/// A request waits for two minutes and a grant stands for one, to the nanosecond, and what was
/// denied or used up stays so for good.
pub proof fn law_how_long_things_last(r: Asked, now: int)
    ensures
        r.state == Status::Pending ==> standing(r, now) == if now - r.created < 120_000_000_000 {
            Status::Pending
        } else {
            Status::Expired
        },
        r.state == Status::Granted && r.decided is Some ==> standing(r, now) == if now
            - r.decided->0 < 60_000_000_000 {
            Status::Granted
        } else {
            Status::Expired
        },
        r.state == Status::Denied || r.state == Status::Consumed ==> standing(r, now) == r.state,
{
}

/// A new card says what was asked, of whom and by whom, and waits from that moment.
pub proof fn law_a_new_card_is_the_question(s: Shelf, q: Question, now: int, at: Seq<char>)
    requires
        answer_to(s, q, now) == Ok::<Seq<char>, Seq<char>>(numbered(s.next)),
        after_request(s, q, now, at).next != s.next,
    ensures
        ({
            let t = after_request(s, q, now, at);
            let card = t.records.last();
            &&& t.records.len() > 0
            &&& card.id == numbered(s.next)
            &&& card.requester == text::trim(q.requester)
            &&& card.app == q.app
            &&& card.action == q.action
            &&& card.args == q.args
            &&& card.grade == q.grade
            &&& card.purpose == text::trim(q.purpose)
            &&& card.created == now
            &&& card.created_at == at
            &&& card.decided is None
            &&& standing(card, now) == Status::Pending
        }),
{
}

/// A call that a person allowed may run: for a minute from the decision, on the app, the action and
/// the arguments of the card, in whatever order these are written. A moment later, or on anything
/// else, it may not.
pub proof fn law_an_allowed_call_may_run(
    s: Shelf,
    i: int,
    now: int,
    at: Seq<char>,
    app: Seq<char>,
    action: Seq<char>,
    args: Tree,
    later: int,
)
    requires
        well_kept(s),
        0 <= i < s.records.len(),
        s.records[i].state == Status::Pending,
        s.records[i].created <= now < s.records[i].created + 120_000_000_000,
        now <= later,
    ensures
        ({
            let r = s.records[i];
            let t = after_decision(s, r.id, Status::Granted, now, at);
            answer_to_consume(t, r.id, app, action, args, later) is Ok <==> {
                &&& later < now + 60_000_000_000
                &&& app == r.app
                &&& action == r.action
                &&& json::tidy(args) == json::tidy(r.args)
            }
        }),
{
    let r = s.records[i];
    lemma_found(s, i);
    let t = after_decision(s, r.id, Status::Granted, now, at);
    lemma_update_keeps(s, i, t.records[i]);
    lemma_found(t, i);
}

/// A no is kept for two minutes: whoever asks for the same action with the same arguments meanwhile
/// is refused, and no card goes up.
pub proof fn law_a_no_is_kept(
    s: Shelf,
    i: int,
    now: int,
    at: Seq<char>,
    q: Question,
    later: int,
    at2: Seq<char>,
)
    requires
        well_kept(s),
        0 <= i < s.records.len(),
        s.records[i].state == Status::Pending,
        s.records[i].created <= now < s.records[i].created + 120_000_000_000,
        q.app == s.records[i].app,
        q.action == s.records[i].action,
        json::tidy(q.args) == json::tidy(s.records[i].args),
        now <= later < now + 120_000_000_000,
        forall|j: int|
            0 <= j < s.records.len() && j != i && same_question(
                #[trigger] s.records[j],
                q.app,
                q.action,
                q.args,
            ) ==> standing(s.records[j], later) != Status::Pending,
    ensures
        ({
            let t = after_decision(s, s.records[i].id, Status::Denied, now, at);
            &&& answer_to(t, q, later) is Err
            &&& no_new_card(t, after_request(t, q, later, at2))
        }),
{
    lemma_found(s, i);
    let t = after_decision(s, s.records[i].id, Status::Denied, now, at);
    lemma_update_keeps(s, i, t.records[i]);
    law_a_request_is_answered_in_order(t, q, later, at2);
    assert(denied_lately(q, later)(t.records[i]));
    if any(t, asked_already(q, later)) {
        let j = choose|j: int|
            0 <= j < t.records.len() && #[trigger] asked_already(q, later)(t.records[j]);
        assert(j != i);
        assert(t.records[j] == s.records[j]);
        assert(same_question(s.records[j], q.app, q.action, q.args));
    }
}

/// A no is not permanent and silences nothing else: where no card with the same question waits, no
/// answer within the last two minutes was a no to it, and fewer than three cards wait, a card goes
/// up.
pub proof fn law_a_no_is_not_permanent(s: Shelf, q: Question, now: int, at: Seq<char>)
    requires
        well_kept(s),
        forall|j: int|
            0 <= j < s.records.len() && (#[trigger] s.records[j]).app == q.app && s.records[j].action
                == q.action && json::tidy(s.records[j].args) == json::tidy(q.args) ==> {
                &&& standing(s.records[j], now) != Status::Pending
                &&& s.records[j].state == Status::Denied ==> s.records[j].decided->0
                    + 120_000_000_000 <= now
            },
        waiting(s, now) < 3,
    ensures
        answer_to(s, q, now) == Ok::<Seq<char>, Seq<char>>(numbered(s.next)),
        after_request(s, q, now, at).next == s.next + 1,
{
    law_a_request_is_answered_in_order(s, q, now, at);
}

/// What is kept: a card that waits or a grant that stands is never dropped, and what is settled is
/// kept for ten minutes and then dropped.
pub proof fn law_what_is_kept(s: Shelf, q: Question, now: int, at: Seq<char>, i: int)
    requires
        well_kept(s),
        0 <= i < s.records.len(),
    ensures
        ({
            let r = s.records[i];
            let since = if r.decided is Some {
                r.decided->0
            } else {
                r.created
            };
            after_request(s, q, now, at).records.contains(r) <==> {
                ||| standing(r, now) == Status::Pending
                ||| standing(r, now) == Status::Granted
                ||| now - since < 600_000_000_000
            }
        }),
{
    let r = s.records[i];
    let f = kept_at(now);
    let kept = s.records.filter(f);
    let t = after_request(s, q, now, at).records;
    seqs::lemma_filter_from(s.records, f);
    assert(s.records.contains(r));
    if f(r) {
        assert(kept.contains(r));
        let k = choose|k: int| 0 <= k < kept.len() && kept[k] == r;
        assert(t[k] == r);
    }
    if t.contains(r) {
        let k = choose|k: int| 0 <= k < t.len() && t[k] == r;
        if k < kept.len() {
            assert(f(kept[k]));
        }
    }
}

/// Everything that waits is on show, in the order it came, behind what was decided, and of what was
/// decided the last eight.
pub proof fn law_everything_that_waits_is_on_show(s: Shelf, now: int)
    ensures
        ({
            let shown = on_show(s, now);
            let waits = s.records.filter(pending_at(now));
            let n = shown.len() - waits.len();
            &&& 0 <= n <= 8
            &&& shown.skip(n) == waits
            &&& forall|i: int|
                0 <= i < n ==> standing(#[trigger] shown[i], now) != Status::Pending
                    && s.records.contains(shown[i])
            &&& n < 8 ==> n == s.records.filter(decided_at(now)).len()
            &&& n > 0 ==> shown[n - 1] == s.records.filter(decided_at(now)).last()
        }),
{
    let past = s.records.filter(decided_at(now));
    let waits = s.records.filter(pending_at(now));
    seqs::lemma_filter_from(s.records, decided_at(now));
    let n = on_show(s, now).len() - waits.len();
    assert(on_show(s, now).skip(n) =~= waits);
    assert forall|i: int| 0 <= i < n implies standing(#[trigger] on_show(s, now)[i], now)
        != Status::Pending && s.records.contains(on_show(s, now)[i]) by {
        let k = i + past.len() - n;
        assert(on_show(s, now)[i] == past[k]);
        assert(decided_at(now)(past[k]));
    }
}

/// The phrases by which an app says that something cannot be taken back.
pub open spec fn final_phrases() -> Seq<Seq<char>> {
    seq![
        "not recoverable"@,
        "cannot be undone"@,
        "can't be undone"@,
        "irreversible"@,
        "permanently"@,
        "permanent"@,
        "no undo"@,
    ]
}

/// What cannot be taken back is warned about and never allowed for a session: wherever in the
/// app's sentence one of the phrases stands, in capitals or not; and what is graded dangerous is,
/// whatever its sentence. Without either there is no warning.
pub proof fn law_the_last_word_is_warned_about(
    grade: Seq<char>,
    purpose: Seq<char>,
    before: Seq<char>,
    phrase: Seq<char>,
    behind: Seq<char>,
)
    requires
        text::lower(purpose) == before + phrase + behind,
    ensures
        final_phrases().contains(phrase) ==> warning(grade, purpose).len() > 0 && !rule_offered(
            grade,
            purpose,
        ),
        grade == "dangerous"@ ==> warning(grade, purpose).len() > 0 && !rule_offered(grade, purpose),
        grade != "dangerous"@ && (forall|i: int|
            0 <= i < final_phrases().len() ==> !text::contains(
                text::lower(purpose),
                #[trigger] final_phrases()[i],
            )) ==> warning(grade, purpose).len() == 0 && rule_offered(grade, purpose),
{
    law_a_warning_rules_out_a_standing_yes(grade, purpose);
    let p = text::lower(purpose);
    let all = final_phrases();
    assert(p.subrange(before.len() as int, (before.len() + phrase.len()) as int) =~= phrase);
    assert(text::at(p, before.len() as int, phrase));
    assert(text::contains(p, phrase));
    if all.contains(phrase) {
        let i = choose|i: int| 0 <= i < all.len() && all[i] == phrase;
        assert(says_final(purpose));
    }
    if says_final(purpose) && (forall|i: int|
        0 <= i < all.len() ==> !text::contains(p, #[trigger] all[i])) {
        assert(all[0] == "not recoverable"@ && all[1] == "cannot be undone"@ && all[2]
            == "can't be undone"@ && all[3] == "irreversible"@ && all[4] == "permanently"@ && all[5]
            == "permanent"@ && all[6] == "no undo"@);
    }
}

/// The line that a decision leaves names the action and when it was decided, and says how: a no is
/// never told as a yes, nor a yes as a no.
pub proof fn law_a_decision_leaves_its_line(r: Asked, now: int)
    ensures
        ({
            let line = line_of(r, now);
            let what = r.app + "."@ + r.action;
            &&& standing(r, now) == Status::Pending ==> line.len() == 0
            &&& r.state == Status::Denied ==> line == "Denied: "@ + what + " — "@ + r.decided_at
            &&& r.state == Status::Granted || r.state == Status::Consumed ==> ("Allowed once: "@
                + what + " — "@ + r.decided_at).is_prefix_of(line)
            &&& r.state == Status::Pending && standing(r, now) != Status::Pending ==> line
                == "Not answered: "@ + what + " — asked "@ + r.created_at
        }),
{
    let head = "Allowed once: "@ + (r.app + "."@ + r.action) + " — "@ + r.decided_at;
    let unused = head + " (grant expired unused)"@;
    assert(head.is_prefix_of(unused)) by {
        assert(unused.take(head.len() as int) =~= head);
    }
}

/// The rows that are shown tell arguments apart: two calls whose arguments differ, other than by a
/// string against the value it spells, are shown in different rows.
pub proof fn law_rows_tell_arguments_apart(
    a: Json,
    b: Json,
    v: Seq<Entry>,
    w: Seq<Entry>,
    shown_of_a: Vec<String>,
    shown_of_b: Vec<String>,
)
    requires
        call_ensures(args_rows, (&a,), shown_of_a),
        call_ensures(args_rows, (&b,), shown_of_b),
        json::tidy(a@) == Tree::Object(v),
        json::tidy(b@) == Tree::Object(w),
        v != w,
        forall|i: int|
            0 <= i < v.len() && i < w.len() ==> {
                &&& (#[trigger] v[i]).0 == w[i].0 || !v[i].0.contains(':') && !w[i].0.contains(':')
                &&& !spells(v[i].1, w[i].1)
            },
    ensures
        text::strs(shown_of_a@) != text::strs(shown_of_b@),
{
    law_what_differs_is_shown_apart(a@, b@, v, w);
}

/// A warning names every reason there is for it: the grade, that it cannot be undone, or both.
pub proof fn law_a_warning_names_its_reasons(
    grade: Seq<char>,
    purpose: Seq<char>,
    before: Seq<char>,
    phrase: Seq<char>,
    behind: Seq<char>,
)
    requires
        text::lower(purpose) == before + phrase + behind,
    ensures
        final_phrases().contains(phrase) && grade == "dangerous"@ ==> warning(grade, purpose)
            == "This is graded dangerous and the app says it cannot be undone."@,
        final_phrases().contains(phrase) && grade != "dangerous"@ ==> warning(grade, purpose)
            == "The app says this cannot be undone."@,
        grade == "dangerous"@ && (forall|i: int|
            0 <= i < final_phrases().len() ==> !text::contains(
                text::lower(purpose),
                #[trigger] final_phrases()[i],
            )) ==> warning(grade, purpose)
            == "This is graded dangerous — it can destroy work or state."@,
{
    law_the_last_word_is_warned_about("safe"@, purpose, before, phrase, behind);
    law_a_warning_rules_out_a_standing_yes("safe"@, purpose);
    reveal_strlit("safe");
    reveal_strlit("dangerous");
    assert("safe"@.len() != "dangerous"@.len());
}

} // verus!
