//! The agents: what their turns stream back, who may start and direct whom, what they may reach.
//!
//! An agent is one conversation with one mind, named `<harness>:<conversation>`.
pub mod feed;
pub mod launch;
pub mod reaches;

use crate::clock;
use crate::clock::elapsed;
use crate::json;
use crate::json::{number, put_last, signed_number, string, strings, Json, Tree};
use crate::paths;
use crate::paths::{copied, is_absolute, join_path};
use crate::seqs;
use crate::text;
use crate::text::{chars_of, next_at, part, rest, same};
use vstd::prelude::*;

verus! {

/// The title every popped-out agent window starts with, so that the window list can tell an
/// agent's window from anything else a task might be named after.
pub const WINDOW_TITLE_PREFIX: &'static str = "Agent · ";

/// How long changed sessions wait, at least, before they are written out again, in nanoseconds.
pub const SAVE_EVERY: u64 = 2_000_000_000;

pub open spec fn sessions_below(share: Seq<u8>) -> Seq<u8> {
    paths::joined(
        paths::joined(share, vstd::utf8::encode_utf8("yantrik"@)),
        vstd::utf8::encode_utf8("agents"@),
    )
}

/// Where sessions are kept: below the data folder where that is set to a place of its own, and
/// below the person's home otherwise, or below the root where there is none.
pub fn dir(data_home: Option<&[u8]>, home: Option<&[u8]>) -> (r: Vec<u8>)
    ensures
        r@ == match data_home {
            Some(d) if paths::absolute(d@) => sessions_below(d@),
            _ => sessions_below(
                paths::joined(
                    paths::joined(
                        match home {
                            Some(h) => h@,
                            None => paths::root(),
                        },
                        vstd::utf8::encode_utf8(".local"@),
                    ),
                    vstd::utf8::encode_utf8("share"@),
                ),
            ),
        },
{
    let mut at: Vec<u8> = Vec::new();
    let mut set = false;
    if let Some(d) = data_home {
        if is_absolute(d) {
            at = copied(d);
            set = true;
        }
    }
    if !set {
        let top: Vec<u8> = match home {
            Some(h) => copied(h),
            None => {
                let mut v: Vec<u8> = Vec::new();
                v.push(paths::SLASH);
                assert(v@ =~= paths::root());
                v
            },
        };
        let local = join_path(top.as_slice(), ".local".as_bytes());
        at = join_path(local.as_slice(), "share".as_bytes());
    }
    let ours = join_path(at.as_slice(), "yantrik".as_bytes());
    join_path(ours.as_slice(), "agents".as_bytes())
}

/// When changed sessions were last written out.
pub struct Saving {
    saved: u64,
}

impl View for Saving {
    type V = int;

    closed spec fn view(&self) -> int {
        self.saved as int
    }
}

impl Saving {
    pub fn new(now: u64) -> (r: Saving)
        ensures
            r@ == now,
    {
        Saving { saved: now }
    }

    /// Whether what changed is to be written out now. Where it is, the wait starts over.
    pub fn due(&mut self, now: u64) -> (r: bool)
        ensures
            r == (clock::since(now as int, old(self)@) >= SAVE_EVERY),
            final(self)@ == if r {
                now as int
            } else {
                old(self)@
            },
    {
        if elapsed(now, self.saved) < SAVE_EVERY {
            return false;
        }
        self.saved = now;
        true
    }
}

/// The conversation that a harness with only one has.
pub const MAIN: &'static str = "main";

/// One conversation with one mind.
#[derive(Clone, Debug, PartialEq, Eq)]
pub struct AgentId(pub String);

/// The name of a conversation of a harness.
pub open spec fn agent_name(harness: Seq<char>, conversation: Seq<char>) -> Seq<char> {
    harness + ":"@ + conversation
}

/// The harness in an agent's name: what stands before the first colon.
pub open spec fn harness_in(id: Seq<char>) -> Seq<char> {
    id.take(text::next_char(id, ':', 0))
}

/// The conversation in an agent's name: what stands behind the first colon.
pub open spec fn conversation_in(id: Seq<char>) -> Seq<char> {
    let i = text::next_char(id, ':', 0);
    if i < id.len() {
        id.skip(i + 1)
    } else {
        Seq::empty()
    }
}

impl View for AgentId {
    type V = Seq<char>;

    open spec fn view(&self) -> Seq<char> {
        self.0@
    }
}

/// The names of agents.
pub open spec fn ids(s: Seq<AgentId>) -> Seq<Seq<char>> {
    Seq::new(s.len(), |i: int| s[i]@)
}

impl AgentId {
    pub fn new(harness: &str, conversation: &str) -> (r: AgentId)
        ensures
            r@ == agent_name(harness@, conversation@),
    {
        let mut name = harness.to_owned();
        name.append(":");
        name.append(conversation);
        AgentId(name)
    }

    pub fn harness(&self) -> (r: String)
        ensures
            r@ == harness_in(self@),
    {
        let v = chars_of(self.0.as_str());
        let i = next_at(v.as_slice(), ':', 0);
        let r = part(v.as_slice(), 0, i);
        assert(r@ =~= self@.take(i as int));
        r
    }

    pub fn conversation(&self) -> (r: String)
        ensures
            r@ == conversation_in(self@),
    {
        let v = chars_of(self.0.as_str());
        let i = next_at(v.as_slice(), ':', 0);
        if i < v.len() {
            rest(v.as_slice(), i + 1)
        } else {
            String::new()
        }
    }

    pub fn copy(&self) -> (r: AgentId)
        ensures
            r@ == self@,
    {
        AgentId(self.0.clone())
    }

    pub fn is(&self, other: &AgentId) -> (r: bool)
        ensures
            r == (self@ == other@),
    {
        same(self.0.as_str(), other.0.as_str())
    }
}

/// A name made of a harness and a conversation gives both back, as long as the harness has no
/// colon in its own name.
pub proof fn law_a_name_gives_its_parts_back(harness: Seq<char>, conversation: Seq<char>)
    requires
        !harness.contains(':'),
    ensures
        harness_in(agent_name(harness, conversation)) == harness,
        conversation_in(agent_name(harness, conversation)) == conversation,
{
    let id = agent_name(harness, conversation);
    reveal_strlit(":");
    text::lemma_next_char(id, ':', 0);
    let i = text::next_char(id, ':', 0);
    assert(id[harness.len() as int] == ':');
    if i < harness.len() {
        assert(harness[i] == ':');
    }
    assert(i == harness.len());
    assert(id.take(i) =~= harness);
    assert(id.skip(i + 1) =~= conversation);
}

/// Whether an agent is among these.
pub fn among(list: &[AgentId], id: &AgentId) -> (r: bool)
    ensures
        r == ids(list@).contains(id@),
{
    let mut i: usize = 0;
    while i < list.len()
        invariant
            i <= list@.len(),
            forall|k: int| 0 <= k < i ==> #[trigger] ids(list@)[k] != id@,
        decreases list@.len() - i,
    {
        if list[i].is(id) {
            assert(ids(list@)[i as int] == id@);
            return true;
        }
        i += 1;
    }
    false
}

// ── Approvals ───────────────────────────────────────────────────────

/// A request an agent is waiting on.
#[derive(Debug)]
pub struct Waiting {
    pub agent: AgentId,
    pub request: String,
}

/// The requests that have come out, with how.
pub open spec fn came_out<T>(waiting: Seq<Waiting>, status: Seq<Option<T>>) -> Seq<(Waiting, T)>
    decreases waiting.len(),
{
    if waiting.len() == 0 || waiting.len() != status.len() {
        Seq::empty()
    } else {
        let earlier = came_out(waiting.drop_last(), status.drop_last());
        match status.last() {
            Some(t) => earlier.push((waiting.last(), t)),
            None => earlier,
        }
    }
}

/// What every agent's waiting approvals come to, given where each request stands: `None` while it
/// is still waiting, or how it came out. Those that came out are to be settled, in order.
pub fn settle_approvals<T>(waiting: Vec<Waiting>, status: Vec<Option<T>>) -> (r: Vec<(Waiting, T)>)
    requires
        waiting@.len() == status@.len(),
    ensures
        r@ == came_out(waiting@, status@),
{
    let mut waiting = waiting;
    let mut status = status;
    if waiting.len() == 0 {
        return Vec::new();
    }
    let ghost w = waiting@;
    let ghost s = status@;
    let mut back: Vec<(Waiting, T)> = Vec::new();
    while waiting.len() > 0
        invariant
            waiting@.len() == status@.len(),
            came_out(w, s) == came_out(waiting@, status@) + back@.reverse(),
        decreases waiting@.len(),
    {
        let ghost w1 = waiting@;
        let ghost s1 = status@;
        let one = waiting.pop();
        let how = status.pop();
        if let Some(one) = one {
            if let Some(Some(how)) = how {
                let ghost was = back@;
                back.push((one, how));
                assert(back@.reverse() =~= seq![(one, how)] + was.reverse());
                assert(came_out(w1, s1) + was.reverse() =~= came_out(waiting@, status@)
                    + back@.reverse());
            }
        }
    }
    let mut out: Vec<(Waiting, T)> = Vec::new();
    let ghost all = back@.reverse();
    assert(came_out(waiting@, status@) + all =~= all);
    while back.len() > 0
        invariant
            out@ + back@.reverse() =~= all,
        decreases back@.len(),
    {
        let ghost was = back@;
        if let Some(one) = back.pop() {
            out.push(one);
            assert(was.reverse() =~= seq![one] + back@.reverse());
        }
    }
    assert(out@ =~= all);
    out
}

// ── What is described ───────────────────────────────────────────────

/// A command the shell ran for an agent.
pub struct CommandRun {
    pub line: String,
    pub exit: Option<i64>,
    pub state: String,
}

/// A command the shell is running for an agent now.
pub struct RunningJob {
    pub agent: AgentId,
    pub job: Json,
}

/// An agent, as far as its description reads it.
pub struct AgentRow {
    pub id: AgentId,
    pub mind: String,
    pub title: String,
    pub state: String,
    pub since: u64,
    pub status: String,
    /// Whether its state is waiting for the person.
    pub waiting_for_you: bool,
    pub pending_approvals: Vec<String>,
    /// When anything last happened to it.
    pub touched: u64,
    pub parent: Option<AgentId>,
    pub children: Vec<AgentId>,
    pub turns: u64,
    pub calls: u64,
    pub failed_calls: u64,
    pub commands: Vec<CommandRun>,
    pub files: Vec<String>,
    pub approvals_asked: u64,
    pub approvals_answered: u64,
    pub conversations: bool,
}

pub open spec fn of_agent(id: Seq<char>) -> spec_fn(RunningJob) -> bool {
    |j: RunningJob| j.agent@ == id
}

pub open spec fn job_trees(s: Seq<RunningJob>) -> Seq<Tree> {
    Seq::new(s.len(), |i: int| s[i].job@)
}

/// Whether a command sits at a prompt that only the person can answer.
pub open spec fn at_prompt(job: Tree) -> bool {
    json::field(job, "waiting_for_input"@) == Some(Tree::Bool(true))
}

/// Whether an agent waits on the person: by its state, by an approval card up for it, or by one of
/// its commands sitting at a prompt.
pub open spec fn needs_you(a: AgentRow, running: Seq<RunningJob>) -> bool {
    ||| a.waiting_for_you
    ||| a.pending_approvals@.len() > 0
    ||| exists|i: int|
        0 <= i < running.len() && (#[trigger] running[i]).agent@ == a.id@ && at_prompt(
            running[i].job@,
        )
}

pub open spec fn command_tree(c: CommandRun) -> Tree {
    Tree::Object(
        seq![
            ("command"@, Tree::Str(c.line@)),
            (
                "exit_code"@,
                match c.exit {
                    Some(n) => Tree::Num(json::signed(n)),
                    None => Tree::Null,
                },
            ),
            ("state"@, Tree::Str(c.state@)),
        ],
    )
}

pub open spec fn id_trees(s: Seq<AgentId>) -> Seq<Tree> {
    Seq::new(s.len(), |i: int| Tree::Str(s[i]@))
}

pub open spec fn command_trees(s: Seq<CommandRun>) -> Seq<Tree> {
    Seq::new(s.len(), |i: int| command_tree(s[i]))
}

pub open spec fn count(n: u64) -> Tree {
    Tree::Num(json::whole(n))
}

pub open spec fn agent_tree(a: AgentRow, running: Seq<RunningJob>, now: u64) -> Tree {
    Tree::Object(
        seq![
            ("id"@, Tree::Str(a.id@)),
            ("mind"@, Tree::Str(a.mind@)),
            ("title"@, Tree::Str(a.title@)),
            ("state"@, Tree::Str(a.state@)),
            ("since"@, count(a.since)),
            ("status"@, Tree::Str(a.status@)),
            ("needs_you"@, Tree::Bool(needs_you(a, running))),
            ("pending_approvals"@, Tree::Array(json::string_trees(text::strs(a.pending_approvals@)))),
            ("running_jobs"@, Tree::Array(job_trees(running.filter(of_agent(a.id@))))),
            ("last_activity"@, count(a.touched)),
            (
                "last_activity_secs_ago"@,
                count(crate::clock::since(now as int, a.touched as int) as u64),
            ),
            (
                "parent"@,
                match a.parent {
                    Some(p) => Tree::Str(p@),
                    None => Tree::Null,
                },
            ),
            ("children"@, Tree::Array(id_trees(a.children@))),
            ("turns"@, count(a.turns)),
            ("calls"@, count(a.calls)),
            ("failed_calls"@, count(a.failed_calls)),
            ("commands"@, Tree::Array(command_trees(a.commands@))),
            ("files"@, Tree::Array(json::string_trees(text::strs(a.files@)))),
            (
                "approvals"@,
                Tree::Object(
                    seq![
                        ("asked"@, count(a.approvals_asked)),
                        ("answered"@, count(a.approvals_answered)),
                    ],
                ),
            ),
            ("one_conversation"@, Tree::Bool(!a.conversations)),
        ],
    )
}

pub open spec fn agent_trees(s: Seq<AgentRow>, running: Seq<RunningJob>, now: u64) -> Seq<Tree> {
    Seq::new(s.len(), |i: int| agent_tree(s[i], running, now))
}

/// How many agents each tab counts.
pub struct Counts {
    pub active: u64,
    pub needs_you: u64,
    pub complete: u64,
    pub all: u64,
}

fn push_value(out: &mut Vec<Json>, value: Json)
    ensures
        json::trees(final(out)@) == json::trees(old(out)@).push(value@),
{
    let ghost was = out@;
    out.push(value);
    assert(out@.drop_last() =~= was);
}

fn ids_value(list: &[AgentId]) -> (r: Json)
    ensures
        r@ == Tree::Array(id_trees(list@)),
{
    let mut out: Vec<Json> = Vec::new();
    let mut i: usize = 0;
    while i < list.len()
        invariant
            i <= list@.len(),
            json::trees(out@) == id_trees(list@).take(i as int),
        decreases list@.len() - i,
    {
        push_value(&mut out, string(list[i].0.as_str()));
        i += 1;
        assert(id_trees(list@).take(i as int) =~= id_trees(list@).take(i - 1).push(
            id_trees(list@)[i - 1],
        ));
    }
    assert(id_trees(list@).take(i as int) =~= id_trees(list@));
    Json::Array(out)
}

fn commands_value(list: &[CommandRun]) -> (r: Json)
    ensures
        r@ == Tree::Array(command_trees(list@)),
{
    let mut out: Vec<Json> = Vec::new();
    let mut i: usize = 0;
    while i < list.len()
        invariant
            i <= list@.len(),
            json::trees(out@) == command_trees(list@).take(i as int),
        decreases list@.len() - i,
    {
        let mut o: Vec<(String, Json)> = Vec::new();
        put_last(&mut o, "command", string(list[i].line.as_str()));
        let exit = match list[i].exit {
            Some(n) => Json::Num(signed_number(n)),
            None => Json::Null,
        };
        put_last(&mut o, "exit_code", exit);
        put_last(&mut o, "state", string(list[i].state.as_str()));
        assert(json::entries(o@) =~= command_tree(list@[i as int])->Object_0);
        push_value(&mut out, Json::Object(o));
        i += 1;
        assert(command_trees(list@).take(i as int) =~= command_trees(list@).take(i - 1).push(
            command_trees(list@)[i - 1],
        ));
    }
    assert(command_trees(list@).take(i as int) =~= command_trees(list@));
    Json::Array(out)
}

fn agent_value(a: &AgentRow, running: &[RunningJob], now: u64) -> (r: Json)
    ensures
        r@ == agent_tree(*a, running@, now),
{
    let mut jobs: Vec<Json> = Vec::new();
    let mut prompted = false;
    let mut i: usize = 0;
    let ghost f = of_agent(a.id@);
    proof {
        seqs::lemma_filter_none(running@, f);
        assert(json::trees(jobs@) =~= job_trees(running@.take(0).filter(f)));
    }
    while i < running.len()
        invariant
            i <= running@.len(),
            f == of_agent(a.id@),
            json::trees(jobs@) == job_trees(running@.take(i as int).filter(f)),
            prompted == exists|k: int|
                0 <= k < i && (#[trigger] running@[k]).agent@ == a.id@ && at_prompt(
                    running@[k].job@,
                ),
        decreases running@.len() - i,
    {
        let ghost kept = running@.take(i as int).filter(f);
        proof {
            seqs::lemma_filter_take(running@, f, i as int);
        }
        if running[i].agent.is(&a.id) {
            push_value(&mut jobs, running[i].job.copy());
            assert(job_trees(kept.push(running@[i as int])) =~= job_trees(kept).push(
                running@[i as int].job@,
            ));
            if let Some(Json::Bool(true)) = running[i].job.get("waiting_for_input") {
                prompted = true;
            }
        }
        i += 1;
    }
    assert(running@.take(i as int) =~= running@);
    let needs = a.waiting_for_you || a.pending_approvals.len() > 0 || prompted;
    let parent = match &a.parent {
        Some(p) => string(p.0.as_str()),
        None => Json::Null,
    };
    let mut approvals: Vec<(String, Json)> = Vec::new();
    put_last(&mut approvals, "asked", number(a.approvals_asked));
    put_last(&mut approvals, "answered", number(a.approvals_answered));
    assert(json::entries(approvals@) =~= seq![
        ("asked"@, count(a.approvals_asked)),
        ("answered"@, count(a.approvals_answered)),
    ]);
    let mut o: Vec<(String, Json)> = Vec::new();
    put_last(&mut o, "id", string(a.id.0.as_str()));
    put_last(&mut o, "mind", string(a.mind.as_str()));
    put_last(&mut o, "title", string(a.title.as_str()));
    put_last(&mut o, "state", string(a.state.as_str()));
    put_last(&mut o, "since", number(a.since));
    put_last(&mut o, "status", string(a.status.as_str()));
    put_last(&mut o, "needs_you", Json::Bool(needs));
    put_last(&mut o, "pending_approvals", strings(a.pending_approvals.as_slice()));
    put_last(&mut o, "running_jobs", Json::Array(jobs));
    put_last(&mut o, "last_activity", number(a.touched));
    put_last(&mut o, "last_activity_secs_ago", number(elapsed(now, a.touched)));
    put_last(&mut o, "parent", parent);
    put_last(&mut o, "children", ids_value(a.children.as_slice()));
    put_last(&mut o, "turns", number(a.turns));
    put_last(&mut o, "calls", number(a.calls));
    put_last(&mut o, "failed_calls", number(a.failed_calls));
    put_last(&mut o, "commands", commands_value(a.commands.as_slice()));
    put_last(&mut o, "files", strings(a.files.as_slice()));
    put_last(&mut o, "approvals", Json::Object(approvals));
    put_last(&mut o, "one_conversation", Json::Bool(!a.conversations));
    assert(json::entries(o@) =~= agent_tree(*a, running@, now)->Object_0);
    Json::Object(o)
}

/// What `describe shell` says under `agents`: the counts per tab, and one entry per agent.
pub fn for_describe(rows: &[AgentRow], running: &[RunningJob], counts: Counts, now: u64) -> (r: Json)
    ensures
        r@ == Tree::Object(
            seq![
                ("active"@, count(counts.active)),
                ("needs_you"@, count(counts.needs_you)),
                ("complete"@, count(counts.complete)),
                ("all"@, count(counts.all)),
                ("agents"@, Tree::Array(agent_trees(rows@, running@, now))),
            ],
        ),
{
    let mut list: Vec<Json> = Vec::new();
    let mut i: usize = 0;
    while i < rows.len()
        invariant
            i <= rows@.len(),
            json::trees(list@) == agent_trees(rows@, running@, now).take(i as int),
        decreases rows@.len() - i,
    {
        push_value(&mut list, agent_value(&rows[i], running, now));
        i += 1;
        assert(agent_trees(rows@, running@, now).take(i as int) =~= agent_trees(
            rows@,
            running@,
            now,
        ).take(i - 1).push(agent_trees(rows@, running@, now)[i - 1]));
    }
    assert(agent_trees(rows@, running@, now).take(i as int) =~= agent_trees(rows@, running@, now));
    let mut o: Vec<(String, Json)> = Vec::new();
    put_last(&mut o, "active", number(counts.active));
    put_last(&mut o, "needs_you", number(counts.needs_you));
    put_last(&mut o, "complete", number(counts.complete));
    put_last(&mut o, "all", number(counts.all));
    put_last(&mut o, "agents", Json::Array(list));
    assert(json::entries(o@) =~= seq![
        ("active"@, count(counts.active)),
        ("needs_you"@, count(counts.needs_you)),
        ("complete"@, count(counts.complete)),
        ("all"@, count(counts.all)),
        ("agents"@, Tree::Array(agent_trees(rows@, running@, now))),
    ]);
    Json::Object(o)
}

/// What came out is told of exactly the requests that were answered, each with its own answer and
/// in the order they were waiting in.
pub proof fn law_what_came_out_is_told<T>(waiting: Seq<Waiting>, status: Seq<Option<T>>, i: int)
    requires
        waiting.len() == status.len(),
        0 <= i < waiting.len(),
    ensures
        status[i] is Some ==> came_out(waiting, status).contains((waiting[i], status[i]->0)),
        came_out(waiting, status).len() <= waiting.len(),
        forall|k: int|
            0 <= k < came_out(waiting, status).len() ==> exists|j: int|
                0 <= j < waiting.len() && status[j] is Some && #[trigger] came_out(
                    waiting,
                    status,
                )[k] == (#[trigger] waiting[j], status[j]->0),
    decreases waiting.len(),
{
    let all = came_out(waiting, status);
    let (w, s) = (waiting.drop_last(), status.drop_last());
    let earlier = came_out(w, s);
    if w.len() > 0 {
        let j = if i < w.len() { i } else { 0 };
        law_what_came_out_is_told(w, s, j);
    }
    if i < w.len() && status[i] is Some {
        let k = choose|k: int| 0 <= k < earlier.len() && earlier[k] == (w[i], s[i]->0);
        assert(all[k] == (waiting[i], status[i]->0));
    } else if status[i] is Some {
        assert(all[earlier.len() as int] == (waiting[i], status[i]->0));
    }
    assert forall|k: int| 0 <= k < all.len() implies exists|j: int|
        0 <= j < waiting.len() && status[j] is Some && #[trigger] all[k] == (
            #[trigger] waiting[j],
            status[j]->0,
        ) by {
        if k < earlier.len() {
            assert(all[k] == earlier[k]);
            let j = choose|j: int|
                0 <= j < w.len() && s[j] is Some && earlier[k] == (#[trigger] w[j], s[j]->0);
            assert(waiting[j] == w[j]);
        } else {
            assert(all[k] == (waiting[waiting.len() - 1], status[waiting.len() - 1]->0));
        }
    }
}

/// An agent needs you where it says so, where it asked for leave, and where something it runs
/// stands at a prompt; what other agents run does not count.
pub proof fn law_who_needs_you(a: AgentRow, running: Seq<RunningJob>, i: int)
    ensures
        a.waiting_for_you ==> needs_you(a, running),
        a.pending_approvals@.len() > 0 ==> needs_you(a, running),
        0 <= i < running.len() && running[i].agent@ == a.id@ && json::field(
            running[i].job@,
            "waiting_for_input"@,
        ) == Some(Tree::Bool(true)) ==> needs_you(a, running),
        !a.waiting_for_you && a.pending_approvals@.len() == 0 && (forall|k: int|
            0 <= k < running.len() ==> (#[trigger] running[k]).agent@ != a.id@) ==> !needs_you(
            a,
            running,
        ),
{
}

/// What changed is written out once two seconds have gone by since it last was, and then the wait
/// starts over; until then nothing changes.
pub proof fn law_what_changed_is_written_out_in_time(saving: &mut Saving, now: u64, r: bool)
    requires
        call_ensures(Saving::due, (saving, now), r),
    ensures
        r <==> now - old(saving)@ >= 2_000_000_000,
        r ==> final(saving)@ == now,
        !r ==> final(saving)@ == old(saving)@,
{
}

/// What is told of an agent is what it is, whether it waits for the person, what of it runs, and
/// how long it has been quiet.
pub proof fn law_what_is_told_of_an_agent(a: AgentRow, running: Seq<RunningJob>, now: u64)
    ensures
        ({
            let e = agent_tree(a, running, now)->Object_0;
            &&& e[0] == ("id"@, Tree::Str(a.id@))
            &&& e[1] == ("mind"@, Tree::Str(a.mind@))
            &&& e[2] == ("title"@, Tree::Str(a.title@))
            &&& e[3] == ("state"@, Tree::Str(a.state@))
            &&& e[5] == ("status"@, Tree::Str(a.status@))
            &&& e[6].0 == "needs_you"@ && e[6].1 is Bool
            &&& a.waiting_for_you ==> e[6].1 == Tree::Bool(true)
            &&& a.pending_approvals@.len() > 0 ==> e[6].1 == Tree::Bool(true)
            &&& !a.waiting_for_you && a.pending_approvals@.len() == 0 && running.len() == 0
                ==> e[6].1 == Tree::Bool(false)
            &&& e[8].1->Array_0.len() == running.filter(of_agent(a.id@)).len()
            &&& now >= a.touched ==> e[10].1 == Tree::Num(json::whole((now - a.touched) as u64))
            &&& now < a.touched ==> e[10].1 == Tree::Num(json::whole(0))
            &&& e[13].1 == Tree::Num(json::whole(a.turns))
            &&& e[14].1 == Tree::Num(json::whole(a.calls))
            &&& e[15].1 == Tree::Num(json::whole(a.failed_calls))
            &&& e[19] == ("one_conversation"@, Tree::Bool(!a.conversations))
        }),
{
}

/// What is known of the agents is kept below where a person's data goes: where that is said, by a
/// whole path, and otherwise below the home folder.
pub proof fn law_where_the_agents_are_kept(
    data_home: Option<&[u8]>,
    home: &[u8],
    r: Vec<u8>,
)
    requires
        call_ensures(dir, (data_home, Some(home)), r),
    ensures
        data_home is Some && data_home->0@.len() > 0 && data_home->0@[0] == 47 ==> r@
            == sessions_below(data_home->0@),
        data_home is None ==> r@ == sessions_below(
            paths::joined(
                paths::joined(home@, vstd::utf8::encode_utf8(".local"@)),
                vstd::utf8::encode_utf8("share"@),
            ),
        ),
        data_home is Some && (data_home->0@.len() == 0 || data_home->0@[0] != 47) ==> r@
            == sessions_below(
            paths::joined(
                paths::joined(home@, vstd::utf8::encode_utf8(".local"@)),
                vstd::utf8::encode_utf8("share"@),
            ),
        ),
{
}

} // verus!
