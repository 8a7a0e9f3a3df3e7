//! Starting an agent, saying more to one, and stopping one: what is decided around the calls to
//! the harness host.
use crate::agents;
use crate::agents::{among, AgentId, MAIN};
use crate::seqs;
use crate::text;
use crate::text::{decimal, same, trimmed};
use vstd::prelude::*;

verus! {

/// An agent the host has.
pub struct LiveAgent {
    pub id: AgentId,
    /// Whether its harness holds more than one conversation.
    pub conversations: bool,
    pub harness_name: String,
}

// ── Starting ────────────────────────────────────────────────────────

pub open spec fn nothing_to_do() -> Seq<char> {
    "Say what the agent is to do."@
}

pub open spec fn not_an_agent() -> Seq<char> {
    "The built-in companion answers in the Lens; it cannot be started as an agent yet."@
}

/// Whether an agent may be started at all: with something to do, and not on the built-in
/// companion. Answers with its first prompt.
pub fn start(mind: &str, prompt: &str, builtin: &str) -> (r: Result<String, String>)
    ensures
        match r {
            Ok(p) => p@ == text::trim(prompt@) && p@.len() > 0 && mind@ != builtin@,
            Err(why) => if text::blank(prompt@) {
                why@ == nothing_to_do()
            } else {
                mind@ == builtin@ && why@ == not_an_agent()
            },
        },
{
    let p = trimmed(prompt);
    if p.as_str().is_empty() {
        return Err("Say what the agent is to do.".to_owned());
    }
    if same(mind, builtin) {
        return Err(
            "The built-in companion answers in the Lens; it cannot be started as an agent yet.".to_owned(),
        );
    }
    Ok(p)
}

/// Whether a harness has one conversation, and it is open.
pub open spec fn has_only_main(live: Seq<LiveAgent>, mind: Seq<char>) -> bool {
    exists|i: int|
        0 <= i < live.len() && (#[trigger] live[i]).id@ == agents::agent_name(mind, MAIN@)
            && !live[i].conversations
}

/// The agent that a start becomes: the one the host started, or, where it would not and the
/// harness has one conversation that is open already, that conversation. A child is always a new
/// conversation.
pub fn became(
    started: Result<AgentId, String>,
    mind: &str,
    live: &[LiveAgent],
    parent: Option<&AgentId>,
) -> (r: Result<AgentId, String>)
    ensures
        match started {
            Ok(id) => r matches Ok(a) && a@ == id@,
            Err(why) => if has_only_main(live@, mind@) && parent is None {
                r matches Ok(a) && a@ == agents::agent_name(mind@, MAIN@)
            } else {
                r matches Err(said) && said@ == why@
            },
        },
{
    match started {
        Ok(id) => Ok(id),
        Err(why) => {
            let main = AgentId::new(mind, MAIN);
            let mut continues = false;
            let mut i: usize = 0;
            while i < live.len()
                invariant
                    i <= live@.len(),
                    main@ == agents::agent_name(mind@, MAIN@),
                    continues == exists|k: int|
                        0 <= k < i && (#[trigger] live@[k]).id@ == main@ && !live@[k].conversations,
                decreases live@.len() - i,
            {
                if live[i].id.is(&main) && !live[i].conversations {
                    continues = true;
                    assert(live@[i as int].id@ == main@);
                }
                i += 1;
            }
            if !continues || parent.is_some() {
                return Err(why);
            }
            Ok(main)
        },
    }
}

/// Whether an agent's first turn may be sent: one turn at a time.
pub fn may_open(agent: &AgentId, busy: bool) -> (r: Result<(), String>)
    ensures
        r is Ok <==> !busy,
        r matches Err(why) ==> why@ == "`"@ + agent@
            + "` is still on its last turn; one turn at a time."@,
{
    if busy {
        let mut why = "`".to_owned();
        why.append(agent.0.as_str());
        why.append("` is still on its last turn; one turn at a time.");
        return Err(why);
    }
    Ok(())
}

// ── Saying more ─────────────────────────────────────────────────────

/// What becomes of something more that is said to an agent.
#[derive(Debug)]
pub enum Say {
    /// There was nothing in it.
    Nothing,
    Refuse(String),
    /// Send this.
    Send(String),
}

/// What a role's agent may use, and how much of it is gone.
pub struct TurnBudget {
    /// The role's name.
    pub role: String,
    pub turns: u32,
    pub had: u64,
}

/// Why nothing more is said to an agent, where it is not: the built-in companion would have to
/// answer, the agent is still on a turn, its harness is gone, or its role's turns are used up.
pub open spec fn not_sent(
    agent: Seq<char>,
    builtin: Seq<char>,
    busy: bool,
    gone: bool,
    budget: Option<TurnBudget>,
) -> Option<Seq<char>> {
    if agents::harness_in(agent) == builtin {
        Some("The built-in companion answers in the Lens."@)
    } else if busy {
        Some("It is still on its last turn; one turn at a time."@)
    } else if gone {
        Some("Its harness is gone. Start it again, then ask."@)
    } else {
        match budget {
            Some(b) if b.had >= b.turns => Some(
                "`"@ + agent + "` is the "@ + b.role@ + ", whose budget is "@ + text::dec(
                    b.turns as nat,
                ) + " turns, and it has had them all."@,
            ),
            _ => None,
        }
    }
}

pub open spec fn budget_of(b: Option<&TurnBudget>) -> Option<TurnBudget> {
    match b {
        Some(x) => Some(*x),
        None => None,
    }
}

/// What becomes of something more that is said to an agent.
pub fn send(
    agent: &AgentId,
    words: &str,
    builtin: &str,
    busy: bool,
    gone: bool,
    budget: Option<&TurnBudget>,
) -> (r: Say)
    ensures
        if text::blank(words@) {
            r is Nothing
        } else {
            match not_sent(agent@, builtin@, busy, gone, budget_of(budget)) {
                Some(why) => r matches Say::Refuse(said) && said@ == why,
                None => r matches Say::Send(t) && t@ == text::trim(words@),
            }
        },
{
    let t = trimmed(words);
    if t.as_str().is_empty() {
        return Say::Nothing;
    }
    if same(agent.harness().as_str(), builtin) {
        return Say::Refuse("The built-in companion answers in the Lens.".to_owned());
    }
    if busy {
        return Say::Refuse("It is still on its last turn; one turn at a time.".to_owned());
    }
    if gone {
        return Say::Refuse("Its harness is gone. Start it again, then ask.".to_owned());
    }
    if let Some(b) = budget {
        if b.had >= b.turns as u64 {
            let mut out = "`".to_owned();
            out.append(agent.0.as_str());
            out.append("` is the ");
            out.append(b.role.as_str());
            out.append(", whose budget is ");
            out.append(decimal(b.turns as u64).as_str());
            out.append(" turns, and it has had them all.");
            return Say::Refuse(out);
        }
    }
    Say::Send(t)
}

// ── Stopping ────────────────────────────────────────────────────────

/// What a Stop came to.
#[derive(Clone, Debug, PartialEq)]
pub struct Stopped {
    /// Whether the host had a turn, a queued turn or a live conversation to stop.
    pub stopped: bool,
    /// The agent's commands killed, each one's whole process group.
    pub commands: usize,
    /// Approval cards taken back: nobody is waiting on their answers any more.
    pub approvals: usize,
    /// Its children, stopped with it.
    pub children: Vec<AgentId>,
}

/// Whether an agent may be stopped: any but the built-in companion.
pub fn stop(agent: &AgentId, builtin: &str) -> (r: Result<(), String>)
    ensures
        r is Ok <==> agents::harness_in(agent@) != builtin@,
        r matches Err(why) ==> why@
            == "The built-in companion answers in the Lens and cannot be stopped from here."@,
{
    if same(agent.harness().as_str(), builtin) {
        return Err(
            "The built-in companion answers in the Lens and cannot be stopped from here.".to_owned(),
        );
    }
    Ok(())
}

/// A child of an agent that is being stopped.
pub struct Child {
    pub id: AgentId,
    /// Whether it is on a turn.
    pub working: bool,
}

/// Whether a child is stopped with its parent: it is working, or the host still has it.
pub open spec fn stops_too(live: Seq<Seq<char>>) -> spec_fn(Child) -> bool {
    |c: Child| c.working || live.contains(c.id@)
}

/// The children that are stopped with their parent, in order.
pub fn children_to_stop(children: &[Child], live: &[AgentId]) -> (r: Vec<AgentId>)
    ensures
        agents::ids(r@) == child_ids(children@.filter(stops_too(agents::ids(live@)))),
{
    let mut out: Vec<AgentId> = Vec::new();
    let mut i: usize = 0;
    let ghost f = stops_too(agents::ids(live@));
    proof {
        seqs::lemma_filter_none(children@, f);
        assert(agents::ids(out@) =~= child_ids(children@.take(0).filter(f)));
    }
    while i < children.len()
        invariant
            i <= children@.len(),
            f == stops_too(agents::ids(live@)),
            agents::ids(out@) == child_ids(children@.take(i as int).filter(f)),
        decreases children@.len() - i,
    {
        let ghost was = agents::ids(out@);
        let ghost kept = children@.take(i as int).filter(f);
        proof {
            seqs::lemma_filter_take(children@, f, i as int);
        }
        if children[i].working || among(live, &children[i].id) {
            let id = children[i].id.copy();
            let ghost name = id@;
            out.push(id);
            proof {
                assert(agents::ids(out@) =~= was.push(name));
                assert(child_ids(kept.push(children@[i as int])) =~= child_ids(kept).push(name));
            }
        }
        i += 1;
    }
    assert(children@.take(i as int) =~= children@);
    out
}

pub open spec fn child_ids(s: Seq<Child>) -> Seq<Seq<char>> {
    Seq::new(s.len(), |i: int| s[i].id@)
}

/// The line a Stop leaves in the agent's session.
pub open spec fn stop_line(stopped: bool, killed: nat) -> Seq<char> {
    if killed == 0 {
        if stopped {
            "Stop asked."@
        } else {
            "Stop asked; nothing was running."@
        }
    } else if killed == 1 {
        "Stop asked, and its one running command killed."@
    } else {
        "Stop asked, and its "@ + text::dec(killed) + " running commands killed."@
    }
}

/// The line a Stop leaves in the agent's session.
pub fn stop_note(stopped: bool, killed: usize) -> (r: String)
    ensures
        r@ == stop_line(stopped, killed as nat),
{
    if killed == 0 {
        if stopped {
            "Stop asked.".to_owned()
        } else {
            "Stop asked; nothing was running.".to_owned()
        }
    } else if killed == 1 {
        "Stop asked, and its one running command killed.".to_owned()
    } else {
        let mut line = "Stop asked, and its ".to_owned();
        line.append(decimal(killed as u64).as_str());
        line.append(" running commands killed.");
        line
    }
}

/// The line a Stop leaves in the session of an agent that was stopped with the one that started
/// it.
pub fn stopped_with(parent: &AgentId) -> (r: String)
    ensures
        r@ == "Stopped with `"@ + parent@ + "`, the agent that started it."@,
{
    let mut line = "Stopped with `".to_owned();
    line.append(parent.0.as_str());
    line.append("`, the agent that started it.");
    line
}

impl Stopped {
    /// Counts a child in that was stopped too.
    pub fn with_child(&mut self, child: AgentId, commands: usize, approvals: usize)
        requires
            old(self).commands + commands <= usize::MAX,
            old(self).approvals + approvals <= usize::MAX,
        ensures
            final(self).stopped == old(self).stopped,
            final(self).commands == old(self).commands + commands,
            final(self).approvals == old(self).approvals + approvals,
            agents::ids(final(self).children@) == agents::ids(old(self).children@).push(child@),
    {
        self.commands = self.commands + commands;
        self.approvals = self.approvals + approvals;
        let ghost was = agents::ids(self.children@);
        let ghost name = child@;
        self.children.push(child);
        assert(agents::ids(self.children@) =~= was.push(name));
    }
}

/// Whether an agent can still be spoken to: its harness attached, and, for a harness with
/// conversations, the conversation still live. `<harness>:main` is always there while its harness
/// is attached.
pub open spec fn can_reach(
    agent: Seq<char>,
    live: Seq<Seq<char>>,
    attached: Seq<Seq<char>>,
    builtin: Seq<char>,
) -> bool {
    &&& agents::harness_in(agent) != builtin
    &&& attached.contains(agents::harness_in(agent))
    &&& agents::conversation_in(agent) == MAIN@ || live.contains(agent)
}

pub fn reachable(agent: &AgentId, live: &[AgentId], attached: &[String], builtin: &str) -> (r: bool)
    ensures
        r == can_reach(agent@, agents::ids(live@), text::strs(attached@), builtin@),
{
    let harness = agent.harness();
    let mut here = false;
    let mut i: usize = 0;
    while i < attached.len()
        invariant
            i <= attached@.len(),
            harness@ == agents::harness_in(agent@),
            here == exists|k: int| 0 <= k < i && #[trigger] text::strs(attached@)[k] == harness@,
        decreases attached@.len() - i,
    {
        if same(attached[i].as_str(), harness.as_str()) {
            here = true;
            assert(text::strs(attached@)[i as int] == harness@);
        }
        i += 1;
    }
    assert(here == text::strs(attached@).contains(harness@));
    !same(harness.as_str(), builtin) && here && (same(agent.conversation().as_str(), MAIN) || among(
        live,
        agent,
    ))
}

// ── Laws ────────────────────────────────────────────────────────────

/// A prompt goes out to an agent that is there, that is not on a turn and that has turns left: an
/// agent without a budget always has, and one with a budget until it has had them all.
pub proof fn law_when_a_prompt_goes_out(
    agent: Seq<char>,
    builtin: Seq<char>,
    busy: bool,
    gone: bool,
    budget: Option<TurnBudget>,
)
    ensures
        not_sent(agent, builtin, busy, gone, budget) is None <==> {
            &&& agents::harness_in(agent) != builtin
            &&& !busy
            &&& !gone
            &&& budget matches Some(b) ==> b.had < b.turns
        },
{
}

/// An agent can be reached through a harness that is attached and is not the built-in one: in its
/// main conversation always, and in another while that one lives.
pub proof fn law_who_can_be_reached(
    mind: Seq<char>,
    conversation: Seq<char>,
    live: Seq<Seq<char>>,
    attached: Seq<Seq<char>>,
    builtin: Seq<char>,
)
    requires
        !mind.contains(':'),
    ensures
        can_reach(mind.push(':') + conversation, live, attached, builtin) <==> {
            &&& mind != builtin
            &&& attached.contains(mind)
            &&& conversation == "main"@ || live.contains(mind.push(':') + conversation)
        },
{
    let s = mind.push(':') + conversation;
    text::lemma_next_char(s, ':', 0);
    let i = text::next_char(s, ':', 0);
    assert(s[mind.len() as int] == ':');
    assert(i == mind.len()) by {
        if i < mind.len() {
            assert(mind.contains(mind[i]));
        }
    }
    assert(s.take(i) =~= mind);
    assert(s.skip(i + 1) =~= conversation);
}

/// What a stop did is told: whether anything ran, and how many commands were killed.
pub proof fn law_what_a_stop_did(killed: nat)
    ensures
        stop_line(true, 0) == "Stop asked."@,
        stop_line(false, 0) == "Stop asked; nothing was running."@,
        stop_line(true, 1) == "Stop asked, and its one running command killed."@,
        killed > 1 ==> stop_line(true, killed) == "Stop asked, and its "@ + text::dec(killed)
            + " running commands killed."@ && stop_line(false, killed) == stop_line(true, killed),
{
}

/// The agents that stop with the one that started them are those at work and those that live.
pub proof fn law_who_stops_too(live: Seq<Seq<char>>, c: Child)
    ensures
        stops_too(live)(c) <==> c.working || exists|i: int|
            0 <= i < live.len() && #[trigger] live[i] == c.id@,
{
}

/// An agent is started with something to do, on any mind but the built-in one, and what it is to do
/// reaches it without the white space around it.
pub proof fn law_what_starts_an_agent(mind: &str, prompt: &str, builtin: &str, r: Result<String, String>)
    requires
        call_ensures(start, (mind, prompt, builtin), r),
    ensures
        r is Ok <==> !text::blank(prompt@) && mind@ != builtin@,
        r matches Ok(p) ==> p@ == text::trim(prompt@),
        text::blank(prompt@) ==> r->Err_0@ == "Say what the agent is to do."@,
        !text::blank(prompt@) && mind@ == builtin@ ==> r->Err_0@
            == "The built-in companion answers in the Lens; it cannot be started as an agent yet."@,
{
}

/// A harness that holds one conversation goes on with it where no other can be started, for a
/// person, and never for another agent.
pub proof fn law_what_a_start_becomes(
    started: Result<AgentId, String>,
    mind: &str,
    live: &[LiveAgent],
    parent: Option<&AgentId>,
    i: int,
    r: Result<AgentId, String>,
)
    requires
        call_ensures(became, (started, mind, live, parent), r),
    ensures
        started is Ok ==> r is Ok && r->Ok_0@ == started->Ok_0@,
        started is Err && parent is Some ==> r is Err && r->Err_0@ == started->Err_0@,
        started is Err && parent is None && 0 <= i < live@.len() && live@[i].id@ == mind@ + ":"@
            + "main"@ && !live@[i].conversations ==> r is Ok && r->Ok_0@ == mind@ + ":"@ + "main"@,
        started is Err && (forall|j: int|
            0 <= j < live@.len() ==> (#[trigger] live@[j]).conversations) ==> r is Err && r->Err_0@
            == started->Err_0@,
{
}

/// Nothing said is nothing sent, and what may go out goes out without the white space around it.
pub proof fn law_what_is_sent(
    agent: AgentId,
    words: &str,
    builtin: &str,
    busy: bool,
    gone: bool,
    budget: Option<&TurnBudget>,
    r: Say,
)
    requires
        call_ensures(send, (&agent, words, builtin, busy, gone, budget), r),
    ensures
        r is Nothing <==> text::blank(words@),
        r matches Say::Send(t) ==> t@ == text::trim(words@),
        !text::blank(words@) ==> (r is Send <==> agents::harness_in(agent@) != builtin@ && !busy
            && !gone && (budget matches Some(b) ==> b.had < b.turns)),
{
}

/// A child that is stopped too adds what it left behind, and is named behind those before it.
pub proof fn law_a_stopped_child_is_counted_in(
    stop: &mut Stopped,
    child: AgentId,
    commands: usize,
    approvals: usize,
)
    requires
        call_ensures(Stopped::with_child, (stop, child, commands, approvals), ()),
    ensures
        final(stop).commands - old(stop).commands == commands,
        final(stop).approvals - old(stop).approvals == approvals,
        final(stop).stopped == old(stop).stopped,
        agents::ids(final(stop).children@).last() == child@,
        agents::ids(final(stop).children@).drop_last() == agents::ids(old(stop).children@),
{
}

/// One turn is taken at a time, and only the built-in companion cannot be stopped.
pub proof fn law_one_turn_at_a_time(
    agent: AgentId,
    busy: bool,
    builtin: &str,
    opened: Result<(), String>,
    stopped: Result<(), String>,
)
    requires
        call_ensures(may_open, (&agent, busy), opened),
        call_ensures(stop, (&agent, builtin), stopped),
    ensures
        opened is Err <==> busy,
        stopped is Err <==> agents::harness_in(agent@) == builtin@,
{
}

} // verus!
