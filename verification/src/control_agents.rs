//! Agents on the shell's surface: how a mind hands work to another agent, and what a caller may do
//! to the agents there are.
//!
//! Who is asking is never an argument. An agent may start agents, but only one level deep and only
//! so many at once; it directs only the agents it started, and the person directs any.
use crate::agents;
use crate::agents::launch;
use crate::agents::launch::Stopped;
use crate::agents::reaches::Reaches;
use crate::agents::{among, AgentId};
use crate::config_store;
use crate::json;
use crate::json::{argument_of, number, put_last, string, strings, Json, Tree};
use crate::seqs;
use crate::text;
use crate::text::{
    capitalise, chars_of, decimal, fits, is_blank, joined, next_at, part, rest, same, to_small,
    trimmed,
};
use crate::surface;
use crate::surface::{add_action, Action, Listing, Param, ParamKind, Takes};
use vstd::prelude::*;

verus! {

/// How many live agents one agent may have started.
pub const MAX_CHILDREN: usize = 3;

/// The longest a hand-off waits for a role's answer, in seconds.
pub const HAND_OFF_WAIT_MOST: u64 = 600;

/// The most context a hand-off carries into the role's first turn, in bytes.
pub const CONTEXT_MOST_BYTES: usize = 32_768;

/// The most of a role's answer that is handed back, in bytes.
pub const ANSWER_MOST_BYTES: usize = 32_768;

/// How many turns are read where nothing is said, and the most.
pub const READ_TURNS: usize = 3;

pub const READ_TURNS_MOST: i64 = 20;

/// Who a call is for.
pub enum Caller {
    /// No agent token came with it: the person, or a caller that runs as no agent.
    NoAgent,
    /// The agent its token named.
    Agent(AgentId),
}

/// Who a [`Caller`] is.
pub open spec fn who(c: Caller) -> Option<Seq<char>> {
    match c {
        Caller::NoAgent => None,
        Caller::Agent(a) => Some(a@),
    }
}

// ── Arguments ───────────────────────────────────────────────────────

/// Whether a name is that of an agent: a mind and a conversation, with a colon between them.
pub open spec fn names_agent(s: Seq<char>) -> bool {
    let colon = text::next_char(s, ':', 0);
    0 < colon && colon + 1 < s.len()
}

/// What is said of a name that is not an agent's.
pub open spec fn not_a_name(s: Seq<char>) -> Seq<char> {
    "`agent` is `"@ + s
        + "`; an agent is named `<mind>:<conversation>`, e.g. `pi:c-7f3a91`, as new_agent answered or `describe shell` lists under `agents`."@
}

/// The agent a caller names.
pub fn agent_arg(args: &Json) -> (r: Result<AgentId, String>)
    ensures
        ({
            let named = json::argument(args@, "agent"@);
            match r {
                Ok(a) => names_agent(named) && a@ == named,
                Err(why) => !names_agent(named) && why@ == not_a_name(named),
            }
        }),
{
    let named = argument_of(args, "agent");
    let v = chars_of(named.as_str());
    let colon = next_at(v.as_slice(), ':', 0);
    if colon > 0 && colon < v.len() && colon < v.len() - 1 {
        return Ok(AgentId(named));
    }
    let mut out = "`agent` is `".to_owned();
    out.append(named.as_str());
    out.append(
        "`; an agent is named `<mind>:<conversation>`, e.g. `pi:c-7f3a91`, as new_agent answered or `describe shell` lists under `agents`.",
    );
    Err(out)
}

/// A number a caller wrote: the whole number at or below it, whether anything is left over, and
/// how much in billionths.
#[derive(Clone, Copy)]
pub struct Amount {
    pub floor: i64,
    pub fraction: bool,
    pub nanos: u32,
}

/// A number that may not have been given.
#[derive(Clone, Copy)]
pub enum Given {
    Nothing,
    /// Something that is no number.
    Other,
    Number(Amount),
}

/// Whether a number lies between two whole ones, both of them included.
pub open spec fn between(n: Amount, least: int, most: int) -> bool {
    least <= n.floor && (n.floor < most || (n.floor == most && !n.fraction))
}

/// How long a caller waits.
#[derive(Clone, Copy, PartialEq, Eq, Debug, Structural)]
pub struct Wait {
    pub secs: u64,
    pub nanos: u32,
}

/// How long a caller waits for an answer: not at all where nothing or zero was said, and never
/// longer than the most.
pub fn wait_arg(given: Given) -> (r: Result<Option<Wait>, String>)
    ensures
        match given {
            Given::Nothing => r == Ok::<Option<Wait>, String>(None),
            Given::Other => r matches Err(why) && why@ == "`wait_seconds` is a number of seconds."@,
            Given::Number(n) => if between(n, 0, HAND_OFF_WAIT_MOST as int) {
                r == Ok::<Option<Wait>, String>(
                    if n.floor > 0 || n.fraction {
                        Some(Wait { secs: n.floor as u64, nanos: n.nanos })
                    } else {
                        None
                    },
                )
            } else {
                r matches Err(why) && why@
                    == "`wait_seconds` is between 0 and 600. Left out, hand_off answers at once with the agent's id, and `read_agent` shows its answer when it comes."@
            },
        },
{
    match given {
        Given::Nothing => Ok(None),
        Given::Other => Err("`wait_seconds` is a number of seconds.".to_owned()),
        Given::Number(n) => {
            let most: i64 = 600;
            if n.floor < 0 || n.floor > most || (n.floor == most && n.fraction) {
                return Err(
                    "`wait_seconds` is between 0 and 600. Left out, hand_off answers at once with the agent's id, and `read_agent` shows its answer when it comes.".to_owned(),
                );
            }
            if n.floor > 0 || n.fraction {
                Ok(Some(Wait { secs: n.floor as u64, nanos: n.nanos }))
            } else {
                Ok(None)
            }
        },
    }
}

/// Why so many turns are not given, where they are not.
pub open spec fn no_turns(given: Given) -> Option<Seq<char>> {
    match given {
        Given::Nothing => None,
        Given::Other => Some("`last` is a number of turns."@),
        Given::Number(n) => if between(n, 1, READ_TURNS_MOST as int) {
            None
        } else {
            Some("`last` is between 1 and 20 turns."@)
        },
    }
}

/// How many turns a caller wants to read.
pub fn turns_arg(given: Given) -> (r: Result<usize, String>)
    ensures
        match no_turns(given) {
            Some(why) => r matches Err(said) && said@ == why,
            None => r == Ok::<usize, String>(
                match given {
                    Given::Number(n) => n.floor as usize,
                    _ => READ_TURNS,
                },
            ),
        },
{
    match given {
        Given::Nothing => Ok(READ_TURNS),
        Given::Other => Err("`last` is a number of turns.".to_owned()),
        Given::Number(n) => {
            if n.floor < 1 || n.floor > READ_TURNS_MOST || (n.floor == READ_TURNS_MOST
                && n.fraction) {
                return Err("`last` is between 1 and 20 turns.".to_owned());
            }
            Ok(n.floor as usize)
        },
    }
}

// ── Who started whom ────────────────────────────────────────────────

/// An agent, and the agent or the recipe that started it.
pub struct Kin {
    pub id: AgentId,
    pub parent: Option<AgentId>,
    /// The recipe it works for, by name.
    pub recipe: Option<String>,
}

/// What a [`Kin`] says.
pub struct Started {
    pub id: Seq<char>,
    pub parent: Option<Seq<char>>,
    pub recipe: Option<Seq<char>>,
}

pub open spec fn name_of(a: Option<AgentId>) -> Option<Seq<char>> {
    match a {
        Some(a) => Some(a@),
        None => None,
    }
}

/// The agents there are, and which of them started which.
pub struct Family {
    kin: Vec<Kin>,
}

spec fn started(s: Seq<Kin>) -> Seq<Started> {
    Seq::new(
        s.len(),
        |i: int|
            Started { id: s[i].id@, parent: name_of(s[i].parent), recipe: text::maybe(s[i].recipe) },
    )
}

impl View for Family {
    type V = Seq<Started>;

    closed spec fn view(&self) -> Seq<Started> {
        started(self.kin@)
    }
}

pub open spec fn is_agent(id: Seq<char>) -> spec_fn(Started) -> bool {
    |s: Started| s.id == id
}

/// The agent that started one, where an agent did.
pub open spec fn parent_in(f: Seq<Started>, id: Seq<char>) -> Option<Seq<char>> {
    let i = seqs::first(f, is_agent(id));
    if i < f.len() {
        f[i].parent
    } else {
        None
    }
}

/// The recipe an agent works for, where it does.
pub open spec fn recipe_in(f: Seq<Started>, id: Seq<char>) -> Option<Seq<char>> {
    let i = seqs::first(f, is_agent(id));
    if i < f.len() {
        f[i].recipe
    } else {
        None
    }
}

/// The agents one agent started that are still live.
pub open spec fn held_by(parent: Seq<char>, live: Seq<Seq<char>>) -> spec_fn(Started) -> bool {
    |s: Started| s.parent == Some(parent) && live.contains(s.id)
}

pub open spec fn names(f: Seq<Started>) -> Seq<Seq<char>> {
    Seq::new(f.len(), |i: int| f[i].id)
}

impl Family {
    pub fn new() -> (r: Family)
        ensures
            r@.len() == 0,
    {
        Family { kin: Vec::new() }
    }

    fn find(&self, id: &AgentId) -> (r: usize)
        ensures
            r == seqs::first(self@, is_agent(id@)),
            r <= self.kin@.len(),
    {
        let ghost f = is_agent(id@);
        let mut i: usize = 0;
        while i < self.kin.len()
            invariant
                i <= self.kin@.len(),
                f == is_agent(id@),
                seqs::first(self@, f) == seqs::first_from(self@, f, i as int),
            decreases self.kin@.len() - i,
        {
            assert(self@[i as int].id == self.kin@[i as int].id@);
            if self.kin[i].id.is(id) {
                return i;
            }
            i += 1;
        }
        i
    }

    /// Notes an agent and what started it, over what was noted of it before.
    pub fn upsert_agent(&mut self, id: AgentId, parent: Option<AgentId>, recipe: Option<String>)
        ensures
            ({
                let i = seqs::first(old(self)@, is_agent(id@));
                let one = Started { id: id@, parent: name_of(parent), recipe: text::maybe(recipe) };
                final(self)@ == if i < old(self)@.len() {
                    old(self)@.update(i, one)
                } else {
                    old(self)@.push(one)
                }
            }),
    {
        let i = self.find(&id);
        let ghost was = self@;
        let ghost one = Started { id: id@, parent: name_of(parent), recipe: text::maybe(recipe) };
        if i < self.kin.len() {
            self.kin.set(i, Kin { id, parent, recipe });
            assert(self@ =~= was.update(i as int, one));
        } else {
            self.kin.push(Kin { id, parent, recipe });
            assert(self@ =~= was.push(one));
        }
    }

    /// Whether an agent is known.
    pub fn knows(&self, id: &AgentId) -> (r: bool)
        ensures
            r == (seqs::first(self@, is_agent(id@)) < self@.len()),
    {
        self.find(id) < self.kin.len()
    }

    /// The agent that started one, where an agent did.
    pub fn parent_of(&self, id: &AgentId) -> (r: Option<&AgentId>)
        ensures
            match r {
                Some(p) => parent_in(self@, id@) == Some(p@),
                None => parent_in(self@, id@) is None,
            },
    {
        let i = self.find(id);
        if i < self.kin.len() {
            assert(self@[i as int].parent == name_of(self.kin@[i as int].parent));
            match &self.kin[i].parent {
                Some(p) => Some(p),
                None => None,
            }
        } else {
            None
        }
    }

    /// The recipe an agent works for, where it does.
    pub fn recipe_of(&self, id: &AgentId) -> (r: Option<&str>)
        ensures
            match r {
                Some(p) => recipe_in(self@, id@) == Some(p@),
                None => recipe_in(self@, id@) is None,
            },
    {
        let i = self.find(id);
        if i < self.kin.len() {
            assert(self@[i as int].recipe == text::maybe(self.kin@[i as int].recipe));
            match &self.kin[i].recipe {
                Some(p) => Some(p.as_str()),
                None => None,
            }
        } else {
            None
        }
    }

    /// The agents one agent started that are still live.
    pub fn held(&self, parent: &AgentId, live: &[AgentId]) -> (r: Vec<String>)
        ensures
            text::strs(r@) == names(self@.filter(held_by(parent@, agents::ids(live@)))),
    {
        let ghost f = held_by(parent@, agents::ids(live@));
        let ghost all = self@;
        let mut out: Vec<String> = Vec::new();
        let mut i: usize = 0;
        proof {
            seqs::lemma_filter_none(all, f);
            assert(text::strs(out@) =~= names(all.take(0).filter(f)));
        }
        while i < self.kin.len()
            invariant
                i <= self.kin@.len(),
                all == self@,
                f == held_by(parent@, agents::ids(live@)),
                text::strs(out@) == names(all.take(i as int).filter(f)),
            decreases self.kin@.len() - i,
        {
            let ghost was = text::strs(out@);
            let ghost kept = all.take(i as int).filter(f);
            proof {
                seqs::lemma_filter_take(all, f, i as int);
                assert(all[i as int] == Started {
                    id: self.kin@[i as int].id@,
                    parent: name_of(self.kin@[i as int].parent),
                    recipe: text::maybe(self.kin@[i as int].recipe),
                });
            }
            let mine = match &self.kin[i].parent {
                Some(p) => p.is(parent),
                None => false,
            };
            if mine && among(live, &self.kin[i].id) {
                out.push(self.kin[i].id.0.clone());
                proof {
                    assert(text::strs(out@) =~= was.push(all[i as int].id));
                    assert(names(kept.push(all[i as int])) =~= names(kept).push(all[i as int].id));
                }
            }
            i += 1;
        }
        assert(all.take(i as int) =~= all);
        out
    }
}

// ── The rules ───────────────────────────────────────────────────────

/// Why an agent may not start another, where it may not: one level only, below an agent or a
/// recipe, and only so many at once.
pub open spec fn no_child(f: Seq<Started>, parent: Seq<char>, live: Seq<Seq<char>>) -> Option<
    Seq<char>,
> {
    match parent_in(f, parent) {
        Some(grand) => Some(
            "`"@ + parent + "` was started by `"@ + grand
                + "`, and an agent another agent started cannot start agents of its own: one level only. Say in your answer what else needs doing, and `"@
                + grand + "` can start it."@,
        ),
        None => if recipe_in(f, parent) is Some {
            Some(
                "`"@ + parent + "` works for the recipe `"@ + recipe_in(f, parent)->0
                    + "`, and an agent a recipe started cannot start agents of its own: one level only."@,
            )
        } else {
            let held = names(f.filter(held_by(parent, live)));
            if held.len() >= MAX_CHILDREN {
                Some(
                    "`"@ + parent + "` already has "@ + text::dec(held.len())
                        + " agents running ("@ + text::join(held, ", "@)
                        + "), the most one agent may hold at once. `stop_agent` one that is done, or wait for one to finish, then start another."@,
                )
            } else {
                None
            }
        },
    }
}

/// May an agent start another?
pub fn may_start_child(parent: &AgentId, family: &Family, live: &[AgentId]) -> (r: Result<
    (),
    String,
>)
    ensures
        match no_child(family@, parent@, agents::ids(live@)) {
            None => r is Ok,
            Some(why) => r matches Err(said) && said@ == why,
        },
{
    if let Some(grand) = family.parent_of(parent) {
        let mut out = "`".to_owned();
        out.append(parent.0.as_str());
        out.append("` was started by `");
        out.append(grand.0.as_str());
        out.append(
            "`, and an agent another agent started cannot start agents of its own: one level only. Say in your answer what else needs doing, and `",
        );
        out.append(grand.0.as_str());
        out.append("` can start it.");
        return Err(out);
    }
    if let Some(recipe) = family.recipe_of(parent) {
        let mut out = "`".to_owned();
        out.append(parent.0.as_str());
        out.append("` works for the recipe `");
        out.append(recipe);
        out.append(
            "`, and an agent a recipe started cannot start agents of its own: one level only.",
        );
        return Err(out);
    }
    let held = family.held(parent, live);
    assert(text::strs(held@).len() == held@.len());
    if held.len() >= MAX_CHILDREN {
        let mut out = "`".to_owned();
        out.append(parent.0.as_str());
        out.append("` already has ");
        out.append(decimal(held.len() as u64).as_str());
        out.append(" agents running (");
        out.append(joined(held.as_slice(), ", ").as_str());
        out.append(
            "), the most one agent may hold at once. `stop_agent` one that is done, or wait for one to finish, then start another.",
        );
        return Err(out);
    }
    Ok(())
}

/// Whether a caller may direct an agent: the person any, an agent only one it started.
pub open spec fn directs(caller: Option<Seq<char>>, target: Seq<char>, f: Seq<Started>) -> bool {
    match caller {
        None => true,
        Some(me) => parent_in(f, target) == Some(me),
    }
}

pub open spec fn not_yours(target: Seq<char>, verb: Seq<char>) -> Seq<char> {
    "`"@ + target + "` is not an agent you started, so you cannot "@ + verb
        + " it. An agent can "@ + verb
        + " only the agents it started with new_agent; the person can "@ + verb
        + " any from the Agents screen."@
}

/// May a caller send to or stop an agent?
pub fn may_direct(caller: &Caller, target: &AgentId, family: &Family, verb: &str) -> (r: Result<
    (),
    String,
>)
    ensures
        r is Ok <==> directs(who(*caller), target@, family@),
        r matches Err(why) ==> why@ == not_yours(target@, verb@),
{
    let may = match caller {
        Caller::NoAgent => true,
        Caller::Agent(me) => match family.parent_of(target) {
            Some(p) => p.is(me),
            None => false,
        },
    };
    if may {
        return Ok(());
    }
    let mut out = "`".to_owned();
    out.append(target.0.as_str());
    out.append("` is not an agent you started, so you cannot ");
    out.append(verb);
    out.append(" it. An agent can ");
    out.append(verb);
    out.append(" only the agents it started with new_agent; the person can ");
    out.append(verb);
    out.append(" any from the Agents screen.");
    Err(out)
}

/// Whether a caller may read an agent: itself too.
pub open spec fn reads(caller: Option<Seq<char>>, target: Seq<char>, f: Seq<Started>) -> bool {
    caller == Some(target) || directs(caller, target, f)
}

/// May a caller read an agent?
pub fn may_read(caller: &Caller, target: &AgentId, family: &Family) -> (r: Result<(), String>)
    ensures
        r is Ok <==> reads(who(*caller), target@, family@),
        r matches Err(why) ==> why@ == not_yours(target@, "read"@),
{
    if let Caller::Agent(me) = caller {
        if me.is(target) {
            return Ok(());
        }
    }
    may_direct(caller, target, family, "read")
}

/// A mind the host knows.
#[derive(Debug)]
pub struct HostMind {
    pub id: String,
    pub name: String,
    pub builtin: bool,
}

pub open spec fn has_id(id: Seq<char>) -> spec_fn(HostMind) -> bool {
    |m: HostMind| m.id@ == id
}

pub open spec fn has_small_name(small: Seq<char>) -> spec_fn(HostMind) -> bool {
    |m: HostMind| text::small(m.name@) == small
}

pub open spec fn attached(minds: Seq<HostMind>) -> Seq<Seq<char>> {
    minds.filter(|m: HostMind| !m.builtin).map_values(|m: HostMind| m.id@)
}

/// The mind a caller named: by its id, or by the name a person reads.
pub open spec fn mind_of(minds: Seq<HostMind>, named: Seq<char>) -> Option<Seq<char>> {
    let i = seqs::first(minds, has_id(named));
    let k = seqs::first(minds, has_small_name(text::small(named)));
    if i < minds.len() {
        Some(minds[i].id@)
    } else if k < minds.len() {
        Some(minds[k].id@)
    } else {
        None
    }
}

/// What is said where no such mind is attached.
pub open spec fn no_mind(minds: Seq<HostMind>, named: Seq<char>) -> Seq<char> {
    if attached(minds).len() == 0 {
        "no mind called `"@ + named
            + "` is attached, and none is: an agent needs an attached mind"@
    } else {
        "no mind called `"@ + named + "` is attached; attached: "@ + text::join(
            attached(minds),
            ", "@,
        )
    }
}

fn attached_ids(minds: &[HostMind]) -> (r: Vec<String>)
    ensures
        text::strs(r@) == attached(minds@),
{
    let ghost f = |m: HostMind| !m.builtin;
    let ghost id = |m: HostMind| m.id@;
    let mut out: Vec<String> = Vec::new();
    let mut i: usize = 0;
    proof {
        seqs::lemma_filter_none(minds@, f);
        assert(text::strs(out@) =~= minds@.take(0).filter(f).map_values(id));
    }
    while i < minds.len()
        invariant
            i <= minds@.len(),
            f == (|m: HostMind| !m.builtin),
            id == (|m: HostMind| m.id@),
            text::strs(out@) == minds@.take(i as int).filter(f).map_values(id),
        decreases minds@.len() - i,
    {
        let ghost was = text::strs(out@);
        let ghost kept = minds@.take(i as int).filter(f);
        proof {
            seqs::lemma_filter_take(minds@, f, i as int);
        }
        if !minds[i].builtin {
            out.push(minds[i].id.clone());
            proof {
                assert(text::strs(out@) =~= was.push(minds@[i as int].id@));
                assert(kept.push(minds@[i as int]).map_values(id) =~= kept.map_values(id).push(
                    minds@[i as int].id@,
                ));
            }
        }
        i += 1;
    }
    assert(minds@.take(i as int) =~= minds@);
    out
}

/// The mind a caller named, as the host knows it.
pub fn mind_id(minds: &[HostMind], named: &str) -> (r: Result<String, String>)
    ensures
        match mind_of(minds@, named@) {
            Some(id) => r matches Ok(s) && s@ == id,
            None => r matches Err(why) && why@ == no_mind(minds@, named@),
        },
{
    let ghost f = has_id(named@);
    let mut i: usize = 0;
    while i < minds.len()
        invariant
            i <= minds@.len(),
            f == has_id(named@),
            seqs::first(minds@, f) == seqs::first_from(minds@, f, i as int),
        decreases minds@.len() - i,
    {
        if same(minds[i].id.as_str(), named) {
            return Ok(minds[i].id.clone());
        }
        i += 1;
    }
    let small = to_small(named);
    let ghost g = has_small_name(small@);
    let mut k: usize = 0;
    while k < minds.len()
        invariant
            k <= minds@.len(),
            small@ == text::small(named@),
            g == has_small_name(small@),
            seqs::first(minds@, has_id(named@)) == minds@.len(),
            seqs::first(minds@, g) == seqs::first_from(minds@, g, k as int),
        decreases minds@.len() - k,
    {
        if same(to_small(minds[k].name.as_str()).as_str(), small.as_str()) {
            return Ok(minds[k].id.clone());
        }
        k += 1;
    }
    let ids = attached_ids(minds);
    assert(text::strs(ids@).len() == ids@.len());
    let mut out = "no mind called `".to_owned();
    out.append(named);
    if ids.len() == 0 {
        out.append("` is attached, and none is: an agent needs an attached mind");
    } else {
        out.append("` is attached; attached: ");
        out.append(joined(ids.as_slice(), ", ").as_str());
    }
    Err(out)
}

// ── The acts ────────────────────────────────────────────────────────

/// An agent that is to be started.
#[derive(Debug)]
pub struct Starting {
    pub mind: String,
    pub parent: Option<AgentId>,
}

/// Why a plain agent is not started, where it is not. `held` is the role a caller is held to.
pub open spec fn no_agent(
    caller: Option<Seq<char>>,
    mind: Seq<char>,
    task: Seq<char>,
    held: Option<Seq<char>>,
    f: Seq<Started>,
    live: Seq<Seq<char>>,
    minds: Seq<HostMind>,
) -> Option<Seq<char>> {
    if text::blank(mind) {
        Some("`mind` is empty: an attached mind's id, as `describe shell` lists under `minds`."@)
    } else if text::blank(task) {
        Some("`task` is empty: what the new agent is to do."@)
    } else if caller is Some && held is Some {
        Some(
            "`"@ + caller->0 + "` is the "@ + held->0
                + ", which works within a reach, and an agent started on a mind alone has none. Hand the work to a role from the catalog with hand_off instead."@,
        )
    } else if caller is Some && no_child(f, caller->0, live) is Some {
        no_child(f, caller->0, live)
    } else if mind_of(minds, text::trim(mind)) is None {
        Some(no_mind(minds, text::trim(mind)))
    } else {
        None
    }
}

/// Decide whether a plain agent is started, and on which mind.
pub fn new_agent(
    caller: &Caller,
    mind: &str,
    task: &str,
    held: Option<&str>,
    family: &Family,
    live: &[AgentId],
    minds: &[HostMind],
) -> (r: Result<Starting, String>)
    ensures
        match no_agent(
            who(*caller),
            mind@,
            task@,
            text::maybe_str(held),
            family@,
            agents::ids(live@),
            minds@,
        ) {
            Some(why) => r matches Err(said) && said@ == why,
            None => r matches Ok(s) && mind_of(minds@, text::trim(mind@)) == Some(s.mind@)
                && name_of(s.parent) == who(*caller),
        },
{
    if is_blank(mind) {
        return Err(
            "`mind` is empty: an attached mind's id, as `describe shell` lists under `minds`.".to_owned(),
        );
    }
    if is_blank(task) {
        return Err("`task` is empty: what the new agent is to do.".to_owned());
    }
    let parent = match caller {
        Caller::NoAgent => None,
        Caller::Agent(me) => {
            if let Some(role) = held {
                let mut out = "`".to_owned();
                out.append(me.0.as_str());
                out.append("` is the ");
                out.append(role);
                out.append(
                    ", which works within a reach, and an agent started on a mind alone has none. Hand the work to a role from the catalog with hand_off instead.",
                );
                return Err(out);
            }
            match may_start_child(me, family, live) {
                Ok(()) => {},
                Err(why) => {
                    return Err(why);
                },
            }
            Some(me.copy())
        },
    };
    match mind_id(minds, trimmed(mind).as_str()) {
        Ok(mind) => Ok(Starting { mind, parent }),
        Err(why) => Err(why),
    }
}

/// A name as a value, and nothing where there is none.
pub open spec fn name_tree(a: Option<Seq<char>>) -> Tree {
    match a {
        Some(s) => Tree::Str(s),
        None => Tree::Null,
    }
}

fn name_json(a: &Option<AgentId>) -> (r: Json)
    ensures
        r@ == name_tree(name_of(*a)),
{
    match a {
        Some(p) => string(p.0.as_str()),
        None => Json::Null,
    }
}

/// What is said of an agent that was started.
pub open spec fn started_words(
    agent: Seq<char>,
    mind: Seq<char>,
    parent: Option<Seq<char>>,
) -> Seq<char> {
    let by = match parent {
        Some(p) => ", started by `"@ + p + "`"@,
        None => ""@,
    };
    "Started `"@ + agent + "` on "@ + mind + by
        + ". It is working on it now, in its own pane. `read_agent` with agent `"@ + agent
        + "` shows how it is going; `send_to_agent` says more; `stop_agent` stops it. It has none of your grants: anything it needs allowed is asked for again, in its pane."@
}

/// What `new_agent` answers.
pub fn started_answer(agent: &AgentId, how: &Starting) -> (r: Json)
    ensures
        r@ == Tree::Object(
            seq![
                ("agent"@, Tree::Str(agent@)),
                ("mind"@, Tree::Str(how.mind@)),
                ("parent"@, name_tree(name_of(how.parent))),
                ("state"@, Tree::Str("thinking"@)),
                (
                    "said"@,
                    Tree::Str(started_words(agent@, how.mind@, name_of(how.parent))),
                ),
            ],
        ),
{
    let by = match &how.parent {
        Some(p) => {
            let mut b = ", started by `".to_owned();
            b.append(p.0.as_str());
            b.append("`");
            b
        },
        None => "".to_owned(),
    };
    let mut said = "Started `".to_owned();
    said.append(agent.0.as_str());
    said.append("` on ");
    said.append(how.mind.as_str());
    said.append(by.as_str());
    said.append(". It is working on it now, in its own pane. `read_agent` with agent `");
    said.append(agent.0.as_str());
    said.append(
        "` shows how it is going; `send_to_agent` says more; `stop_agent` stops it. It has none of your grants: anything it needs allowed is asked for again, in its pane.",
    );
    assert(said@ == started_words(agent@, how.mind@, name_of(how.parent)));
    let mut o: Vec<(String, Json)> = Vec::new();
    put_last(&mut o, "agent", string(agent.0.as_str()));
    put_last(&mut o, "mind", string(how.mind.as_str()));
    put_last(&mut o, "parent", name_json(&how.parent));
    put_last(&mut o, "state", string("thinking"));
    put_last(&mut o, "said", Json::Str(said));
    assert(json::entries(o@) =~= seq![
        ("agent"@, Tree::Str(agent@)),
        ("mind"@, Tree::Str(how.mind@)),
        ("parent"@, name_tree(name_of(how.parent))),
        ("state"@, Tree::Str("thinking"@)),
        ("said"@, Tree::Str(started_words(agent@, how.mind@, name_of(how.parent)))),
    ]);
    Json::Object(o)
}

/// Decide whether something more is said to an agent.
pub fn send_to_agent(caller: &Caller, target: &AgentId, words: &str, family: &Family) -> (r: Result<
    (),
    String,
>)
    ensures
        if text::blank(words@) {
            r matches Err(why) && why@ == "`text` is empty: what to say to it."@
        } else if !directs(who(*caller), target@, family@) {
            r matches Err(why) && why@ == not_yours(target@, "send to"@)
        } else {
            r is Ok
        },
{
    if is_blank(words) {
        return Err("`text` is empty: what to say to it.".to_owned());
    }
    may_direct(caller, target, family, "send to")
}

/// What `send_to_agent` answers.
pub fn sent_answer(target: &AgentId) -> (r: Json)
    ensures
        r@ == Tree::Object(
            seq![
                ("agent"@, Tree::Str(target@)),
                ("sent"@, Tree::Bool(true)),
                (
                    "said"@,
                    Tree::Str(
                        "Sent to `"@ + target@
                            + "`; it is working on it now. `read_agent` shows its answer as it comes."@,
                    ),
                ),
            ],
        ),
{
    let mut said = "Sent to `".to_owned();
    said.append(target.0.as_str());
    said.append("`; it is working on it now. `read_agent` shows its answer as it comes.");
    let ghost words = said@;
    let mut o: Vec<(String, Json)> = Vec::new();
    put_last(&mut o, "agent", string(target.0.as_str()));
    put_last(&mut o, "sent", Json::Bool(true));
    put_last(&mut o, "said", Json::Str(said));
    assert(json::entries(o@) =~= seq![
        ("agent"@, Tree::Str(target@)),
        ("sent"@, Tree::Bool(true)),
        ("said"@, Tree::Str(words)),
    ]);
    Json::Object(o)
}

/// What is said of an agent that was stopped.
pub open spec fn stopped_words(
    target: Seq<char>,
    stopped: bool,
    commands: nat,
    children: Seq<Seq<char>>,
) -> Seq<char> {
    let head = if stopped || commands > 0 {
        "Stopped `"@ + target + "`"@
    } else {
        "`"@ + target + "` had nothing running; it is stopped all the same"@
    };
    let killed = if commands > 0 {
        head + ", and killed "@ + text::dec(commands) + " command"@ + (if commands == 1 {
            ""@
        } else {
            "s"@
        })
    } else {
        head
    };
    let with = if children.len() > 0 {
        killed + "; the agents it started stopped with it ("@ + text::join(children, ", "@) + ")"@
    } else {
        killed
    };
    with + ". Its pane stays readable on the Agents screen."@
}

fn id_texts(v: &[AgentId]) -> (r: Vec<String>)
    ensures
        text::strs(r@) == agents::ids(v@),
{
    let mut out: Vec<String> = Vec::new();
    let mut i: usize = 0;
    while i < v.len()
        invariant
            i <= v@.len(),
            out@.len() == i,
            forall|k: int| 0 <= k < i ==> (#[trigger] out@[k])@ == v@[k]@,
        decreases v@.len() - i,
    {
        out.push(v[i].0.clone());
        i += 1;
    }
    assert(text::strs(out@) =~= agents::ids(v@));
    out
}

/// Decide whether an agent is stopped: by a caller that may direct it, and never the built-in
/// companion.
pub fn stop_agent(caller: &Caller, target: &AgentId, family: &Family, builtin: &str) -> (r: Result<
    (),
    String,
>)
    ensures
        if !directs(who(*caller), target@, family@) {
            r matches Err(why) && why@ == not_yours(target@, "stop"@)
        } else if agents::harness_in(target@) == builtin@ {
            r matches Err(why) && why@
                == "The built-in companion answers in the Lens and cannot be stopped from here."@
        } else {
            r is Ok
        },
{
    match may_direct(caller, target, family, "stop") {
        Err(why) => Err(why),
        Ok(()) => launch::stop(target, builtin),
    }
}

/// What is said of an agent that was stopped.
pub fn stopped_said(target: &AgentId, s: &Stopped) -> (r: String)
    ensures
        r@ == stopped_words(target@, s.stopped, s.commands as nat, agents::ids(s.children@)),
{
    let mut said = if s.stopped || s.commands > 0 {
        let mut t = "Stopped `".to_owned();
        t.append(target.0.as_str());
        t.append("`");
        t
    } else {
        let mut t = "`".to_owned();
        t.append(target.0.as_str());
        t.append("` had nothing running; it is stopped all the same");
        t
    };
    if s.commands > 0 {
        said.append(", and killed ");
        said.append(decimal(s.commands as u64).as_str());
        said.append(" command");
        if s.commands == 1 {
            said.append("");
        } else {
            said.append("s");
        }
    }
    assert(agents::ids(s.children@).len() == s.children@.len());
    if s.children.len() > 0 {
        said.append("; the agents it started stopped with it (");
        said.append(joined(id_texts(s.children.as_slice()).as_slice(), ", ").as_str());
        said.append(")");
    }
    said.append(". Its pane stays readable on the Agents screen.");
    said
}

/// What `stop_agent` answers.
pub fn stopped_answer(target: &AgentId, s: &Stopped) -> (r: Json)
    ensures
        r@ == Tree::Object(
            seq![
                ("agent"@, Tree::Str(target@)),
                ("stopped"@, Tree::Bool(s.stopped)),
                ("commands_killed"@, Tree::Num(json::whole(s.commands as u64))),
                ("approvals_withdrawn"@, Tree::Num(json::whole(s.approvals as u64))),
                ("children_stopped"@, Tree::Array(json::string_trees(agents::ids(s.children@)))),
                (
                    "said"@,
                    Tree::Str(
                        stopped_words(
                            target@,
                            s.stopped,
                            s.commands as nat,
                            agents::ids(s.children@),
                        ),
                    ),
                ),
            ],
        ),
{
    let ids = id_texts(s.children.as_slice());
    let mut o: Vec<(String, Json)> = Vec::new();
    put_last(&mut o, "agent", string(target.0.as_str()));
    put_last(&mut o, "stopped", Json::Bool(s.stopped));
    put_last(&mut o, "commands_killed", number(s.commands as u64));
    put_last(&mut o, "approvals_withdrawn", number(s.approvals as u64));
    put_last(&mut o, "children_stopped", strings(ids.as_slice()));
    put_last(&mut o, "said", Json::Str(stopped_said(target, s)));
    assert(json::entries(o@) =~= seq![
        ("agent"@, Tree::Str(target@)),
        ("stopped"@, Tree::Bool(s.stopped)),
        ("commands_killed"@, Tree::Num(json::whole(s.commands as u64))),
        ("approvals_withdrawn"@, Tree::Num(json::whole(s.approvals as u64))),
        ("children_stopped"@, Tree::Array(json::string_trees(agents::ids(s.children@)))),
        (
            "said"@,
            Tree::Str(
                stopped_words(target@, s.stopped, s.commands as nat, agents::ids(s.children@)),
            ),
        ),
    ]);
    Json::Object(o)
}

/// An agent's session as it is read.
#[derive(Debug)]
pub struct Session {
    pub mind: String,
    pub state: String,
    /// Whether a card of its is up, or it says it waits for the person.
    pub approvals_pending: bool,
    pub waiting_for_you: bool,
    pub turns: u64,
    /// The turns that were asked for, as text.
    pub transcript: String,
}

pub open spec fn no_such_agent(target: Seq<char>) -> Seq<char> {
    "there is no agent `"@ + target
        + "` on this desktop; `describe shell` lists them under `agents`."@
}

/// What `read_agent` answers, and why it does not: so many turns are not given, the caller may not
/// read it, or there is no such agent. `last` is how many turns were asked for; the session's
/// transcript holds as many as [`turns_arg`] makes of it.
pub fn read_agent(
    caller: &Caller,
    target: &AgentId,
    last: Given,
    family: &Family,
    session: Option<&Session>,
) -> (r: Result<Json, String>)
    ensures
        if no_turns(last) is Some {
            r matches Err(why) && Some(why@) == no_turns(last)
        } else if !reads(who(*caller), target@, family@) {
            r matches Err(why) && why@ == not_yours(target@, "read"@)
        } else {
            match session {
                None => r matches Err(why) && why@ == no_such_agent(target@),
                Some(s) => r matches Ok(answer) && answer@ == Tree::Object(
                    seq![
                        ("agent"@, Tree::Str(target@)),
                        ("mind"@, Tree::Str(s.mind@)),
                        ("state"@, Tree::Str(s.state@)),
                        ("needs_you"@, Tree::Bool(s.approvals_pending || s.waiting_for_you)),
                        ("turns"@, Tree::Num(json::whole(s.turns))),
                        ("text"@, Tree::Str(s.transcript@)),
                    ],
                ),
            }
        },
{
    match turns_arg(last) {
        Ok(_) => {},
        Err(why) => {
            return Err(why);
        },
    }
    match may_read(caller, target, family) {
        Ok(()) => {},
        Err(why) => {
            return Err(why);
        },
    }
    match session {
        None => {
            let mut out = "there is no agent `".to_owned();
            out.append(target.0.as_str());
            out.append("` on this desktop; `describe shell` lists them under `agents`.");
            Err(out)
        },
        Some(s) => {
            let mut o: Vec<(String, Json)> = Vec::new();
            put_last(&mut o, "agent", string(target.0.as_str()));
            put_last(&mut o, "mind", string(s.mind.as_str()));
            put_last(&mut o, "state", string(s.state.as_str()));
            put_last(&mut o, "needs_you", Json::Bool(s.approvals_pending || s.waiting_for_you));
            put_last(&mut o, "turns", number(s.turns));
            put_last(&mut o, "text", string(s.transcript.as_str()));
            assert(json::entries(o@) =~= seq![
                ("agent"@, Tree::Str(target@)),
                ("mind"@, Tree::Str(s.mind@)),
                ("state"@, Tree::Str(s.state@)),
                ("needs_you"@, Tree::Bool(s.approvals_pending || s.waiting_for_you)),
                ("turns"@, Tree::Num(json::whole(s.turns))),
                ("text"@, Tree::Str(s.transcript@)),
            ]);
            Ok(Json::Object(o))
        },
    }
}

/// The agent whose pane goes on the person's screen, or why none does.
pub fn show_agent(args: &Json, family: &Family) -> (r: Result<AgentId, String>)
    ensures
        ({
            let named = json::argument(args@, "agent"@);
            if !names_agent(named) {
                r matches Err(why) && why@ == not_a_name(named)
            } else if seqs::first(family@, is_agent(named)) >= family@.len() {
                r matches Err(why) && why@ == no_such_agent(named)
            } else {
                r matches Ok(a) && a@ == named
            }
        }),
{
    let agent = match agent_arg(args) {
        Ok(a) => a,
        Err(why) => {
            return Err(why);
        },
    };
    if !family.knows(&agent) {
        let mut out = "there is no agent `".to_owned();
        out.append(agent.0.as_str());
        out.append("` on this desktop; `describe shell` lists them under `agents`.");
        return Err(out);
    }
    Ok(agent)
}

/// What `show_agent` answers once the pane is up. `raised` is whether the shell came forward.
pub fn showing_answer(agent: &AgentId, raised: bool) -> (r: Json)
    ensures
        r@ == Tree::Object(
            seq![("showing"@, Tree::Str(agent@)), ("raised"@, Tree::Bool(raised))],
        ),
{
    let mut o: Vec<(String, Json)> = Vec::new();
    put_last(&mut o, "showing", string(agent.0.as_str()));
    put_last(&mut o, "raised", Json::Bool(raised));
    assert(json::entries(o@) =~= seq![
        ("showing"@, Tree::Str(agent@)),
        ("raised"@, Tree::Bool(raised)),
    ]);
    Json::Object(o)
}

// ── Handing work to a role ──────────────────────────────────────────

/// A role from the catalog.
#[derive(Debug)]
pub struct Role {
    pub id: String,
    pub name: String,
    /// What it may touch, in words.
    pub reach: String,
    /// The most it may do, as a grade, and how high that grade is.
    pub ceiling: String,
    pub rank: u64,
    pub turns: u32,
    pub minutes: u32,
    /// The minds it runs on, the ones it would rather have first.
    pub runs_on: Vec<String>,
}

/// The reach a caller is held to.
pub struct OwnReach {
    pub name: String,
    pub ceiling: String,
    pub rank: u64,
}

/// A mind that is attached, and whether it can give an agent a conversation of its own.
pub struct Attached {
    pub id: String,
    pub conversations: bool,
}

pub open spec fn gives_one(id: Seq<char>) -> spec_fn(Attached) -> bool {
    |m: Attached| m.id@ == id && m.conversations
}

/// Whether a mind of this name is attached and can give an agent a conversation of its own.
pub open spec fn can_have(minds: Seq<Attached>) -> spec_fn(Seq<char>) -> bool {
    |id: Seq<char>| seqs::first(minds, gives_one(id)) < minds.len()
}

fn has_own_conversation(minds: &[Attached], id: &str) -> (r: bool)
    ensures
        r == can_have(minds@)(id@),
{
    let ghost g = gives_one(id@);
    let mut k: usize = 0;
    while k < minds.len()
        invariant
            k <= minds@.len(),
            g == gives_one(id@),
            seqs::first(minds@, g) == seqs::first_from(minds@, g, k as int),
        decreases minds@.len() - k,
    {
        if minds[k].conversations && same(minds[k].id.as_str(), id) {
            return true;
        }
        k += 1;
    }
    false
}

pub open spec fn goes_by(id: Seq<char>) -> spec_fn(Attached) -> bool {
    |m: Attached| m.id@ == id
}

/// Whether a mind of this name is attached.
pub open spec fn is_there(minds: Seq<Attached>) -> spec_fn(Seq<char>) -> bool {
    |id: Seq<char>| seqs::first(minds, goes_by(id)) < minds.len()
}

fn is_attached(minds: &[Attached], id: &str) -> (r: bool)
    ensures
        r == is_there(minds@)(id@),
{
    let ghost g = goes_by(id@);
    let mut k: usize = 0;
    while k < minds.len()
        invariant
            k <= minds@.len(),
            g == goes_by(id@),
            seqs::first(minds@, g) == seqs::first_from(minds@, g, k as int),
        decreases minds@.len() - k,
    {
        if same(minds[k].id.as_str(), id) {
            return true;
        }
        k += 1;
    }
    false
}

/// What is said of each mind that is attached and has no conversation to give.
pub open spec fn taken(ids: Seq<Seq<char>>) -> Seq<Seq<char>> {
    Seq::new(
        ids.len(),
        |i: int| "; "@ + ids[i] + " holds one conversation at a time \u{2014} the person's own"@,
    )
}

/// What is said where none of the minds a role runs on can be had: which they are, and which of
/// them are attached all the same.
pub open spec fn no_mind_text(name: Seq<char>, list: Seq<Seq<char>>, minds: Seq<Attached>) -> Seq<
    char,
> {
    "No mind the "@ + name + " runs on is attached: it runs on "@ + text::join(list, ", "@)
        + text::join(taken(list.filter(is_there(minds))), ""@) + "."@
}

/// The first mind of a role's list that is attached and can give it a conversation of its own.
pub open spec fn runs_at(role: Role, minds: Seq<Attached>) -> Seq<char> {
    let list = text::strs(role.runs_on@);
    list[seqs::first(list, can_have(minds))]
}

/// Why there is no mind for a role to run on, where there is none.
pub open spec fn nowhere_to_run(role: Role, minds: Seq<Attached>) -> Option<Seq<char>> {
    let list = text::strs(role.runs_on@);
    if seqs::first(list, can_have(minds)) < list.len() {
        None
    } else {
        Some(no_mind_text(role.name@, list, minds))
    }
}

fn no_mind_for(role: &Role, minds: &[Attached]) -> (r: String)
    ensures
        r@ == no_mind_text(role.name@, text::strs(role.runs_on@), minds@),
{
    let ghost list = text::strs(role.runs_on@);
    let ghost f = is_there(minds@);
    let mut clauses: Vec<String> = Vec::new();
    let mut i: usize = 0;
    proof {
        seqs::lemma_filter_none(list, f);
        assert(text::strs(clauses@) =~= taken(list.take(0).filter(f)));
    }
    while i < role.runs_on.len()
        invariant
            i <= role.runs_on@.len(),
            list == text::strs(role.runs_on@),
            f == is_there(minds@),
            text::strs(clauses@) == taken(list.take(i as int).filter(f)),
        decreases role.runs_on@.len() - i,
    {
        let ghost before = list.take(i as int).filter(f);
        let ghost was = text::strs(clauses@);
        proof {
            seqs::lemma_filter_take(list, f, i as int);
        }
        assert(list[i as int] == role.runs_on@[i as int]@);
        if is_attached(minds, role.runs_on[i].as_str()) {
            let mut clause = "; ".to_owned();
            clause.append(role.runs_on[i].as_str());
            clause.append(" holds one conversation at a time \u{2014} the person's own");
            let ghost c = clause@;
            clauses.push(clause);
            assert(text::strs(clauses@) =~= was.push(c));
            assert(taken(before.push(list[i as int])) =~= was.push(c));
        }
        i += 1;
    }
    assert(list.take(i as int) =~= list);
    let mut out = "No mind the ".to_owned();
    out.append(role.name.as_str());
    out.append(" runs on is attached: it runs on ");
    out.append(joined(role.runs_on.as_slice(), ", ").as_str());
    out.append(joined(clauses.as_slice(), "").as_str());
    out.append(".");
    out
}

/// The mind a role runs on: the first of its list that is attached and can give it a conversation
/// of its own. Where there is none, what is said instead.
pub fn pick_mind(role: &Role, minds: &[Attached]) -> (r: Result<String, String>)
    ensures
        match nowhere_to_run(*role, minds@) {
            None => r matches Ok(id) && id@ == runs_at(*role, minds@),
            Some(why) => r matches Err(said) && said@ == why,
        },
{
    let ghost list = text::strs(role.runs_on@);
    let ghost f = can_have(minds@);
    let mut i: usize = 0;
    while i < role.runs_on.len()
        invariant
            i <= role.runs_on@.len(),
            list == text::strs(role.runs_on@),
            f == can_have(minds@),
            seqs::first(list, f) == seqs::first_from(list, f, i as int),
        decreases role.runs_on@.len() - i,
    {
        assert(list[i as int] == role.runs_on@[i as int]@);
        if has_own_conversation(minds, role.runs_on[i].as_str()) {
            return Ok(role.runs_on[i].clone());
        }
        i += 1;
    }
    Err(no_mind_for(role, minds))
}

/// Why work is not handed to a role, where it is not. `listing` is what the catalog has.
pub open spec fn no_hand_off(
    caller: Option<Seq<char>>,
    named: Seq<char>,
    role: Option<Role>,
    listing: Seq<char>,
    task: Seq<char>,
    context: Seq<char>,
    mine: Option<OwnReach>,
    f: Seq<Started>,
    live: Seq<Seq<char>>,
    minds: Seq<Attached>,
) -> Option<Seq<char>> {
    if text::blank(named) {
        Some("`role` is empty: a role from the catalog \u{2014} "@ + listing + "."@)
    } else if role is None {
        Some(
            "There is no role `"@ + text::trim(named) + "` in the catalog; it has "@ + listing
                + ". `describe shell` lists them under `catalog`."@,
        )
    } else if text::blank(task) {
        Some("`task` is empty: what the "@ + role->0.name@ + " is to do."@)
    } else if config_store::byte_len(context) > CONTEXT_MOST_BYTES {
        Some(
            "`context` is "@ + text::dec((config_store::byte_len(context) / 1024) as nat)
                + " KiB; at most 32 KiB goes into a first turn. Put the rest in a file and name it in the task."@,
        )
    } else if caller is Some && no_child(f, caller->0, live) is Some {
        no_child(f, caller->0, live)
    } else if caller is Some && mine is Some && role->0.rank > mine->0.rank {
        Some(
            "`"@ + caller->0 + "` is the "@ + mine->0.name@ + ", at most `"@ + mine->0.ceiling@
                + "`, and cannot hand work to the "@ + role->0.name@
                + ", whose reach goes up to `"@ + role->0.ceiling@
                + "`: a role never hands work above its own ceiling."@,
        )
    } else {
        nowhere_to_run(role->0, minds)
    }
}

pub open spec fn role_of(r: Option<&Role>) -> Option<Role> {
    match r {
        Some(r) => Some(*r),
        None => None,
    }
}

pub open spec fn reach_of(r: Option<&OwnReach>) -> Option<OwnReach> {
    match r {
        Some(r) => Some(*r),
        None => None,
    }
}

/// Work that is to be handed to a role: the agent that hands it over, where one does, and the mind
/// the role runs on.
#[derive(Debug, PartialEq, Eq)]
pub struct HandOff {
    pub parent: Option<AgentId>,
    pub mind: String,
}

/// Decide whether work is handed to a role, by whom and on which mind: the rules of a new agent,
/// never above the caller's own ceiling, and only where a mind the role runs on can be had.
pub fn hand_off(
    caller: &Caller,
    named: &str,
    role: Option<&Role>,
    listing: &str,
    task: &str,
    context: &str,
    mine: Option<&OwnReach>,
    family: &Family,
    live: &[AgentId],
    minds: &[Attached],
) -> (r: Result<HandOff, String>)
    ensures
        match no_hand_off(
            who(*caller),
            named@,
            role_of(role),
            listing@,
            task@,
            context@,
            reach_of(mine),
            family@,
            agents::ids(live@),
            minds@,
        ) {
            Some(why) => r matches Err(said) && said@ == why,
            None => r matches Ok(how) && name_of(how.parent) == who(*caller) && role is Some
                && how.mind@ == runs_at(*role->0, minds@),
        },
{
    if is_blank(named) {
        let mut out = "`role` is empty: a role from the catalog \u{2014} ".to_owned();
        out.append(listing);
        out.append(".");
        return Err(out);
    }
    let role = match role {
        Some(role) => role,
        None => {
            let mut out = "There is no role `".to_owned();
            out.append(trimmed(named).as_str());
            out.append("` in the catalog; it has ");
            out.append(listing);
            out.append(". `describe shell` lists them under `catalog`.");
            return Err(out);
        },
    };
    if is_blank(task) {
        let mut out = "`task` is empty: what the ".to_owned();
        out.append(role.name.as_str());
        out.append(" is to do.");
        return Err(out);
    }
    if context.len() > CONTEXT_MOST_BYTES {
        let mut out = "`context` is ".to_owned();
        out.append(decimal((context.len() / 1024) as u64).as_str());
        out.append(
            " KiB; at most 32 KiB goes into a first turn. Put the rest in a file and name it in the task.",
        );
        return Err(out);
    }
    let parent = match caller {
        Caller::NoAgent => None,
        Caller::Agent(me) => {
            match may_start_child(me, family, live) {
                Ok(()) => {},
                Err(why) => {
                    return Err(why);
                },
            }
            if let Some(mine) = mine {
                if role.rank > mine.rank {
                    let mut out = "`".to_owned();
                    out.append(me.0.as_str());
                    out.append("` is the ");
                    out.append(mine.name.as_str());
                    out.append(", at most `");
                    out.append(mine.ceiling.as_str());
                    out.append("`, and cannot hand work to the ");
                    out.append(role.name.as_str());
                    out.append(", whose reach goes up to `");
                    out.append(role.ceiling.as_str());
                    out.append("`: a role never hands work above its own ceiling.");
                    return Err(out);
                }
            }
            Some(me.copy())
        },
    };
    match pick_mind(role, minds) {
        Ok(mind) => Ok(HandOff { parent, mind }),
        Err(why) => Err(why),
    }
}

/// Decide whether the person, on the Agents screen, hands work to a role: as nobody's agent, with
/// nothing to read first. Answers with the mind it runs on.
pub fn hand_off_from_screen(
    named: &str,
    role: Option<&Role>,
    listing: &str,
    task: &str,
    minds: &[Attached],
) -> (r: Result<String, String>)
    ensures
        match no_hand_off(
            None,
            named@,
            role_of(role),
            listing@,
            task@,
            ""@,
            None,
            Seq::empty(),
            Seq::empty(),
            minds@,
        ) {
            Some(why) => r matches Err(said) && said@ == why,
            None => r matches Ok(mind) && role is Some && mind@ == runs_at(*role->0, minds@),
        },
{
    let family = Family::new();
    let live: Vec<AgentId> = Vec::new();
    assert(family@ =~= Seq::empty());
    assert(agents::ids(live@) =~= Seq::empty());
    match hand_off(
        &Caller::NoAgent,
        named,
        role,
        listing,
        task,
        "",
        None,
        &family,
        live.as_slice(),
        minds,
    ) {
        Ok(how) => Ok(how.mind),
        Err(why) => Err(why),
    }
}

/// What a role's budget asks for next.
#[derive(Clone, Copy, PartialEq, Eq, Debug, Structural)]
pub enum Budget {
    /// Look again after so many seconds.
    Wait(u64),
    /// Time is up: stop it.
    Stop,
    /// It is stopped already.
    Over,
}

/// What a role's budget asks for next, given how many seconds it has run and whether it still
/// does: it is looked at every five seconds.
pub fn watch_budget(minutes: u32, elapsed_secs: u64, live: bool) -> (r: Budget)
    ensures
        r == if !live {
            Budget::Over
        } else if elapsed_secs >= minutes * 60 {
            Budget::Stop
        } else if minutes * 60 - elapsed_secs < 5 {
            Budget::Wait((minutes * 60 - elapsed_secs) as u64)
        } else {
            Budget::Wait(5)
        },
{
    if !live {
        return Budget::Over;
    }
    let budget: u64 = minutes as u64 * 60;
    if elapsed_secs >= budget {
        return Budget::Stop;
    }
    let left: u64 = budget - elapsed_secs;
    if left < 5 {
        Budget::Wait(left)
    } else {
        Budget::Wait(5)
    }
}

/// What an agent's pane says once its budget ran out.
pub fn budget_note(minutes: u32, name: &str) -> (r: String)
    ensures
        r@ == "Its budget of "@ + text::dec(minutes as nat) + " minutes as the "@ + name@
            + " ran out, so it was stopped."@,
{
    let mut out = "Its budget of ".to_owned();
    out.append(decimal(minutes as u64).as_str());
    out.append(" minutes as the ");
    out.append(name);
    out.append(" ran out, so it was stopped.");
    out
}

/// A piece of a turn.
pub enum Item {
    Text(String),
    /// What the shell noted.
    Note(String),
    Other,
}

/// A turn of an agent.
pub struct Turn {
    pub prompt: String,
    pub items: Vec<Item>,
    pub ended: bool,
    /// How it ended, where it did.
    pub ok: Option<bool>,
}

/// What the first `n` pieces of a turn say: its text, and, where it did not end well, the notes.
pub open spec fn told_to(items: Seq<Item>, well: bool, n: int) -> Seq<char>
    decreases n,
{
    if n <= 0 {
        Seq::empty()
    } else {
        let before = told_to(items, well, n - 1);
        match items[n - 1] {
            Item::Text(t) => before + t@,
            Item::Note(t) => if well {
                before
            } else {
                before + ("\n["@ + t@ + "]\n"@)
            },
            Item::Other => before,
        }
    }
}

/// What a turn said in words, cut to what is handed back.
pub open spec fn turn_words(t: Turn) -> Seq<char> {
    let said = text::trim(told_to(t.items@, t.ok == Some(true), t.items@.len() as int));
    if config_store::byte_len(said) <= ANSWER_MOST_BYTES {
        said
    } else {
        let k = text::fitting(said, ANSWER_MOST_BYTES as int) as int;
        said.take(k) + "\n\u{2026} "@ + text::dec(
            config_store::byte_len(said.skip(k)) as nat,
        ) + " more bytes; `read_agent` has the rest."@
    }
}

/// What a turn said, in words.
pub fn turn_text(turn: &Turn) -> (r: String)
    ensures
        r@ == turn_words(*turn),
{
    let well = match turn.ok {
        Some(true) => true,
        _ => false,
    };
    let mut told = String::new();
    assert(told@ =~= Seq::<char>::empty());
    let mut i: usize = 0;
    while i < turn.items.len()
        invariant
            i <= turn.items@.len(),
            well == (turn.ok == Some(true)),
            told@ == told_to(turn.items@, well, i as int),
        decreases turn.items@.len() - i,
    {
        match &turn.items[i] {
            Item::Text(t) => {
                told.append(t.as_str());
            },
            Item::Note(t) => {
                if !well {
                    let mut line = "\n[".to_owned();
                    line.append(t.as_str());
                    line.append("]\n");
                    told.append(line.as_str());
                }
            },
            Item::Other => {},
        }
        i += 1;
    }
    let said = trimmed(told.as_str());
    if said.as_str().len() <= ANSWER_MOST_BYTES {
        return said;
    }
    let v = chars_of(said.as_str());
    let k = fits(v.as_slice(), ANSWER_MOST_BYTES);
    assert(v@.subrange(0, k as int) =~= v@.take(k as int));
    let mut out = part(v.as_slice(), 0, k);
    let left = rest(v.as_slice(), k);
    out.append("\n\u{2026} ");
    out.append(decimal(left.as_str().len() as u64).as_str());
    out.append(" more bytes; `read_agent` has the rest.");
    out
}

/// How a role's first turn came out, as far as a wait saw.
#[derive(Clone, Debug, PartialEq)]
pub struct Answered {
    /// Its first turn ended within the wait.
    pub done: bool,
    /// And ended well.
    pub ok: bool,
    /// What it said in that turn.
    pub text: String,
}

pub open spec fn prompted() -> spec_fn(Turn) -> bool {
    |t: Turn| t.prompt@.len() > 0
}

/// What a role's first turn said, once it has ended.
pub fn first_answer(turns: &[Turn]) -> (r: Option<Answered>)
    ensures
        ({
            let i = seqs::first(turns@, prompted());
            if i < turns@.len() && turns@[i].ended {
                r matches Some(a) && a.done && a.ok == (turns@[i].ok == Some(true)) && a.text@
                    == turn_words(turns@[i])
            } else {
                r is None
            }
        }),
{
    let ghost f = prompted();
    let mut i: usize = 0;
    while i < turns.len()
        invariant
            i <= turns@.len(),
            f == prompted(),
            seqs::first(turns@, f) == seqs::first_from(turns@, f, i as int),
        decreases turns@.len() - i,
    {
        if !turns[i].prompt.as_str().is_empty() {
            if !turns[i].ended {
                return None;
            }
            let ok = match turns[i].ok {
                Some(true) => true,
                _ => false,
            };
            return Some(Answered { done: true, ok, text: turn_text(&turns[i]) });
        }
        i += 1;
    }
    None
}

/// What a wait for a role's answer comes to when it looks: the answer where its first turn has
/// ended, that there is none yet where the wait is over, and nothing where it looks again.
pub fn wait_for_answer(turns: &[Turn], over: bool) -> (r: Option<Answered>)
    ensures
        ({
            let i = seqs::first(turns@, prompted());
            if i < turns@.len() && turns@[i].ended {
                r matches Some(a) && a.done && a.ok == (turns@[i].ok == Some(true)) && a.text@
                    == turn_words(turns@[i])
            } else if over {
                r matches Some(a) && !a.done && !a.ok && a.text@.len() == 0
            } else {
                r is None
            }
        }),
{
    match first_answer(turns) {
        Some(a) => Some(a),
        None => if over {
            Some(Answered { done: false, ok: false, text: String::new() })
        } else {
            None
        },
    }
}

/// Work that was handed to a role.
#[derive(Debug)]
pub struct Handed {
    pub agent: AgentId,
    pub role: Role,
    pub mind: String,
}

/// Who work was handed to.
pub open spec fn handed_to(h: Handed) -> Seq<char> {
    "the "@ + h.role.name@ + " (`"@ + h.agent@ + "`, on "@ + h.mind@ + ")"@
}

pub open spec fn follow(agent: Seq<char>) -> Seq<char> {
    "`read_agent` with agent `"@ + agent
        + "` shows how it is going; `send_to_agent` says more; `stop_agent` stops it."@
}

/// What is said of work that was handed over: that it was, what came back, or that it is still
/// being done.
pub open spec fn handed_words(h: Handed, waited: Option<(u64, Answered)>) -> Seq<char> {
    match waited {
        None => "Handed to "@ + handed_to(h)
            + ". It works on its own, in its own pane, within its reach ("@ + h.role.reach@
            + "), for up to "@ + text::dec(h.role.turns as nat) + " turns and "@ + text::dec(
            h.role.minutes as nat,
        ) + " minutes, and it has none of your grants. "@ + follow(h.agent@),
        Some((secs, a)) => if a.done {
            text::capitalised(handed_to(h)) + " "@ + (if a.ok {
                "answered"@
            } else {
                "could not finish; what it said"@
            }) + ":\n\n"@ + (if a.text@.len() == 0 {
                "(it said nothing)"@
            } else {
                a.text@
            })
        } else {
            "Handed to "@ + handed_to(h) + "; it is still working after "@ + text::dec(secs as nat)
                + " s. "@ + follow(h.agent@)
        },
    }
}

/// What every answer of a hand-off starts with.
pub open spec fn handed_head(h: Handed) -> Seq<json::Entry> {
    seq![
        ("agent"@, Tree::Str(h.agent@)),
        ("role"@, Tree::Str(h.role.id@)),
        ("role_name"@, Tree::Str(h.role.name@)),
        ("mind"@, Tree::Str(h.mind@)),
        ("reach"@, Tree::Str(h.role.reach@)),
        (
            "budget"@,
            Tree::Object(
                seq![
                    ("turns"@, Tree::Num(json::whole(h.role.turns as u64))),
                    ("minutes"@, Tree::Num(json::whole(h.role.minutes as u64))),
                ],
            ),
        ),
    ]
}

/// What a hand-off answers.
pub open spec fn handed_tree(h: Handed, waited: Option<(u64, Answered)>) -> Tree {
    let head = handed_head(h);
    let body = match waited {
        None => head,
        Some((_, a)) => if a.done {
            head.push(("done"@, Tree::Bool(true))).push(("ok"@, Tree::Bool(a.ok))).push(
                ("answer"@, Tree::Str(a.text@)),
            )
        } else {
            head.push(("done"@, Tree::Bool(false)))
        },
    };
    Tree::Object(body.push(("said"@, Tree::Str(handed_words(h, waited)))))
}

impl Handed {
    fn named(&self) -> (r: String)
        ensures
            r@ == handed_to(*self),
    {
        let mut out = "the ".to_owned();
        out.append(self.role.name.as_str());
        out.append(" (`");
        out.append(self.agent.0.as_str());
        out.append("`, on ");
        out.append(self.mind.as_str());
        out.append(")");
        out
    }

    fn follow_up(&self) -> (r: String)
        ensures
            r@ == follow(self.agent@),
    {
        let mut out = "`read_agent` with agent `".to_owned();
        out.append(self.agent.0.as_str());
        out.append("` shows how it is going; `send_to_agent` says more; `stop_agent` stops it.");
        out
    }

    fn said(&self, waited: &Option<(u64, Answered)>) -> (r: String)
        ensures
            r@ == handed_words(*self, *waited),
    {
        match waited {
            None => {
                let mut out = "Handed to ".to_owned();
                out.append(self.named().as_str());
                out.append(". It works on its own, in its own pane, within its reach (");
                out.append(self.role.reach.as_str());
                out.append("), for up to ");
                out.append(decimal(self.role.turns as u64).as_str());
                out.append(" turns and ");
                out.append(decimal(self.role.minutes as u64).as_str());
                out.append(" minutes, and it has none of your grants. ");
                out.append(self.follow_up().as_str());
                out
            },
            Some((secs, a)) => {
                if a.done {
                    let mut out = capitalise(self.named().as_str());
                    out.append(" ");
                    if a.ok {
                        out.append("answered");
                    } else {
                        out.append("could not finish; what it said");
                    }
                    out.append(":\n\n");
                    if a.text.as_str().is_empty() {
                        out.append("(it said nothing)");
                    } else {
                        out.append(a.text.as_str());
                    }
                    out
                } else {
                    let mut out = "Handed to ".to_owned();
                    out.append(self.named().as_str());
                    out.append("; it is still working after ");
                    out.append(decimal(*secs).as_str());
                    out.append(" s. ");
                    out.append(self.follow_up().as_str());
                    out
                }
            },
        }
    }

    /// What a hand-off answers: the agent, the role, where it runs and what it may touch, and,
    /// after a wait of so many seconds, what it said or that it is still working.
    pub fn answer(&self, waited: Option<(u64, Answered)>) -> (r: Json)
        ensures
            r@ == handed_tree(*self, waited),
    {
        let mut b: Vec<(String, Json)> = Vec::new();
        put_last(&mut b, "turns", number(self.role.turns as u64));
        put_last(&mut b, "minutes", number(self.role.minutes as u64));
        assert(json::entries(b@) =~= seq![
            ("turns"@, Tree::Num(json::whole(self.role.turns as u64))),
            ("minutes"@, Tree::Num(json::whole(self.role.minutes as u64))),
        ]);
        let mut o: Vec<(String, Json)> = Vec::new();
        put_last(&mut o, "agent", string(self.agent.0.as_str()));
        put_last(&mut o, "role", string(self.role.id.as_str()));
        put_last(&mut o, "role_name", string(self.role.name.as_str()));
        put_last(&mut o, "mind", string(self.mind.as_str()));
        put_last(&mut o, "reach", string(self.role.reach.as_str()));
        put_last(&mut o, "budget", Json::Object(b));
        assert(json::entries(o@) =~= handed_head(*self));
        let said = self.said(&waited);
        if let Some((_, a)) = &waited {
            if a.done {
                put_last(&mut o, "done", Json::Bool(true));
                put_last(&mut o, "ok", Json::Bool(a.ok));
                put_last(&mut o, "answer", string(a.text.as_str()));
            } else {
                put_last(&mut o, "done", Json::Bool(false));
            }
        }
        put_last(&mut o, "said", Json::Str(said));
        Json::Object(o)
    }
}

/// Whether an agent may be shown asking for an act: one held to no reach may, and one held to a
/// reach exactly where the reach says so. `says` is what its reach says of the act.
pub fn within_reach(reaches: &Reaches, agent: &AgentId, says: Result<(), String>) -> (r: Result<
    (),
    String,
>)
    ensures
        r == if agents::reaches::reach_for(reaches@, agent@) is Some {
            says
        } else {
            Ok(())
        },
{
    match reaches.of(agent.0.as_str()) {
        Some(_) => says,
        None => Ok(()),
    }
}

// ── Published actions ───────────────────────────────────────────────

pub const ABOUT_NEW_AGENT: &'static str =
    "Start another agent \u{2014} a new conversation with a mind \u{2014} and give it a task. It works on its own, in its own pane on the Agents screen, and its row says you started it. Answers at once with its id; `read_agent` shows how it is going, `send_to_agent` says more, `stop_agent` stops it. It starts with nothing of yours: no grants, and anything it needs allowed is asked for again, in its own pane. An agent another agent started cannot start agents; one agent holds at most 3 running at once, and the desktop caps how many run in all. You are the agent named by the agent token your call carries beside `args` (YANTRIK_AGENT_TOKEN in yos's environment) \u{2014} never an argument; with no token, the call is the person's.";

pub const ABOUT_NEW_AGENT_MIND: &'static str =
    "Which mind: an attached one's id as `describe shell` lists under `minds` (pi, deepseek)";

pub const ABOUT_SEND_TO_AGENT: &'static str =
    "Say more to an agent you started \u{2014} its next prompt. Answers once it is sent; `read_agent` shows the answer as it comes. One turn at a time: an agent still on its last turn is not sent another. You are the agent named by the agent token your call carries beside `args` (YANTRIK_AGENT_TOKEN in yos's environment) \u{2014} never an argument; with no token, the call is the person's.";

pub const ABOUT_STOP_AGENT: &'static str =
    "Stop an agent you started: its turn is ended, every command it is running is killed (the whole process group), any approval it is waiting on is withdrawn, and the agents it started stop with it. Its pane stays readable. You are the agent named by the agent token your call carries beside `args` (YANTRIK_AGENT_TOKEN in yos's environment) \u{2014} never an argument; with no token, the call is the person's.";

pub const ABOUT_READ_AGENT: &'static str =
    "Read an agent's recent turns as text: what it was asked, what it said, each call it made with how it went and the end of its output, and what the person was asked for it. You may read yourself and the agents you started. You are the agent named by the agent token your call carries beside `args` (YANTRIK_AGENT_TOKEN in yos's environment) \u{2014} never an argument; with no token, the call is the person's.";

pub const ABOUT_SHOW_AGENT: &'static str =
    "Put one agent's pane on the person's screen: the Agents screen, with that agent selected. Changes nothing about the agent.";

pub const ABOUT_HAND_OFF: &'static str =
    "Hand a piece of work to a role from the agent catalog \u{2014} Researcher, Planner, Coder, Red team, Writer, Chair, Scribe, or the person's own; `describe shell` lists them under `catalog` with what each is for, what it may touch and whether a mind it runs on is attached. It starts that role's agent on its first attached mind, in its own pane, with the role's standing instructions, your task and your context as its first prompt. It can act only within the role's reach: anything else it tries is refused. Without `wait_seconds` it answers at once with the agent's id; with it, it waits up to that long for the role's answer and hands it back. It starts with nothing of yours: no grants. An agent another agent started cannot hand off; one agent holds at most 3 running at once, and the desktop caps how many run in all. You are the agent named by the agent token your call carries beside `args` (YANTRIK_AGENT_TOKEN in yos's environment) \u{2014} never an argument; with no token, the call is the person's.";

pub const ABOUT_HAND_OFF_ROLE: &'static str =
    "The role: its id as `describe shell` lists under `catalog` (coder, red-team \u{2026}), or its name";

pub const ABOUT_HAND_OFF_TASK: &'static str =
    "What it is to do, in full: its first prompt, after the role's own instructions";

pub const ABOUT_HAND_OFF_CONTEXT: &'static str =
    "What it should read first \u{2014} the change to review, the answers to weigh. At most 32 KiB";

pub const ABOUT_HAND_OFF_WAIT_SECONDS: &'static str =
    "Seconds to wait for its answer. Left out, the answer is its id at once. At most 600";

/// The actions this module publishes.
pub open spec fn published() -> Seq<Listing> {
    Seq::<Listing>::empty().push(
        Listing::new("new_agent"@, ABOUT_NEW_AGENT@).risk("sensitive"@)
            .arg(Takes::new("mind"@, ParamKind::Text).described(ABOUT_NEW_AGENT_MIND@))
            .arg(Takes::new("task"@, ParamKind::Text).described("What it is to do: its first prompt, in full"@)),
    ).push(
        Listing::new("send_to_agent"@, ABOUT_SEND_TO_AGENT@)
            .arg(Takes::new("agent"@, ParamKind::Text).described("The agent, as new_agent answered: `<mind>:<conversation>`"@))
            .arg(Takes::new("text"@, ParamKind::Text).described("What to say to it"@)),
    ).push(
        Listing::new("stop_agent"@, ABOUT_STOP_AGENT@)
            .arg(Takes::new("agent"@, ParamKind::Text).described("The agent, as new_agent answered: `<mind>:<conversation>`"@)),
    ).push(
        Listing::new("read_agent"@, ABOUT_READ_AGENT@).risk("safe"@)
            .arg(Takes::new("agent"@, ParamKind::Text).described("The agent, as new_agent answered: `<mind>:<conversation>`"@))
            .arg(Takes::new("last"@, ParamKind::Number).left_out().described("How many of its latest turns. Default 3, at most 20"@)),
    ).push(
        Listing::new("show_agent"@, ABOUT_SHOW_AGENT@).risk("safe"@)
            .arg(Takes::new("agent"@, ParamKind::Text).described("The agent: `<mind>:<conversation>`"@)),
    ).push(
        Listing::new("hand_off"@, ABOUT_HAND_OFF@).risk("sensitive"@)
            .arg(Takes::new("role"@, ParamKind::Text).described(ABOUT_HAND_OFF_ROLE@))
            .arg(Takes::new("task"@, ParamKind::Text).described(ABOUT_HAND_OFF_TASK@))
            .arg(Takes::new("context"@, ParamKind::Text).left_out().described(ABOUT_HAND_OFF_CONTEXT@))
            .arg(Takes::new("wait_seconds"@, ParamKind::Number).left_out().described(ABOUT_HAND_OFF_WAIT_SECONDS@)),
    )
}

/// The actions this module publishes.
pub fn actions() -> (r: Vec<Action>)
    ensures
        surface::shown(r@) == published(),
{
    let mut out: Vec<Action> = Vec::new();
    assert(surface::shown(out@) =~= Seq::<Listing>::empty());
    add_action(
        &mut out,
        Action::new("new_agent", ABOUT_NEW_AGENT).risk("sensitive")
            .arg(Param::text("mind").describe(ABOUT_NEW_AGENT_MIND))
            .arg(Param::text("task").describe("What it is to do: its first prompt, in full")),
    );
    add_action(
        &mut out,
        Action::new("send_to_agent", ABOUT_SEND_TO_AGENT)
            .arg(Param::text("agent").describe("The agent, as new_agent answered: `<mind>:<conversation>`"))
            .arg(Param::text("text").describe("What to say to it")),
    );
    add_action(
        &mut out,
        Action::new("stop_agent", ABOUT_STOP_AGENT)
            .arg(Param::text("agent").describe("The agent, as new_agent answered: `<mind>:<conversation>`")),
    );
    add_action(
        &mut out,
        Action::new("read_agent", ABOUT_READ_AGENT).risk("safe")
            .arg(Param::text("agent").describe("The agent, as new_agent answered: `<mind>:<conversation>`"))
            .arg(Param::number("last").optional().describe("How many of its latest turns. Default 3, at most 20")),
    );
    add_action(
        &mut out,
        Action::new("show_agent", ABOUT_SHOW_AGENT).risk("safe")
            .arg(Param::text("agent").describe("The agent: `<mind>:<conversation>`")),
    );
    add_action(
        &mut out,
        Action::new("hand_off", ABOUT_HAND_OFF).risk("sensitive")
            .arg(Param::text("role").describe(ABOUT_HAND_OFF_ROLE))
            .arg(Param::text("task").describe(ABOUT_HAND_OFF_TASK))
            .arg(Param::text("context").optional().describe(ABOUT_HAND_OFF_CONTEXT))
            .arg(Param::number("wait_seconds").optional().describe(ABOUT_HAND_OFF_WAIT_SECONDS)),
    );
    out
}

// ── Laws ────────────────────────────────────────────────────────────

/// An agent that another agent or a recipe started can start none: whoever may start one was
/// started by neither, and holds fewer than the most.
pub proof fn law_one_level_and_so_many(f: Seq<Started>, parent: Seq<char>, live: Seq<Seq<char>>)
    ensures
        no_child(f, parent, live) is None <==> parent_in(f, parent) is None && recipe_in(f, parent)
            is None && f.filter(held_by(parent, live)).len() < MAX_CHILDREN,
{
    assert(names(f.filter(held_by(parent, live))).len() == f.filter(held_by(parent, live)).len());
}

/// The person directs and reads any agent; an agent never directs one it did not start, nor the
/// one that started it where that one was started by nobody.
pub proof fn law_an_agent_directs_only_what_it_started(
    f: Seq<Started>,
    me: Seq<char>,
    target: Seq<char>,
)
    ensures
        directs(None, target, f),
        reads(None, target, f),
        directs(Some(me), target, f) ==> parent_in(f, target) == Some(me),
        parent_in(f, target) is None ==> !directs(Some(me), target, f),
        reads(Some(me), me, f),
{
}

/// A role runs on the first mind of its list that is attached and has a conversation to give, and
/// is refused only where none of them is and has: a mind that holds one conversation is never used.
pub proof fn law_a_role_falls_back_down_its_list(role: Role, minds: Seq<Attached>)
    ensures
        ({
            let list = text::strs(role.runs_on@);
            let f = can_have(minds);
            &&& nowhere_to_run(role, minds) is Some <==> forall|i: int|
                0 <= i < list.len() ==> !f(#[trigger] list[i])
            &&& nowhere_to_run(role, minds) is None ==> exists|i: int, k: int|
                {
                    &&& 0 <= i < list.len()
                    &&& runs_at(role, minds) == #[trigger] list[i]
                    &&& forall|j: int| 0 <= j < i ==> !f(#[trigger] list[j])
                    &&& 0 <= k < minds.len()
                    &&& (#[trigger] minds[k]).id@ == list[i]
                    &&& minds[k].conversations
                }
        }),
{
    let list = text::strs(role.runs_on@);
    let f = can_have(minds);
    seqs::lemma_first(list, f);
    let i = seqs::first(list, f);
    if i < list.len() {
        let g = gives_one(list[i]);
        assert(f(list[i]));
        seqs::lemma_first(minds, g);
        let k = seqs::first(minds, g);
        assert(g(minds[k]));
        assert(runs_at(role, minds) == list[i]);
    }
}

/// A role never hands work above its own ceiling.
pub proof fn law_a_reach_caps_what_it_hands_on(
    caller: Seq<char>,
    named: Seq<char>,
    role: Role,
    listing: Seq<char>,
    task: Seq<char>,
    context: Seq<char>,
    mine: OwnReach,
    f: Seq<Started>,
    live: Seq<Seq<char>>,
    minds: Seq<Attached>,
)
    requires
        no_hand_off(
            Some(caller),
            named,
            Some(role),
            listing,
            task,
            context,
            Some(mine),
            f,
            live,
            minds,
        ) is None,
    ensures
        role.rank <= mine.rank,
        parent_in(f, caller) is None,
{
}

// ── Who may do what, exactly ────────────────────────────────────────

/// An agent is named by its mind, a colon and its conversation, and neither may be missing.
pub proof fn law_what_names_an_agent(mind: Seq<char>, conversation: Seq<char>)
    requires
        !mind.contains(':'),
    ensures
        names_agent(mind.push(':') + conversation) <==> mind.len() > 0 && conversation.len() > 0,
        !names_agent(mind),
{
    let s = mind.push(':') + conversation;
    text::lemma_next_char(s, ':', 0);
    let i = text::next_char(s, ':', 0);
    assert(s[mind.len() as int] == ':');
    assert(i == mind.len()) by {
        if i < mind.len() {
            assert(mind.contains(mind[i]));
        }
    }
    text::lemma_next_char(mind, ':', 0);
    let k = text::next_char(mind, ':', 0);
    if k < mind.len() {
        assert(mind.contains(mind[k]));
    }
}

/// One to twenty turns can be read, and where nothing is said it is not refused either.
pub proof fn law_how_many_turns_can_be_read(n: Amount)
    ensures
        no_turns(Given::Number(n)) is None <==> 1 <= n.floor < 20 || n.floor == 20 && !n.fraction,
        no_turns(Given::Nothing) is None,
        no_turns(Given::Other) is Some,
{
}

/// Whoever was started by nobody, neither an agent nor a recipe, may have three agents running, and
/// no fourth; agents that have stopped do not count.
pub proof fn law_three_agents_and_no_fourth(
    f: Seq<Started>,
    parent: Seq<char>,
    live: Seq<Seq<char>>,
)
    requires
        forall|i: int|
            0 <= i < f.len() && (#[trigger] f[i]).id == parent ==> f[i].parent is None
                && f[i].recipe is None,
    ensures
        f.filter(held_by(parent, live)).len() < 3 ==> no_child(f, parent, live) is None,
        f.filter(held_by(parent, live)).len() >= 3 ==> no_child(f, parent, live) is Some,
        (forall|i: int|
            0 <= i < f.len() && (#[trigger] f[i]).parent == Some(parent) ==> !live.contains(f[i].id))
            ==> no_child(f, parent, live) is None,
{
    seqs::lemma_first(f, is_agent(parent));
    let k = seqs::first(f, is_agent(parent));
    if k < f.len() {
        assert(is_agent(parent)(f[k]));
        assert(f[k].id == parent);
    }
    let g = held_by(parent, live);
    seqs::lemma_filter_from(f, g);
    let held = f.filter(g);
    if held.len() > 0 {
        assert(g(held[0]));
        assert(f.contains(held[0]));
        let i = choose|i: int| 0 <= i < f.len() && f[i] == held[0];
        assert(f[i].parent == Some(parent));
    }
}

/// An agent that another agent or a recipe started starts none.
pub proof fn law_what_was_started_starts_nothing(
    f: Seq<Started>,
    i: int,
    live: Seq<Seq<char>>,
)
    requires
        0 <= i < f.len(),
        forall|j: int| 0 <= j < i ==> (#[trigger] f[j]).id != f[i].id,
        f[i].parent is Some || f[i].recipe is Some,
    ensures
        no_child(f, f[i].id, live) is Some,
{
    seqs::lemma_first_is(f, is_agent(f[i].id), i);
}

/// An agent directs exactly the agents that it started, and reads those and itself; nobody's agents
/// are directed by the person alone.
pub proof fn law_who_directs_whom(f: Seq<Started>, me: Seq<char>, i: int)
    requires
        0 <= i < f.len(),
        forall|j: int| 0 <= j < i ==> (#[trigger] f[j]).id != f[i].id,
    ensures
        directs(Some(me), f[i].id, f) <==> f[i].parent == Some(me),
        reads(Some(me), f[i].id, f) <==> f[i].parent == Some(me) || f[i].id == me,
        directs(None, f[i].id, f),
        reads(None, f[i].id, f),
{
    seqs::lemma_first_is(f, is_agent(f[i].id), i);
}

/// A mind goes by its id before it goes by its name, and by its name in any letter case.
pub proof fn law_a_mind_goes_by_its_id_first(minds: Seq<HostMind>, named: Seq<char>, i: int)
    requires
        0 <= i < minds.len(),
    ensures
        minds[i].id@ == named ==> mind_of(minds, named) == Some(named),
        (forall|j: int| 0 <= j < minds.len() ==> (#[trigger] minds[j]).id@ != named) && text::small(
            minds[i].name@,
        ) == text::small(named) && (forall|j: int|
            0 <= j < i ==> text::small((#[trigger] minds[j]).name@) != text::small(named))
            ==> mind_of(minds, named) == Some(minds[i].id@),
        (forall|j: int|
            0 <= j < minds.len() ==> (#[trigger] minds[j]).id@ != named && text::small(
                minds[j].name@,
            ) != text::small(named)) ==> mind_of(minds, named) is None,
{
    let f = has_id(named);
    let g = has_small_name(text::small(named));
    seqs::lemma_first(minds, f);
    let k = seqs::first(minds, f);
    if k < minds.len() {
        assert(f(minds[k]));
    } else {
        assert(!f(minds[i]));
    }
    if text::small(minds[i].name@) == text::small(named) && forall|j: int|
        0 <= j < i ==> text::small((#[trigger] minds[j]).name@) != text::small(named) {
        seqs::lemma_first_is(minds, g, i);
    }
    if forall|j: int| 0 <= j < minds.len() ==> text::small((#[trigger] minds[j]).name@)
        != text::small(named) {
        seqs::lemma_first_none(minds, g);
    }
}

/// An agent is started where a mind is attached by that name and there is something to do, by the
/// person always, and by an agent that holds no reach and may have one more.
pub proof fn law_who_may_start_an_agent(
    caller: Option<Seq<char>>,
    mind: Seq<char>,
    task: Seq<char>,
    held: Option<Seq<char>>,
    f: Seq<Started>,
    live: Seq<Seq<char>>,
    minds: Seq<HostMind>,
)
    ensures
        no_agent(caller, mind, task, held, f, live, minds) is None <==> {
            &&& !text::blank(mind)
            &&& !text::blank(task)
            &&& mind_of(minds, text::trim(mind)) is Some
            &&& caller matches Some(me) ==> held is None && no_child(f, me, live) is None
        },
{
}

/// Work is handed to a role of the catalog that has somewhere to run, with something to do and no
/// more context than 32 KiB: by the person always, and by an agent that may have one more and whose
/// own reach goes as far as the role's.
pub proof fn law_who_may_hand_off(
    caller: Option<Seq<char>>,
    named: Seq<char>,
    role: Option<Role>,
    listing: Seq<char>,
    task: Seq<char>,
    context: Seq<char>,
    mine: Option<OwnReach>,
    f: Seq<Started>,
    live: Seq<Seq<char>>,
    minds: Seq<Attached>,
)
    ensures
        no_hand_off(caller, named, role, listing, task, context, mine, f, live, minds) is None <==> {
            &&& !text::blank(named)
            &&& role is Some
            &&& !text::blank(task)
            &&& config_store::byte_len(context) <= 32768
            &&& nowhere_to_run(role->0, minds) is None
            &&& caller matches Some(me) ==> {
                &&& no_child(f, me, live) is None
                &&& mine matches Some(own) ==> role->0.rank <= own.rank
            }
        },
{
}

/// The minds that can be named are those that are attached, not the one that is built in.
pub proof fn law_the_builtin_mind_is_not_offered(minds: Seq<HostMind>, one: HostMind)
    ensures
        one.builtin ==> attached(minds.push(one)) == attached(minds),
        !one.builtin ==> attached(minds.push(one)) == attached(minds).push(one.id@),
        attached(Seq::empty()).len() == 0,
{
    reveal(Seq::filter);
    let f = |m: HostMind| !m.builtin;
    let g = |m: HostMind| m.id@;
    assert(minds.push(one).drop_last() =~= minds);
    if !one.builtin {
        assert(minds.filter(f).push(one).map_values(g) =~= minds.filter(f).map_values(g).push(
            one.id@,
        ));
    }
}

/// What a turn said is its text, in order; its notes are told beside it only where it did not end
/// well.
pub proof fn law_what_a_turn_said(items: Seq<Item>, well: bool, one: Item)
    ensures
        ({
            let n = items.len() as int;
            let all = items.push(one);
            let before = told_to(items, well, n);
            &&& told_to(all, well, n) == before
            &&& one matches Item::Text(t) ==> told_to(all, well, n + 1) == before + t@
            &&& one matches Item::Note(t) ==> told_to(all, well, n + 1) == if well {
                before
            } else {
                before + ("\n["@ + t@ + "]\n"@)
            }
            &&& one is Other ==> told_to(all, well, n + 1) == before
        }),
{
    lemma_told_of_more(items, one, well, items.len() as int);
    assert(items.push(one)[items.len() as int] == one);
}

proof fn lemma_told_of_more(items: Seq<Item>, one: Item, well: bool, n: int)
    requires
        0 <= n <= items.len(),
    ensures
        told_to(items.push(one), well, n) == told_to(items, well, n),
    decreases n,
{
    if n > 0 {
        lemma_told_of_more(items, one, well, n - 1);
        assert(items.push(one)[n - 1] == items[n - 1]);
    }
}

/// What a turn said is told whole up to 32 KiB, and beyond that as far as it fits, with how much is
/// left.
pub proof fn law_a_long_turn_says_what_is_left(t: Turn)
    ensures
        ({
            let said = text::trim(told_to(t.items@, t.ok == Some(true), t.items@.len() as int));
            let k = text::fitting(said, 32768) as int;
            &&& config_store::byte_len(said) <= 32768 ==> turn_words(t) == said
            &&& config_store::byte_len(said) > 32768 ==> turn_words(t) == said.take(k)
                + "\n\u{2026} "@ + text::dec(config_store::byte_len(said.skip(k)) as nat)
                + " more bytes; `read_agent` has the rest."@
        }),
{
}

/// What was stopped is told: the agent, the commands that were killed, each counted, and the agents
/// that stopped with it.
pub proof fn law_what_was_stopped_is_told(
    target: Seq<char>,
    commands: nat,
    children: Seq<Seq<char>>,
)
    ensures
        stopped_words(target, false, 0, Seq::empty()) == "`"@ + target
            + "` had nothing running; it is stopped all the same"@
            + ". Its pane stays readable on the Agents screen."@,
        stopped_words(target, true, 0, Seq::empty()) == "Stopped `"@ + target + "`"@
            + ". Its pane stays readable on the Agents screen."@,
        commands > 0 && children.len() > 0 ==> stopped_words(target, true, commands, children)
            == "Stopped `"@ + target + "`"@ + ", and killed "@ + text::dec(commands) + " command"@
            + (if commands == 1 {
            ""@
        } else {
            "s"@
        }) + "; the agents it started stopped with it ("@ + text::join(children, ", "@) + ")"@
            + ". Its pane stays readable on the Agents screen."@,
{
}

/// Starting an agent is sensitive, looking at one is safe, and the rest is standard.
pub proof fn law_how_the_agents_actions_are_graded()
    ensures
        published().len() == 6,
        published()[0].name == "new_agent"@ && published()[0].grade == "sensitive"@,
        published()[1].name == "send_to_agent"@ && published()[1].grade == "standard"@,
        published()[2].name == "stop_agent"@ && published()[2].grade == "standard"@,
        published()[3].name == "read_agent"@ && published()[3].grade == "safe"@,
        published()[4].name == "show_agent"@ && published()[4].grade == "safe"@,
        published()[5].name == "hand_off"@ && published()[5].grade == "sensitive"@,
{
}

/// A budget runs for its minutes and no longer: until then the agent is looked at again within five
/// seconds and never past the end, and at the end it is stopped, unless it is over by itself.
pub proof fn law_a_budget_runs_out(minutes: u32, elapsed_secs: u64, live: bool, r: Budget)
    requires
        call_ensures(watch_budget, (minutes, elapsed_secs, live), r),
    ensures
        r is Over <==> !live,
        r is Stop <==> live && elapsed_secs >= 60 * minutes,
        r matches Budget::Wait(secs) ==> 0 < secs <= 5 && elapsed_secs + secs <= 60 * minutes,
        live && elapsed_secs + 5 <= 60 * minutes ==> r == Budget::Wait(5),
{
}

/// A hand-off waits as long as it says, up to ten minutes, and not at all where it says nothing or
/// none.
pub proof fn law_how_long_a_hand_off_waits(given: Given, r: Result<Option<Wait>, String>)
    requires
        call_ensures(wait_arg, (given,), r),
    ensures
        given is Nothing ==> r == Ok::<Option<Wait>, String>(None),
        given is Other ==> r is Err,
        given matches Given::Number(n) ==> (r is Ok <==> 0 <= n.floor < 600 || n.floor == 600
            && !n.fraction),
        given is Number && r is Ok && given->Number_0.floor == 0 && !given->Number_0.fraction
            ==> r->Ok_0 is None,
        given is Number && r is Ok && (given->Number_0.floor > 0 || given->Number_0.fraction)
            ==> r->Ok_0 is Some && (r->Ok_0)->0.secs == given->Number_0.floor && (r->Ok_0)->0.nanos
            == given->Number_0.nanos,
{
}

/// Three turns are read where it is not said how many.
pub proof fn law_three_turns_are_read(given: Given, r: Result<usize, String>)
    requires
        call_ensures(turns_arg, (given,), r),
    ensures
        given is Nothing ==> r == Ok::<usize, String>(3),
        given is Number && 1 <= given->Number_0.floor < 20 ==> r is Ok && r->Ok_0
            == given->Number_0.floor,
{
}

/// An agent is talked to and stopped by whoever started it and by the person, and read by itself
/// besides; the built-in mind is stopped by nobody.
pub proof fn law_who_is_answered(
    caller: Caller,
    target: AgentId,
    words: &str,
    family: Family,
    builtin: &str,
    last: Given,
    session: Session,
    sent: Result<(), String>,
    stopped: Result<(), String>,
    read: Result<Json, String>,
)
    requires
        call_ensures(send_to_agent, (&caller, &target, words, &family), sent),
        call_ensures(stop_agent, (&caller, &target, &family, builtin), stopped),
        call_ensures(read_agent, (&caller, &target, last, &family, Some(&session)), read),
    ensures
        sent is Ok <==> !text::blank(words@) && directs(who(caller), target@, family@),
        stopped is Ok <==> directs(who(caller), target@, family@) && agents::harness_in(target@)
            != builtin@,
        read is Ok <==> no_turns(last) is None && reads(who(caller), target@, family@),
        caller is NoAgent && !text::blank(words@) ==> sent is Ok,
        caller is NoAgent && agents::harness_in(target@) != builtin@ ==> stopped is Ok,
{
}

/// What is read of an agent is its mind, its state, whether it needs the person, and what was said.
pub proof fn law_what_is_read_of_an_agent(
    target: AgentId,
    family: Family,
    session: Session,
    r: Result<Json, String>,
)
    requires
        call_ensures(
            read_agent,
            (&Caller::NoAgent, &target, Given::Nothing, &family, Some(&session)),
            r,
        ),
    ensures
        r is Ok,
        ({
            let e = r->Ok_0@->Object_0;
            &&& e[0] == ("agent"@, Tree::Str(target@))
            &&& e[1] == ("mind"@, Tree::Str(session.mind@))
            &&& e[2] == ("state"@, Tree::Str(session.state@))
            &&& e[3] == (
                "needs_you"@,
                Tree::Bool(session.approvals_pending || session.waiting_for_you),
            )
            &&& e[5] == ("text"@, Tree::Str(session.transcript@))
        }),
{
}

/// An agent is shown where it is known, by its whole name.
pub proof fn law_an_agent_that_is_known_is_shown(
    args: Json,
    family: Family,
    i: int,
    r: Result<AgentId, String>,
)
    requires
        call_ensures(show_agent, (&args, &family), r),
    ensures
        ({
            let named = json::argument(args@, "agent"@);
            &&& 0 <= i < family@.len() && family@[i].id == named && names_agent(named) ==> r is Ok
                && r->Ok_0@ == named
            &&& !names_agent(named) ==> r is Err
            &&& (forall|j: int| 0 <= j < family@.len() ==> (#[trigger] family@[j]).id != named)
                ==> r is Err
        }),
{
    let named = json::argument(args@, "agent"@);
    let f = is_agent(named);
    seqs::lemma_first(family@, f);
    if 0 <= i < family@.len() && family@[i].id == named {
        assert(f(family@[i]));
    }
    if forall|j: int| 0 <= j < family@.len() ==> (#[trigger] family@[j]).id != named {
        seqs::lemma_first_none(family@, f);
    }
}

/// The answer to what was asked is that of the first turn that was asked for anything, once it has
/// ended; until then there is none, and where the time is over it says that it is not done.
pub proof fn law_which_turn_answers(turns: &[Turn], over: bool, i: int, r: Option<Answered>)
    requires
        call_ensures(wait_for_answer, (turns, over), r),
        0 <= i < turns@.len(),
        turns@[i].prompt@.len() > 0,
        forall|j: int| 0 <= j < i ==> (#[trigger] turns@[j]).prompt@.len() == 0,
    ensures
        turns@[i].ended ==> r is Some && r->0.done && (r->0.ok <==> turns@[i].ok == Some(true))
            && r->0.text@ == turn_words(turns@[i]),
        !turns@[i].ended && over ==> r is Some && !r->0.done && !r->0.ok,
        !turns@[i].ended && !over ==> r is None,
{
    seqs::lemma_first_is(turns@, prompted(), i);
}

/// An agent that is noted is known by what was last said of it, once, and nobody else is touched.
pub proof fn law_an_agent_is_noted(
    family: &mut Family,
    id: AgentId,
    parent: Option<AgentId>,
    recipe: Option<String>,
    i: int,
)
    requires
        call_ensures(Family::upsert_agent, (family, id, parent, recipe), ()),
    ensures
        ({
            let at = seqs::first(final(family)@, is_agent(id@));
            &&& at < final(family)@.len()
            &&& final(family)@[at].parent == name_of(parent)
            &&& final(family)@[at].recipe == text::maybe(recipe)
        }),
        0 <= i < old(family)@.len() && old(family)@[i].id != id@ ==> final(family)@[i] == old(family)@[i],
        (exists|j: int| 0 <= j < old(family)@.len() && (#[trigger] old(family)@[j]).id == id@)
            ==> final(family)@.len() == old(family)@.len(),
        (forall|j: int| 0 <= j < old(family)@.len() ==> (#[trigger] old(family)@[j]).id != id@)
            ==> final(family)@.len() == old(family)@.len() + 1,
{
    let was = old(family)@;
    let now = final(family)@;
    let f = is_agent(id@);
    seqs::lemma_first(was, f);
    let at = seqs::first(was, f);
    assert(f(now[at]));
    assert forall|j: int| 0 <= j < at implies !f(#[trigger] now[j]) by {
        assert(now[j] == was[j]);
    }
    seqs::lemma_first_is(now, f, at);
    if exists|j: int| 0 <= j < was.len() && (#[trigger] was[j]).id == id@ {
        let j = choose|j: int| 0 <= j < was.len() && (#[trigger] was[j]).id == id@;
        assert(f(was[j]));
    }
}

/// What was handed off is told with who has it, what it may use and its answer: one that came, and
/// whether it came out well; or that it is still being worked on.
pub proof fn law_what_is_told_of_a_hand_off(h: Handed, secs: u64, a: Answered)
    ensures
        ({
            let none = handed_tree(h, None)->Object_0;
            let e = handed_tree(h, Some((secs, a)))->Object_0;
            &&& e[0] == ("agent"@, Tree::Str(h.agent@))
            &&& e[1] == ("role"@, Tree::Str(h.role.id@))
            &&& e[3] == ("mind"@, Tree::Str(h.mind@))
            &&& e[4] == ("reach"@, Tree::Str(h.role.reach@))
            &&& e[5].1->Object_0[0] == ("turns"@, Tree::Num(json::whole(h.role.turns as u64)))
            &&& e[5].1->Object_0[1] == ("minutes"@, Tree::Num(json::whole(h.role.minutes as u64)))
            &&& none.take(6) == e.take(6) && none.len() == 7
            &&& e[6] == ("done"@, Tree::Bool(a.done))
            &&& a.done ==> e.len() == 10 && e[7] == ("ok"@, Tree::Bool(a.ok)) && e[8] == (
                "answer"@,
                Tree::Str(a.text@),
            )
            &&& !a.done ==> e.len() == 8
        }),
{
}

/// An agent is started on the mind that is named, under whoever asked; a hand-off goes to a mind
/// that its role runs on, under whoever asked.
pub proof fn law_who_starts_what(
    caller: Caller,
    mind: &str,
    task: &str,
    family: Family,
    live: &[AgentId],
    minds: &[HostMind],
    r: Result<Starting, String>,
)
    requires
        call_ensures(
            new_agent,
            (&caller, mind, task, None::<&str>, &family, live, minds),
            r,
        ),
    ensures
        text::blank(mind@) || text::blank(task@) ==> r is Err,
        mind_of(minds@, text::trim(mind@)) is None ==> r is Err,
        caller is NoAgent && !text::blank(mind@) && !text::blank(task@) && mind_of(
            minds@,
            text::trim(mind@),
        ) is Some ==> r is Ok,
        r matches Ok(s) ==> mind_of(minds@, text::trim(mind@)) == Some(s.mind@) && name_of(s.parent)
            == who(caller),
{
}

/// A role runs on the first mind of its list that is there to run on.
pub proof fn law_a_role_runs_on_its_first_mind(
    role: Role,
    minds: &[Attached],
    i: int,
    r: Result<String, String>,
)
    requires
        call_ensures(pick_mind, (&role, minds), r),
        0 <= i < role.runs_on@.len(),
        can_have(minds@)(role.runs_on@[i]@),
        forall|j: int| 0 <= j < i ==> !can_have(minds@)((#[trigger] role.runs_on@[j])@),
    ensures
        r is Ok,
        r->Ok_0@ == role.runs_on@[i]@,
{
    let list = text::strs(role.runs_on@);
    assert(list[i] == role.runs_on@[i]@);
    assert forall|j: int| 0 <= j < i implies !can_have(minds@)(#[trigger] list[j]) by {
        assert(list[j] == role.runs_on@[j]@);
    }
    seqs::lemma_first_is(list, can_have(minds@), i);
}

/// Only an agent that is held to a reach is asked whether it stays within it.
pub proof fn law_only_who_is_held_is_asked(
    reaches: Reaches,
    agent: AgentId,
    says: Result<(), String>,
    r: Result<(), String>,
)
    requires
        call_ensures(within_reach, (&reaches, &agent, says), r),
    ensures
        agents::reaches::reach_for(reaches@, agent@) is Some ==> r == says,
        agents::reaches::reach_for(reaches@, agent@) is None ==> r is Ok,
        r is Err ==> says is Err,
{
}

/// What is told of a stop is what it did: what was stopped, how many commands, how many requests,
/// and who with it.
pub proof fn law_what_is_told_of_a_stop(target: AgentId, s: Stopped, r: Json)
    requires
        call_ensures(stopped_answer, (&target, &s), r),
    ensures
        r@->Object_0[0] == ("agent"@, Tree::Str(target@)),
        r@->Object_0[1] == ("stopped"@, Tree::Bool(s.stopped)),
        r@->Object_0[2] == ("commands_killed"@, Tree::Num(json::whole(s.commands as u64))),
        r@->Object_0[3] == ("approvals_withdrawn"@, Tree::Num(json::whole(s.approvals as u64))),
        r@->Object_0[4].1->Array_0.len() == s.children@.len(),
{
}

} // verus!
