//! The reach of every live agent started as a role: what it may act on.
//!
//! An agent is held to its role's reach before its first turn is sent, so there is no moment in
//! which it can act unheld, and let go when it is stopped. The registry keeps a digest of each
//! agent's token and never the token.
use crate::json::Json;
use crate::seqs;
use crate::text::same;
use vstd::prelude::*;

verus! {

/// The most agents with a reach kept at once; the oldest go first.
pub const MOST: usize = 64;

/// One agent's reach.
pub struct Entry {
    pub token_sha256: String,
    pub agent: String,
    pub reach: Json,
}

/// What an [`Entry`] says.
pub struct Held {
    pub digest: Seq<char>,
    pub agent: Seq<char>,
    pub reach: crate::json::Tree,
}

impl View for Entry {
    type V = Held;

    open spec fn view(&self) -> Held {
        Held { digest: self.token_sha256@, agent: self.agent@, reach: self.reach@ }
    }
}

/// The reaches in force.
pub struct Reaches {
    entries: Vec<Entry>,
}

spec fn views(s: Seq<Entry>) -> Seq<Held> {
    Seq::new(s.len(), |i: int| s[i]@)
}

impl View for Reaches {
    type V = Seq<Held>;

    closed spec fn view(&self) -> Seq<Held> {
        views(self.entries@)
    }
}

/// Everything but what is held for an agent.
pub open spec fn not_agent(agent: Seq<char>) -> spec_fn(Held) -> bool {
    |h: Held| h.agent != agent
}

/// Everything but what is held for an agent or under a digest.
pub open spec fn neither(agent: Seq<char>, digest: Seq<char>) -> spec_fn(Held) -> bool {
    |h: Held| h.agent != agent && h.digest != digest
}

/// The registry after an agent is held to a reach.
pub open spec fn after_hold(s: Seq<Held>, h: Held) -> Seq<Held> {
    crate::approvals::tail(s.filter(neither(h.agent, h.digest)).push(h), MOST as int)
}

pub open spec fn under(digest: Seq<char>) -> spec_fn(Held) -> bool {
    |h: Held| h.digest == digest
}

pub open spec fn held_for(agent: Seq<char>) -> spec_fn(Held) -> bool {
    |h: Held| h.agent == agent
}

pub open spec fn reach_under(s: Seq<Held>, digest: Seq<char>) -> Option<crate::json::Tree> {
    let i = seqs::first(s, under(digest));
    if i < s.len() {
        Some(s[i].reach)
    } else {
        None
    }
}

pub open spec fn reach_for(s: Seq<Held>, agent: Seq<char>) -> Option<crate::json::Tree> {
    let i = seqs::first(s, held_for(agent));
    if i < s.len() {
        Some(s[i].reach)
    } else {
        None
    }
}

/// No agent and no token has two reaches, and no more are kept than fit.
pub open spec fn one_each(s: Seq<Held>) -> bool {
    &&& s.len() <= MOST
    &&& forall|i: int, j: int|
        0 <= i < j < s.len() ==> (#[trigger] s[i]).agent != (#[trigger] s[j]).agent && s[i].digest
            != s[j].digest
}

/// What holding an agent to its role's reach comes to, once the registry was written out or could
/// not be: an agent whose reach could not be published must not be started.
pub fn published(written: Result<(), String>, role: &str) -> (r: Result<(), String>)
    ensures
        match written {
            Ok(()) => r is Ok,
            Err(why) => r matches Err(said) && said@ == "the "@ + role@
                + "'s reach could not be published: "@ + why@,
        },
{
    match written {
        Ok(()) => Ok(()),
        Err(why) => {
            let mut out = "the ".to_owned();
            out.append(role);
            out.append("'s reach could not be published: ");
            out.append(why.as_str());
            Err(out)
        },
    }
}

impl Reaches {
    /// At the shell's start nothing is held yet.
    pub fn new() -> (r: Reaches)
        ensures
            r@.len() == 0,
            one_each(r@),
    {
        Reaches { entries: Vec::new() }
    }

    /// Nothing is held any more.
    pub fn reset(&mut self)
        ensures
            final(self)@.len() == 0,
            one_each(final(self)@),
    {
        self.entries = Vec::new();
    }

    fn drop_all(&mut self, agent: &str, digest: Option<&str>) -> (r: bool)
        ensures
            final(self)@ == old(self)@.filter(
                match digest {
                    Some(d) => neither(agent@, d@),
                    None => not_agent(agent@),
                },
            ),
            r == (final(self)@.len() != old(self)@.len()),
    {
        let ghost all = self@;
        let ghost f = match digest {
            Some(d) => neither(agent@, d@),
            None => not_agent(agent@),
        };
        let ghost mut n: int = 0;
        let mut i: usize = 0;
        let mut dropped = false;
        proof {
            seqs::lemma_filter_none(all, f);
            assert(all.take(0).filter(f) + all.skip(0) =~= all);
        }
        while i < self.entries.len()
            invariant
                0 <= n <= all.len(),
                f == (match digest {
                    Some(d) => neither(agent@, d@),
                    None => not_agent(agent@),
                }),
                i == all.take(n).filter(f).len(),
                i <= n,
                dropped == (i < n),
                self@ == all.take(n).filter(f) + all.skip(n),
            decreases all.len() - n,
        {
            let ghost kept = all.take(n).filter(f);
            let ghost was = self.entries@;
            assert(views(was)[i as int] == all[n]);
            proof {
                seqs::lemma_filter_take(all, f, n);
            }
            let goes = same(self.entries[i].agent.as_str(), agent) || match digest {
                Some(d) => same(self.entries[i].token_sha256.as_str(), d),
                None => false,
            };
            if goes {
                let _ = self.entries.remove(i);
                dropped = true;
                proof {
                    assert(views(self.entries@) =~= views(was).remove(i as int));
                    assert(views(was).remove(i as int) =~= kept + all.skip(n + 1));
                }
            } else {
                i += 1;
                assert(kept.push(all[n]) + all.skip(n + 1) =~= kept + all.skip(n));
            }
            proof {
                n = n + 1;
            }
        }
        proof {
            assert(self@.len() == self.entries@.len());
            assert(all.take(n) =~= all);
            assert(all.filter(f) + all.skip(n) =~= all.filter(f));
        }
        dropped
    }

    /// Hold an agent to a reach from now on.
    pub fn hold(&mut self, entry: Entry)
        requires
            one_each(old(self)@),
        ensures
            final(self)@ == after_hold(old(self)@, entry@),
            one_each(final(self)@),
    {
        let ghost start = self@;
        let ghost h = entry@;
        let _ = self.drop_all(entry.agent.as_str(), Some(entry.token_sha256.as_str()));
        let ghost kept = self@;
        self.entries.push(entry);
        assert(self@ =~= kept.push(h));
        if self.entries.len() > MOST {
            let extra: usize = self.entries.len() - MOST;
            let ghost all = self@;
            let last = self.entries.split_off(extra);
            self.entries = last;
            assert(self@ =~= all.skip(extra as int));
        }
        proof {
            law_one_reach_each(start, h);
        }
    }

    /// Hold an agent to its role's reach from now on, by the digest of its token. An agent without
    /// a token is not live, and nothing can be held: it must not be started.
    pub fn hold_to_role(
        &mut self,
        agent: &str,
        role: &str,
        digest: Option<&str>,
        reach: Json,
    ) -> (r: Result<(), String>)
        requires
            one_each(old(self)@),
        ensures
            one_each(final(self)@),
            match digest {
                Some(d) => r is Ok && final(self)@ == after_hold(
                    old(self)@,
                    (Held { digest: d@, agent: agent@, reach: reach@ }),
                ),
                None => final(self)@ == old(self)@ && (r matches Err(why) && why@ == "`"@ + agent@
                    + "` is not live, so there is no token to hold to the "@ + role@
                    + "'s reach"@),
            },
    {
        match digest {
            Some(d) => {
                self.hold(
                    Entry { token_sha256: d.to_owned(), agent: agent.to_owned(), reach },
                );
                Ok(())
            },
            None => {
                let mut out = "`".to_owned();
                out.append(agent);
                out.append("` is not live, so there is no token to hold to the ");
                out.append(role);
                out.append("'s reach");
                Err(out)
            },
        }
    }

    /// Let an agent go: stopped, it acts no more. Says whether anything was held for it.
    pub fn release(&mut self, agent: &str) -> (r: bool)
        requires
            one_each(old(self)@),
        ensures
            final(self)@ == old(self)@.filter(not_agent(agent@)),
            one_each(final(self)@),
            r == (final(self)@.len() != old(self)@.len()),
    {
        let ghost start = self@;
        let r = self.drop_all(agent, None);
        proof {
            lemma_filter_one_each(start, not_agent(agent@));
        }
        r
    }

    /// The reach a token carries, by its digest.
    pub fn lookup(&self, digest: &str) -> (r: Option<Json>)
        ensures
            (r matches Some(v) ==> reach_under(self@, digest@) == Some(v@)),
            r is None ==> reach_under(self@, digest@) is None,
    {
        let mut i: usize = 0;
        let ghost f = under(digest@);
        while i < self.entries.len()
            invariant
                i <= self.entries@.len(),
                f == under(digest@),
                seqs::first(self@, f) == seqs::first_from(self@, f, i as int),
            decreases self.entries@.len() - i,
        {
            assert(self@[i as int] == self.entries@[i as int]@);
            if same(self.entries[i].token_sha256.as_str(), digest) {
                return Some(self.entries[i].reach.copy());
            }
            i += 1;
        }
        None
    }

    /// The reach an agent is held to, if it was started as a role.
    pub fn of(&self, agent: &str) -> (r: Option<Json>)
        ensures
            (r matches Some(v) ==> reach_for(self@, agent@) == Some(v@)),
            r is None ==> reach_for(self@, agent@) is None,
    {
        let mut i: usize = 0;
        let ghost f = held_for(agent@);
        while i < self.entries.len()
            invariant
                i <= self.entries@.len(),
                f == held_for(agent@),
                seqs::first(self@, f) == seqs::first_from(self@, f, i as int),
            decreases self.entries@.len() - i,
        {
            assert(self@[i as int] == self.entries@[i as int]@);
            if same(self.entries[i].agent.as_str(), agent) {
                return Some(self.entries[i].reach.copy());
            }
            i += 1;
        }
        None
    }
}

// ── Laws ────────────────────────────────────────────────────────────

proof fn lemma_filter_one_each(s: Seq<Held>, f: spec_fn(Held) -> bool)
    requires
        one_each(s),
    ensures
        one_each(s.filter(f)),
{
    let agent = |h: Held| h.agent;
    let digest = |h: Held| h.digest;
    seqs::lemma_filter_from(s, f);
    assert forall|i: int, j: int| 0 <= i < j < s.len() implies agent(#[trigger] s[i]) != agent(
        #[trigger] s[j],
    ) by {}
    assert forall|i: int, j: int| 0 <= i < j < s.len() implies digest(#[trigger] s[i]) != digest(
        #[trigger] s[j],
    ) by {}
    seqs::lemma_filter_distinct(s, f, agent);
    seqs::lemma_filter_distinct(s, f, digest);
    let w = s.filter(f);
    assert forall|i: int, j: int| 0 <= i < j < w.len() implies (#[trigger] w[i]).agent != (
    #[trigger] w[j]).agent && w[i].digest != w[j].digest by {
        assert(agent(w[i]) != agent(w[j]));
        assert(digest(w[i]) != digest(w[j]));
    }
}

/// However often agents are held, none has two reaches, no token carries two, and no more are
/// kept than fit.
pub proof fn law_one_reach_each(s: Seq<Held>, h: Held)
    requires
        one_each(s),
    ensures
        one_each(after_hold(s, h)),
{
    let f = neither(h.agent, h.digest);
    lemma_filter_one_each(s, f);
    seqs::lemma_filter_from(s, f);
    let w = s.filter(f);
    let all = w.push(h);
    assert forall|i: int, j: int| 0 <= i < j < all.len() implies (#[trigger] all[i]).agent != (
    #[trigger] all[j]).agent && all[i].digest != all[j].digest by {
        if j == w.len() {
            assert(f(w[i]));
        }
    }
    let r = after_hold(s, h);
    if all.len() > MOST {
        let k = all.len() - MOST;
        assert forall|i: int, j: int| 0 <= i < j < r.len() implies (#[trigger] r[i]).agent != (
        #[trigger] r[j]).agent && r[i].digest != r[j].digest by {
            assert(r[i] == all[i + k]);
            assert(r[j] == all[j + k]);
        }
    }
}

/// An agent is held to the last reach it was given, and its token carries that one.
pub proof fn law_the_last_reach_counts(s: Seq<Held>, h: Held)
    requires
        one_each(s),
    ensures
        reach_for(after_hold(s, h), h.agent) == Some(h.reach),
        reach_under(after_hold(s, h), h.digest) == Some(h.reach),
{
    law_one_reach_each(s, h);
    let r = after_hold(s, h);
    let last = r.len() - 1;
    assert(r[last] == h);
    seqs::lemma_first_is(r, held_for(h.agent), last);
    seqs::lemma_first_is(r, under(h.digest), last);
}

/// An agent that was let go is held to nothing, and letting it go takes no other agent's reach.
pub proof fn law_a_released_agent_holds_nothing(s: Seq<Held>, agent: Seq<char>, other: Held)
    ensures
        reach_for(s.filter(not_agent(agent)), agent) is None,
        s.contains(other) && other.agent != agent ==> s.filter(not_agent(agent)).contains(other),
{
    let f = not_agent(agent);
    seqs::lemma_filter_from(s, f);
    let w = s.filter(f);
    assert forall|j: int| 0 <= j < w.len() implies !held_for(agent)(#[trigger] w[j]) by {
        assert(f(w[j]));
    }
    seqs::lemma_first_none(w, held_for(agent));
}

/// Holding one agent to a reach takes none from the others: sixty-four are held, and whoever else
/// was held still is, unless there are too many, when the one held longest goes.
pub proof fn law_holding_one_lets_no_other_go(s: Seq<Held>, h: Held, other: Held)
    requires
        one_each(s),
        s.contains(other),
        other.agent != h.agent,
        other.digest != h.digest,
        s.len() < 64,
    ensures
        after_hold(s, h).contains(other),
        reach_for(after_hold(s, h), other.agent) == Some(other.reach),
        reach_under(after_hold(s, h), other.digest) == Some(other.reach),
{
    let f = neither(h.agent, h.digest);
    seqs::lemma_filter_from(s, f);
    let w = s.filter(f);
    assert(f(other));
    let k = choose|k: int| 0 <= k < w.len() && w[k] == other;
    let r = after_hold(s, h);
    assert(r =~= w.push(h));
    assert(r[k] == other);
    law_one_reach_each(s, h);
    assert forall|j: int| 0 <= j < k implies !held_for(other.agent)(#[trigger] r[j])
        && !under(other.digest)(r[j]) by {
        assert(r[j].agent != r[k].agent && r[j].digest != r[k].digest);
    }
    seqs::lemma_first_is(r, held_for(other.agent), k);
    seqs::lemma_first_is(r, under(other.digest), k);
}

/// An agent that is let go holds nothing, every other agent holds what it held, and the answer says
/// whether anything was let go.
pub proof fn law_what_is_let_go(reaches: &mut Reaches, agent: &str, h: Held, r: bool)
    requires
        call_ensures(Reaches::release, (reaches, agent), r),
    ensures
        h.agent == agent@ ==> !final(reaches)@.contains(h),
        h.agent != agent@ ==> (final(reaches)@.contains(h) <==> old(reaches)@.contains(h)),
        old(reaches)@.contains(h) && h.agent == agent@ ==> r,
{
    let was = old(reaches)@;
    let f = not_agent(agent@);
    seqs::lemma_filter_from(was, f);
    let now = was.filter(f);
    if now.contains(h) {
        let i = choose|i: int| 0 <= i < now.len() && now[i] == h;
        assert(f(now[i]) && was.contains(now[i]));
    }
    if was.contains(h) && h.agent == agent@ {
        let i = choose|i: int| 0 <= i < was.len() && was[i] == h;
        seqs::lemma_filter_shorter(was, f, i);
    }
}

/// An agent that is held to a role has that reach from then on, by its name and by its token; one
/// that has no token is held to nothing, and that is an error.
pub proof fn law_a_role_is_held_to(
    reaches: &mut Reaches,
    later: Reaches,
    agent: &str,
    role: &str,
    digest: Option<&str>,
    reach: Json,
    r: Result<(), String>,
    by_name: Option<Json>,
    by_token: Option<Json>,
)
    requires
        one_each(old(reaches)@),
        call_ensures(Reaches::hold_to_role, (reaches, agent, role, digest, reach), r),
        later@ == final(reaches)@,
        call_ensures(Reaches::of, (&later, agent), by_name),
        digest matches Some(d) && call_ensures(Reaches::lookup, (&later, d), by_token) || digest
            is None,
    ensures
        r is Ok <==> digest is Some,
        r is Ok ==> by_name is Some && by_name->0@ == reach@ && by_token is Some && by_token->0@
            == reach@,
        r is Err ==> final(reaches)@ == old(reaches)@,
{
    if let Some(d) = digest {
        law_the_last_reach_counts(
            old(reaches)@,
            Held { digest: d@, agent: agent@, reach: reach@ },
        );
    }
}

} // verus!
