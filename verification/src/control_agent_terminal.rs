//! An agent's commands, on the shell's surface: what is owed to an agent of a command that ended
//! after its call had returned, and how it is told.
//!
//! A call that runs out of time answers that the command is still running, and the agent goes on.
//! When that command ends, nobody's call carries the end, so the agent is told in its next turn.
//! Which ends are owed is decided from what each agent was last told.
use crate::agents;
use crate::agents::AgentId;
use crate::approvals;
use crate::config_store;
use crate::control_agents;
use crate::control_agents::{Given, Wait};
use crate::json;
use crate::json::{argument_of, number, put_last, string, text_at, Json, Row, Tree};
use crate::seqs;
use crate::text;
use crate::text::{
    chars_of, clip, copied, decimal, fits_end, joined, lines_of, rest, same, signed_decimal,
    trim_end_of, trimmed,
};
use crate::surface;
use crate::surface::{add_action, Action, Listing, Param, ParamKind, Takes};
use vstd::prelude::*;

verus! {

/// How many ends are kept for an answer that is still on its way.
pub const ENDS_KEPT: usize = 16;

/// How much of a command a note repeats, and how much of its output.
pub const NOTE_COMMAND_CHARS: usize = 120;

pub const NOTE_TAIL_LINES: usize = 5;

pub const NOTE_TAIL_BYTES: usize = 400;

/// How much of a command line is reported.
pub const COMMAND_CLIP: usize = 160;

/// Where a command stands.
#[derive(Clone, Debug, PartialEq)]
pub enum JobState {
    Running { waiting_for_input: bool },
    Exited { code: i32 },
    /// It was ended by a signal, and what that signal is called where it has a name.
    Signalled { name: Option<String> },
}

/// What the terminal says of a command.
#[derive(Clone, Debug, PartialEq)]
pub struct RunAnswer {
    pub job: String,
    pub agent: AgentId,
    pub command: String,
    pub cwd: String,
    pub cwd_after: Option<String>,
    pub state: JobState,
    pub killed: bool,
    pub elapsed_secs: u64,
    /// How long it ran, in words, where that was under a second.
    pub under_a_second: String,
    pub tail: String,
}

/// What a [`JobState`] is.
pub enum Stands {
    Running { waiting: bool },
    Exited { code: i32 },
    Signalled { name: Option<Seq<char>> },
}

/// What a [`RunAnswer`] says.
pub struct Run {
    pub job: Seq<char>,
    pub agent: Seq<char>,
    pub command: Seq<char>,
    pub cwd: Seq<char>,
    pub cwd_after: Option<Seq<char>>,
    pub state: Stands,
    pub killed: bool,
    pub elapsed: u64,
    pub under_a_second: Seq<char>,
    pub tail: Seq<char>,
}

impl View for JobState {
    type V = Stands;

    open spec fn view(&self) -> Stands {
        match *self {
            JobState::Running { waiting_for_input } => Stands::Running {
                waiting: waiting_for_input,
            },
            JobState::Exited { code } => Stands::Exited { code },
            JobState::Signalled { name } => Stands::Signalled { name: text::maybe(name) },
        }
    }
}

impl View for RunAnswer {
    type V = Run;

    open spec fn view(&self) -> Run {
        Run {
            job: self.job@,
            agent: self.agent@,
            command: self.command@,
            cwd: self.cwd@,
            cwd_after: text::maybe(self.cwd_after),
            state: self.state@,
            killed: self.killed,
            elapsed: self.elapsed_secs,
            under_a_second: self.under_a_second@,
            tail: self.tail@,
        }
    }
}

impl RunAnswer {
    /// Whether the command is still running.
    pub fn running(&self) -> (r: bool)
        ensures
            r == (self@.state is Running),
    {
        match &self.state {
            JobState::Running { .. } => true,
            _ => false,
        }
    }

    pub fn copy(&self) -> (r: RunAnswer)
        ensures
            r@ == self@,
    {
        let state = match &self.state {
            JobState::Running { waiting_for_input } => JobState::Running {
                waiting_for_input: *waiting_for_input,
            },
            JobState::Exited { code } => JobState::Exited { code: *code },
            JobState::Signalled { name } => JobState::Signalled { name: copied(name) },
        };
        RunAnswer {
            job: self.job.clone(),
            agent: self.agent.copy(),
            command: self.command.clone(),
            cwd: self.cwd.clone(),
            cwd_after: copied(&self.cwd_after),
            state,
            killed: self.killed,
            elapsed_secs: self.elapsed_secs,
            under_a_second: self.under_a_second.clone(),
            tail: self.tail.clone(),
        }
    }
}

// ── Which ends are owed ─────────────────────────────────────────────

/// Which commands were last reported to their agent as still running, and so, when one ends, whose
/// end is owed.
pub struct Late {
    /// Commands whose agent's last word on them was that they run, and whose they are.
    owed: Vec<(String, AgentId)>,
    /// Recent ends nobody was owed, oldest first.
    ended: Vec<RunAnswer>,
}

/// What a [`Late`] keeps: a command and its agent for each end that is owed, and the ends nobody
/// was.
#[verifier::ext_equal]
pub struct Record {
    pub owed: Seq<(Seq<char>, Seq<char>)>,
    pub ended: Seq<Run>,
}

spec fn owed_view(s: Seq<(String, AgentId)>) -> Seq<(Seq<char>, Seq<char>)> {
    Seq::new(s.len(), |i: int| (s[i].0@, s[i].1@))
}

spec fn ended_view(s: Seq<RunAnswer>) -> Seq<Run> {
    Seq::new(s.len(), |i: int| s[i]@)
}

impl View for Late {
    type V = Record;

    closed spec fn view(&self) -> Record {
        Record { owed: owed_view(self.owed@), ended: ended_view(self.ended@) }
    }
}

pub open spec fn for_job(job: Seq<char>) -> spec_fn((Seq<char>, Seq<char>)) -> bool {
    |e: (Seq<char>, Seq<char>)| e.0 == job
}

pub open spec fn of_job(job: Seq<char>) -> spec_fn(Run) -> bool {
    |r: Run| r.job == job
}

/// Where the end of a command is owed, in the record.
pub open spec fn owed_at(r: Record, job: Seq<char>) -> int {
    seqs::first(r.owed, for_job(job))
}

pub open spec fn is_owed(r: Record, job: Seq<char>) -> bool {
    owed_at(r, job) < r.owed.len()
}

/// Where the end of a command is kept, in the record.
pub open spec fn ended_at(r: Record, job: Seq<char>) -> int {
    seqs::first(r.ended, of_job(job))
}

/// The ends that are owed without one command's.
pub open spec fn not_owed(r: Record, job: Seq<char>) -> Seq<(Seq<char>, Seq<char>)> {
    if is_owed(r, job) {
        r.owed.remove(owed_at(r, job))
    } else {
        r.owed
    }
}

/// Each command's end is owed at most once, and not too many ends are kept.
pub open spec fn kept(r: Record) -> bool {
    &&& forall|i: int, j: int|
        0 <= i < j < r.owed.len() ==> (#[trigger] r.owed[i]).0 != (#[trigger] r.owed[j]).0
    &&& r.ended.len() <= ENDS_KEPT
}

/// An agent's call on a command has begun: whatever it answers decides afresh. Only the command's
/// own agent counts.
pub open spec fn engaged(r: Record, agent: Seq<char>, job: Seq<char>) -> Record {
    if is_owed(r, job) && r.owed[owed_at(r, job)].1 == agent {
        Record { owed: not_owed(r, job), ..r }
    } else {
        r
    }
}

/// The record after an agent was given an answer.
pub open spec fn after_telling(r: Record, a: Run) -> Record {
    let at = ended_at(r, a.job);
    if !(a.state is Running) {
        Record {
            owed: not_owed(r, a.job),
            ended: if at < r.ended.len() {
                r.ended.remove(at)
            } else {
                r.ended
            },
        }
    } else if at < r.ended.len() {
        Record { ended: r.ended.remove(at), ..r }
    } else if is_owed(r, a.job) {
        Record { owed: r.owed.update(owed_at(r, a.job), (a.job, a.agent)), ..r }
    } else {
        Record { owed: r.owed.push((a.job, a.agent)), ..r }
    }
}

/// What is to be reported once an agent was given an answer: the end that came in between.
pub open spec fn reported_on_telling(r: Record, a: Run) -> Option<Run> {
    if a.state is Running && ended_at(r, a.job) < r.ended.len() {
        Some(r.ended[ended_at(r, a.job)])
    } else {
        None
    }
}

/// The record after a command ended.
pub open spec fn after_end(r: Record, a: Run) -> Record {
    if is_owed(r, a.job) {
        Record { owed: not_owed(r, a.job), ..r }
    } else {
        Record { ended: approvals::tail(r.ended.push(a), ENDS_KEPT as int), ..r }
    }
}

/// What is to be reported once a command ended.
pub open spec fn reported_on_end(r: Record, a: Run) -> Option<Run> {
    if is_owed(r, a.job) {
        Some(a)
    } else {
        None
    }
}

pub open spec fn run_of(r: Option<RunAnswer>) -> Option<Run> {
    match r {
        Some(a) => Some(a@),
        None => None,
    }
}

proof fn lemma_remove_owed(s: Seq<(Seq<char>, Seq<char>)>, k: int)
    requires
        forall|i: int, j: int|
            0 <= i < j < s.len() ==> (#[trigger] s[i]).0 != (#[trigger] s[j]).0,
        0 <= k < s.len(),
    ensures
        forall|i: int, j: int|
            0 <= i < j < s.len() - 1 ==> (#[trigger] s.remove(k)[i]).0 != (
            #[trigger] s.remove(k)[j]).0,
        forall|i: int| 0 <= i < s.len() - 1 ==> (#[trigger] s.remove(k)[i]).0 != s[k].0,
{
    let t = s.remove(k);
    assert forall|i: int, j: int| 0 <= i < j < s.len() - 1 implies (#[trigger] t[i]).0 != (
    #[trigger] t[j]).0 by {
        let p = if i < k { i } else { i + 1 };
        let q = if j < k { j } else { j + 1 };
        assert(s[p].0 != s[q].0);
    }
    assert forall|i: int| 0 <= i < s.len() - 1 implies (#[trigger] t[i]).0 != s[k].0 by {
        if i < k {
            assert(s[i].0 != s[k].0);
        } else {
            assert(s[k].0 != s[i + 1].0);
        }
    }
}

impl Late {
    pub fn new() -> (r: Late)
        ensures
            kept(r@),
            r@.owed.len() == 0,
            r@.ended.len() == 0,
    {
        Late { owed: Vec::new(), ended: Vec::new() }
    }

    fn owed_index(&self, job: &str) -> (r: usize)
        ensures
            r == owed_at(self@, job@),
            r <= self.owed@.len(),
    {
        let ghost s = self@.owed;
        let ghost f = for_job(job@);
        let mut i: usize = 0;
        while i < self.owed.len()
            invariant
                i <= self.owed@.len(),
                s == self@.owed,
                f == for_job(job@),
                seqs::first(s, f) == seqs::first_from(s, f, i as int),
            decreases self.owed@.len() - i,
        {
            assert(s[i as int] == (self.owed@[i as int].0@, self.owed@[i as int].1@));
            if same(self.owed[i].0.as_str(), job) {
                return i;
            }
            i += 1;
        }
        i
    }

    fn ended_index(&self, job: &str) -> (r: usize)
        ensures
            r == ended_at(self@, job@),
            r <= self.ended@.len(),
    {
        let ghost s = self@.ended;
        let ghost f = of_job(job@);
        let mut i: usize = 0;
        while i < self.ended.len()
            invariant
                i <= self.ended@.len(),
                s == self@.ended,
                f == of_job(job@),
                seqs::first(s, f) == seqs::first_from(s, f, i as int),
            decreases self.ended@.len() - i,
        {
            assert(s[i as int] == self.ended@[i as int]@);
            if same(self.ended[i].job.as_str(), job) {
                return i;
            }
            i += 1;
        }
        i
    }

    fn forget_owed(&mut self, job: &str)
        requires
            kept(old(self)@),
        ensures
            kept(final(self)@),
            final(self)@ == (Record { owed: not_owed(old(self)@, job@), ..old(self)@ }),
    {
        let i = self.owed_index(job);
        let ghost was = self@;
        if i < self.owed.len() {
            let _ = self.owed.remove(i);
            proof {
                assert(self@.owed =~= was.owed.remove(i as int));
                lemma_remove_owed(was.owed, i as int);
            }
        }
        assert(self@ =~= Record { owed: not_owed(was, job@), ..was });
    }

    /// An agent's call on a command has begun.
    pub fn engage(&mut self, agent: &AgentId, job: &str)
        requires
            kept(old(self)@),
        ensures
            kept(final(self)@),
            final(self)@ == engaged(old(self)@, agent@, job@),
    {
        let i = self.owed_index(job);
        if i < self.owed.len() {
            assert(self@.owed[i as int] == (self.owed@[i as int].0@, self.owed@[i as int].1@));
            if self.owed[i].1.is(agent) {
                self.forget_owed(job);
            }
        }
    }

    /// The agent has just been given an answer. Gives back the end to report now, where the
    /// command ended between being looked at and here.
    pub fn told(&mut self, answer: &RunAnswer) -> (r: Option<RunAnswer>)
        requires
            kept(old(self)@),
        ensures
            kept(final(self)@),
            final(self)@ == after_telling(old(self)@, answer@),
            run_of(r) == reported_on_telling(old(self)@, answer@),
    {
        let ghost was = self@;
        let at = self.ended_index(answer.job.as_str());
        if !answer.running() {
            self.forget_owed(answer.job.as_str());
            if at < self.ended.len() {
                let ghost before = self@;
                let _ = self.ended.remove(at);
                assert(self@.ended =~= before.ended.remove(at as int));
                assert(self@.owed =~= before.owed);
            }
            assert(self@ =~= after_telling(was, answer@));
            return None;
        }
        if at < self.ended.len() {
            assert(was.ended[at as int] == self.ended@[at as int]@);
            let end = self.ended.remove(at);
            assert(self@.ended =~= was.ended.remove(at as int));
            assert(self@ =~= after_telling(was, answer@));
            return Some(end);
        }
        let i = self.owed_index(answer.job.as_str());
        proof {
            seqs::lemma_first(was.owed, for_job(answer@.job));
        }
        let entry = (answer.job.clone(), answer.agent.copy());
        if i < self.owed.len() {
            self.owed.set(i, entry);
            proof {
                assert(self@.owed =~= was.owed.update(i as int, (answer@.job, answer@.agent)));
                assert forall|x: int, y: int| 0 <= x < y < self@.owed.len() implies (
                #[trigger] self@.owed[x]).0 != (#[trigger] self@.owed[y]).0 by {
                    assert(was.owed[x].0 != was.owed[y].0);
                }
            }
        } else {
            self.owed.push(entry);
            proof {
                assert(self@.owed =~= was.owed.push((answer@.job, answer@.agent)));
                assert forall|x: int, y: int| 0 <= x < y < self@.owed.len() implies (
                #[trigger] self@.owed[x]).0 != (#[trigger] self@.owed[y]).0 by {
                    if y < was.owed.len() {
                        assert(was.owed[x].0 != was.owed[y].0);
                    } else {
                        assert(!for_job(answer@.job)(was.owed[x]));
                    }
                }
            }
        }
        assert(self@ =~= after_telling(was, answer@));
        None
    }

    /// A command ended. Gives the end back when its agent is owed it.
    pub fn finished(&mut self, answer: &RunAnswer) -> (r: Option<RunAnswer>)
        requires
            kept(old(self)@),
        ensures
            kept(final(self)@),
            final(self)@ == after_end(old(self)@, answer@),
            run_of(r) == reported_on_end(old(self)@, answer@),
    {
        let ghost was = self@;
        let i = self.owed_index(answer.job.as_str());
        if i < self.owed.len() {
            self.forget_owed(answer.job.as_str());
            return Some(answer.copy());
        }
        self.ended.push(answer.copy());
        assert(self@.ended =~= was.ended.push(answer@));
        if self.ended.len() > ENDS_KEPT {
            let ghost all = self@.ended;
            let _ = self.ended.remove(0);
            assert(self@.ended =~= all.skip(1));
        }
        assert(self@ =~= after_end(was, answer@));
        None
    }

    /// How many ends are owed, and how many are kept that nobody was owed.
    pub fn counts(&self) -> (r: (usize, usize))
        ensures
            r.0 == self@.owed.len(),
            r.1 == self@.ended.len(),
    {
        (self.owed.len(), self.ended.len())
    }
}

// ── How an agent is told ────────────────────────────────────────────

/// How long a command ran, in words.
pub open spec fn duration_words(secs: u64, under_a_second: Seq<char>) -> Seq<char> {
    if secs == 0 {
        under_a_second
    } else if secs < 60 {
        text::dec(secs as nat) + " s"@
    } else if secs < 3600 {
        text::dec((secs / 60) as nat) + "m "@ + two_digits((secs % 60) as nat) + "s"@
    } else {
        text::dec((secs / 3600) as nat) + "h "@ + two_digits((secs % 3600 / 60) as nat) + "m"@
    }
}

pub open spec fn two_digits(n: nat) -> Seq<char> {
    if n < 10 {
        "0"@ + text::dec(n)
    } else {
        text::dec(n)
    }
}

fn two(n: u64) -> (r: String)
    ensures
        r@ == two_digits(n as nat),
{
    if n < 10 {
        let mut out = "0".to_owned();
        out.append(decimal(n).as_str());
        out
    } else {
        decimal(n)
    }
}

/// How long a command ran, in words. Under a second the caller says it, to a tenth.
pub fn human_duration(secs: u64, under_a_second: &str) -> (r: String)
    ensures
        r@ == duration_words(secs, under_a_second@),
{
    if secs == 0 {
        under_a_second.to_owned()
    } else if secs < 60 {
        let mut out = decimal(secs);
        out.append(" s");
        out
    } else if secs < 3600 {
        let mut out = decimal(secs / 60);
        out.append("m ");
        out.append(two(secs % 60).as_str());
        out.append("s");
        out
    } else {
        let mut out = decimal(secs / 3600);
        out.append("h ");
        out.append(two((secs % 3600) / 60).as_str());
        out.append("m");
        out
    }
}

/// How a command ended, in words.
pub open spec fn how_words(s: Stands) -> Seq<char> {
    match s {
        Stands::Exited { code } => "exit code "@ + text::dec_signed(code as int),
        Stands::Signalled { name } => "ended by "@ + match name {
            Some(n) => n,
            None => "a signal"@,
        },
        Stands::Running { waiting } => "still running"@,
    }
}

/// The last lines of an output.
pub open spec fn last_lines(tail: Seq<char>) -> Seq<char> {
    let lines = approvals::tail(text::lines(tail), NOTE_TAIL_LINES as int);
    let last = text::trim_end(text::join(lines, "\n"@));
    if config_store::byte_len(last) > NOTE_TAIL_BYTES {
        "\u{2026}"@ + last.skip(
            last.len() - text::fitting_end(last, NOTE_TAIL_BYTES as int),
        )
    } else {
        last
    }
}

/// What an agent reads of a command that ended late.
pub open spec fn note_words(a: Run) -> Seq<char> {
    let last = last_lines(a.tail);
    "Your command `"@ + text::clipped(text::trim(a.command), NOTE_COMMAND_CHARS as nat)
        + "` (job "@ + a.job + ") finished after the call that started it had returned: "@
        + how_words(a.state) + (if a.killed {
        " (it was stopped)"@
    } else {
        ""@
    }) + ", after "@ + duration_words(a.elapsed, a.under_a_second) + ", in "@
        + (match a.cwd_after {
        Some(d) => d,
        None => a.cwd,
    }) + ". "@ + (if last.len() == 0 {
        "It printed nothing."@
    } else {
        "Its last lines:\n"@ + last
    })
}

fn how_ended(s: &JobState) -> (r: String)
    ensures
        r@ == how_words(s@),
{
    match s {
        JobState::Exited { code } => {
            let mut out = "exit code ".to_owned();
            out.append(signed_decimal(*code as i64).as_str());
            out
        },
        JobState::Signalled { name } => {
            let mut out = "ended by ".to_owned();
            match name {
                Some(n) => {
                    out.append(n.as_str());
                },
                None => {
                    out.append("a signal");
                },
            }
            out
        },
        JobState::Running { .. } => "still running".to_owned(),
    }
}

fn last_lines_of(tail: &str) -> (r: String)
    ensures
        r@ == last_lines(tail@),
{
    let lines = lines_of(tail);
    let ghost all = text::lines(tail@);
    assert(text::strs(lines@).len() == lines@.len());
    let total: usize = lines.len();
    let from: usize = if total > NOTE_TAIL_LINES {
        total - NOTE_TAIL_LINES
    } else {
        0
    };
    let mut last: Vec<String> = Vec::new();
    let mut i: usize = from;
    while i < total
        invariant
            from <= i <= total,
            total == lines@.len(),
            last@.len() == i - from,
            forall|k: int| 0 <= k < i - from ==> (#[trigger] last@[k])@ == lines@[from + k]@,
        decreases total - i,
    {
        last.push(lines[i].clone());
        i += 1;
    }
    assert(text::strs(last@) =~= approvals::tail(all, NOTE_TAIL_LINES as int));
    let t = trim_end_of(joined(last.as_slice(), "\n").as_str());
    if t.as_str().len() > NOTE_TAIL_BYTES {
        let v = chars_of(t.as_str());
        let k = fits_end(v.as_slice(), NOTE_TAIL_BYTES);
        let mut out = "\u{2026}".to_owned();
        out.append(rest(v.as_slice(), v.len() - k).as_str());
        out
    } else {
        t
    }
}

/// The note an agent reads at the start of its next turn: which command, how it ended, where, and
/// the last few lines.
pub fn late_note(answer: &RunAnswer) -> (r: String)
    ensures
        r@ == note_words(answer@),
{
    let last = last_lines_of(answer.tail.as_str());
    let mut out = "Your command `".to_owned();
    out.append(clip(trimmed(answer.command.as_str()).as_str(), NOTE_COMMAND_CHARS).as_str());
    out.append("` (job ");
    out.append(answer.job.as_str());
    out.append(") finished after the call that started it had returned: ");
    out.append(how_ended(&answer.state).as_str());
    if answer.killed {
        out.append(" (it was stopped)");
    } else {
        out.append("");
    }
    out.append(", after ");
    out.append(human_duration(answer.elapsed_secs, answer.under_a_second.as_str()).as_str());
    out.append(", in ");
    match &answer.cwd_after {
        Some(d) => {
            out.append(d.as_str());
        },
        None => {
            out.append(answer.cwd.as_str());
        },
    }
    out.append(". ");
    let output = if last.as_str().is_empty() {
        "It printed nothing.".to_owned()
    } else {
        let mut t = "Its last lines:\n".to_owned();
        t.append(last.as_str());
        t
    };
    out.append(output.as_str());
    out
}

// ── Calls ───────────────────────────────────────────────────────────

/// The command a call names.
pub fn job_arg(args: &Json) -> (r: Result<String, String>)
    ensures
        ({
            let job = json::argument(args@, "job"@);
            match r {
                Ok(s) => s@ == job && job.len() > 0,
                Err(why) => job.len() == 0 && why@
                    == "`job` is empty: the id `agent_run` answered with."@,
            }
        }),
{
    let job = argument_of(args, "job");
    if job.as_str().is_empty() {
        return Err("`job` is empty: the id `agent_run` answered with.".to_owned());
    }
    Ok(job)
}

/// How long a call waits, given how long it may at most: as long as it says, and the usual time
/// where it says nothing.
pub fn wait_arg(given: Given, usual: Wait, most: u32) -> (r: Result<Wait, String>)
    ensures
        match given {
            Given::Nothing => r == Ok::<Wait, String>(usual),
            Given::Other => r matches Err(why) && why@ == "`wait` is a number of seconds."@,
            Given::Number(n) => if control_agents::between(n, 0, most as int) {
                r == Ok::<Wait, String>(Wait { secs: n.floor as u64, nanos: n.nanos })
            } else {
                r matches Err(why) && why@ == "`wait` is between 0 and "@ + text::dec(most as nat)
                    + " seconds. A command still running when it runs out answers `running: true` with its job id, and `agent_job` waits on it again."@
            },
        },
{
    match given {
        Given::Nothing => Ok(usual),
        Given::Other => Err("`wait` is a number of seconds.".to_owned()),
        Given::Number(n) => {
            let top: i64 = most as i64;
            if n.floor < 0 || n.floor > top || (n.floor == top && n.fraction) {
                let mut out = "`wait` is between 0 and ".to_owned();
                out.append(decimal(most as u64).as_str());
                out.append(
                    " seconds. A command still running when it runs out answers `running: true` with its job id, and `agent_job` waits on it again.",
                );
                return Err(out);
            }
            Ok(Wait { secs: n.floor as u64, nanos: n.nanos })
        },
    }
}

/// Where a command is to run, where that is said.
pub fn cwd_arg(args: &Json) -> (r: Option<String>)
    ensures
        ({
            let cwd = json::argument(args@, "cwd"@);
            match r {
                Some(s) => s@ == cwd && cwd.len() > 0,
                None => cwd.len() == 0,
            }
        }),
{
    let cwd = argument_of(args, "cwd");
    if cwd.as_str().is_empty() {
        None
    } else {
        Some(cwd)
    }
}

/// What is to be typed into a command, exactly.
pub fn typed_arg(args: &Json) -> (r: Result<String, String>)
    ensures
        ({
            let typed = json::text_under(args@, "text"@);
            match r {
                Ok(s) => s@ == typed && typed.len() > 0,
                Err(why) => typed.len() == 0 && why@
                    == "`text` is empty: the exact characters to send."@,
            }
        }),
{
    let typed = text_at(args, "text");
    if typed.as_str().is_empty() {
        return Err("`text` is empty: the exact characters to send.".to_owned());
    }
    Ok(typed)
}

/// What a caller may do next about a command.
pub open spec fn next_step(s: Stands) -> Option<Seq<char>> {
    match s {
        Stands::Running { waiting } => Some(
            if waiting {
                "it looks like it is waiting for input: the person can answer in its card, `agent_input` sends text (end it with \\n to press Return), `agent_kill` stops it"@
            } else {
                "still running: `agent_job` waits for it again, `agent_kill` stops it"@
            },
        ),
        _ => None,
    }
}

/// What the terminal says of a command, with the next step where there is one.
pub open spec fn with_next(e: Seq<json::Entry>, s: Stands) -> Seq<json::Entry> {
    match next_step(s) {
        Some(next) => e.push(("next"@, Tree::Str(next))),
        None => e,
    }
}

/// What the terminal says of a command, with the next step spelled out where there is one.
pub fn answer_json(said: Vec<(String, Json)>, state: &JobState) -> (r: Vec<(String, Json)>)
    ensures
        json::entries(r@) == with_next(json::entries(said@), state@),
{
    let mut out = said;
    match state {
        JobState::Running { waiting_for_input: true } => {
            put_last(
                &mut out,
                "next",
                string(
                    "it looks like it is waiting for input: the person can answer in its card, `agent_input` sends text (end it with \\n to press Return), `agent_kill` stops it",
                ),
            );
        },
        JobState::Running { waiting_for_input: false } => {
            put_last(
                &mut out,
                "next",
                string("still running: `agent_job` waits for it again, `agent_kill` stops it"),
            );
        },
        _ => {},
    }
    out
}

/// What `agent_input` answers: where the command stands, and how many bytes were sent.
pub fn input_answer(said: Vec<(String, Json)>, state: &JobState, typed: &str) -> (r: Json)
    ensures
        r@ == Tree::Object(
            with_next(json::entries(said@), state@).push(
                ("sent_bytes"@, Tree::Num(json::whole(config_store::byte_len(typed@) as u64))),
            ),
        ),
{
    let mut out = answer_json(said, state);
    put_last(&mut out, "sent_bytes", number(typed.len() as u64));
    Json::Object(out)
}

/// What `agent_kill` answers: where the command stands, and whether anything was signalled.
pub fn kill_answer(said: Vec<(String, Json)>, state: &JobState, stopped: bool) -> (r: Json)
    ensures
        ({
            let e = with_next(json::entries(said@), state@).push(
                ("stopped"@, Tree::Bool(stopped)),
            );
            r@ == Tree::Object(
                if stopped {
                    e
                } else {
                    e.push(
                        (
                            "note"@,
                            Tree::Str("it had already ended; nothing was signalled"@),
                        ),
                    )
                },
            )
        }),
{
    let mut out = answer_json(said, state);
    put_last(&mut out, "stopped", Json::Bool(stopped));
    if !stopped {
        put_last(&mut out, "note", string("it had already ended; nothing was signalled"));
    }
    Json::Object(out)
}

/// A command that runs.
pub struct RunningJob {
    pub job: String,
    pub agent: String,
    pub command: String,
    pub elapsed_secs: u64,
    pub waiting_for_input: bool,
}

impl Row for RunningJob {
    open spec fn row(&self) -> Tree {
        Tree::Object(
            seq![
                ("job"@, Tree::Str(self.job@)),
                ("command"@, Tree::Str(text::clipped(self.command@, COMMAND_CLIP as nat))),
                ("elapsed_secs"@, Tree::Num(json::whole(self.elapsed_secs))),
                ("waiting_for_input"@, Tree::Bool(self.waiting_for_input)),
            ],
        )
    }

    fn to_json(&self) -> (r: Json) {
        let mut o: Vec<(String, Json)> = Vec::new();
        put_last(&mut o, "job", string(self.job.as_str()));
        put_last(&mut o, "command", Json::Str(clip(self.command.as_str(), COMMAND_CLIP)));
        put_last(&mut o, "elapsed_secs", number(self.elapsed_secs));
        put_last(&mut o, "waiting_for_input", Json::Bool(self.waiting_for_input));
        assert(json::entries(o@) =~= self.row()->Object_0);
        Json::Object(o)
    }
}

/// The agents that have commands running, each once, in the order they come.
pub open spec fn agents_of(jobs: Seq<RunningJob>, n: int) -> Seq<Seq<char>>
    decreases n,
{
    if n <= 0 {
        Seq::empty()
    } else {
        let before = agents_of(jobs, n - 1);
        if before.contains(jobs[n - 1].agent@) {
            before
        } else {
            before.push(jobs[n - 1].agent@)
        }
    }
}

pub open spec fn runs_for(agent: Seq<char>) -> spec_fn(RunningJob) -> bool {
    |j: RunningJob| j.agent@ == agent
}

/// What is reported of an agent's commands.
pub open spec fn agent_tree(jobs: Seq<RunningJob>, agent: Seq<char>) -> Tree {
    Tree::Object(
        seq![
            ("agent"@, Tree::Str(agent)),
            ("running"@, Tree::Array(json::rows(jobs.filter(runs_for(agent))))),
        ],
    )
}

fn rows_for(jobs: &[RunningJob], agent: &str) -> (r: Json)
    ensures
        r@ == Tree::Array(json::rows(jobs@.filter(runs_for(agent@)))),
{
    let ghost f = runs_for(agent@);
    let mut out: Vec<Json> = Vec::new();
    let mut i: usize = 0;
    proof {
        seqs::lemma_filter_none(jobs@, f);
        assert(json::trees(out@) =~= json::rows(jobs@.take(0).filter(f)));
    }
    while i < jobs.len()
        invariant
            i <= jobs@.len(),
            f == runs_for(agent@),
            json::trees(out@) == json::rows(jobs@.take(i as int).filter(f)),
        decreases jobs@.len() - i,
    {
        let ghost was = out@;
        let ghost kept = jobs@.take(i as int).filter(f);
        proof {
            seqs::lemma_filter_take(jobs@, f, i as int);
        }
        if same(jobs[i].agent.as_str(), agent) {
            out.push(jobs[i].to_json());
            proof {
                assert(out@.drop_last() =~= was);
                assert(json::rows(kept.push(jobs@[i as int])) =~= json::rows(kept).push(
                    jobs@[i as int].row(),
                ));
            }
        }
        i += 1;
    }
    assert(jobs@.take(i as int) =~= jobs@);
    Json::Array(out)
}

fn is_among(list: &Vec<String>, name: &str) -> (r: bool)
    ensures
        r == text::strs(list@).contains(name@),
{
    let ghost all = text::strs(list@);
    let mut i: usize = 0;
    while i < list.len()
        invariant
            i <= list@.len(),
            all == text::strs(list@),
            forall|k: int| 0 <= k < i ==> #[trigger] all[k] != name@,
        decreases list@.len() - i,
    {
        assert(all[i as int] == list@[i as int]@);
        if same(list[i].as_str(), name) {
            return true;
        }
        i += 1;
    }
    false
}

/// What is reported of every agent's commands.
pub fn for_describe(jobs: &[RunningJob]) -> (r: Json)
    ensures
        ({
            let names = agents_of(jobs@, jobs@.len() as int);
            r@ == Tree::Array(Seq::new(names.len(), |i: int| agent_tree(jobs@, names[i])))
        }),
{
    let mut names: Vec<String> = Vec::new();
    let mut i: usize = 0;
    assert(text::strs(names@) =~= Seq::empty());
    while i < jobs.len()
        invariant
            i <= jobs@.len(),
            text::strs(names@) == agents_of(jobs@, i as int),
        decreases jobs@.len() - i,
    {
        let ghost was = text::strs(names@);
        if !is_among(&names, jobs[i].agent.as_str()) {
            names.push(jobs[i].agent.clone());
            assert(text::strs(names@) =~= was.push(jobs@[i as int].agent@));
        }
        i += 1;
    }
    let ghost all = agents_of(jobs@, jobs@.len() as int);
    let mut out: Vec<Json> = Vec::new();
    let mut k: usize = 0;
    while k < names.len()
        invariant
            k <= names@.len(),
            text::strs(names@) == all,
            out@.len() == k,
            forall|j: int| 0 <= j < k ==> (#[trigger] out@[j])@ == agent_tree(jobs@, all[j]),
        decreases names@.len() - k,
    {
        assert(all[k as int] == names@[k as int]@);
        let mut o: Vec<(String, Json)> = Vec::new();
        put_last(&mut o, "agent", string(names[k].as_str()));
        put_last(&mut o, "running", rows_for(jobs, names[k].as_str()));
        assert(json::entries(o@) =~= agent_tree(jobs@, all[k as int])->Object_0);
        out.push(Json::Object(o));
        k += 1;
    }
    proof {
        json::lemma_trees(out@);
        assert(json::trees(out@) =~= Seq::new(all.len(), |i: int| agent_tree(jobs@, all[i])));
    }
    Json::Array(out)
}

// ── Published actions ───────────────────────────────────────────────

pub const ABOUT_AGENT_RUN: &'static str =
    "Run one command line in a fresh terminal of your own, in your pane \u{2014} not the person's Terminal. Answers when it exits, with `exit_code` (or `signal`), `cwd_after` and the `tail` of its output; if it is still going after `wait` it answers `running: true` with a `job` id. The directory carries to your next command; exported variables and other shell state do not. The environment is HOME, USER, PATH, LANG and TERM only. Acts for the agent named by the agent token your call carries beside `args` (`yos act --agent-token`, or YANTRIK_AGENT_TOKEN in yos's environment) \u{2014} never an argument.";

pub const ABOUT_AGENT_RUN_COMMAND: &'static str =
    "One command line, as it would be typed. Pipes, redirection, `&&` and `cd` work; it runs under bash";

pub const ABOUT_AGENT_RUN_CWD: &'static str =
    "Where to run it, absolute or relative to your current directory. Left out: where your last command ended";

pub const ABOUT_AGENT_RUN_WAIT: &'static str =
    "Seconds to wait for it to finish before answering `running: true`. Default 120, at most 600";

pub const ABOUT_AGENT_JOB: &'static str =
    "Wait for one of your commands that answered `running: true`, and say where it stands: the same answer `agent_run` gives. `wait: 0` only looks. Answers early if the command starts waiting for input. Acts for the agent named by the agent token your call carries beside `args` (`yos act --agent-token`, or YANTRIK_AGENT_TOKEN in yos's environment) \u{2014} never an argument.";

pub const ABOUT_AGENT_INPUT: &'static str =
    "Type into one of your running commands, exactly the characters given \u{2014} no newline is added, so end with \\n to press Return; \\u0003 is Ctrl-C. Answers with where the command stands a moment later. Acts for the agent named by the agent token your call carries beside `args` (`yos act --agent-token`, or YANTRIK_AGENT_TOKEN in yos's environment) \u{2014} never an argument.";

pub const ABOUT_AGENT_KILL: &'static str =
    "Stop one of your commands: its whole process group gets SIGTERM, and SIGKILL two seconds later if anything is left. Answers once it has ended, with how. Acts for the agent named by the agent token your call carries beside `args` (`yos act --agent-token`, or YANTRIK_AGENT_TOKEN in yos's environment) \u{2014} never an argument.";

/// The actions this module publishes.
pub open spec fn published() -> Seq<Listing> {
    Seq::<Listing>::empty().push(
        Listing::new("agent_run"@, ABOUT_AGENT_RUN@).risk("sensitive"@).deferred()
            .arg(Takes::new("command"@, ParamKind::Text).described(ABOUT_AGENT_RUN_COMMAND@))
            .arg(Takes::new("cwd"@, ParamKind::Text).left_out().described(ABOUT_AGENT_RUN_CWD@))
            .arg(Takes::new("wait"@, ParamKind::Number).left_out().described(ABOUT_AGENT_RUN_WAIT@)),
    ).push(
        Listing::new("agent_job"@, ABOUT_AGENT_JOB@)
            .arg(Takes::new("job"@, ParamKind::Text).described("The `job` id `agent_run` answered with"@))
            .arg(Takes::new("wait"@, ParamKind::Number).left_out().described("Seconds to wait for it to finish. Default 120, at most 600"@)),
    ).push(
        Listing::new("agent_input"@, ABOUT_AGENT_INPUT@).risk("sensitive"@)
            .arg(Takes::new("job"@, ParamKind::Text).described("The `job` id `agent_run` answered with"@))
            .arg(Takes::new("text"@, ParamKind::Text).described("The exact characters to send, up to 64 KiB"@)),
    ).push(
        Listing::new("agent_kill"@, ABOUT_AGENT_KILL@)
            .arg(Takes::new("job"@, ParamKind::Text).described("The `job` id `agent_run` answered with"@)),
    )
}

/// The actions this module publishes.
pub fn actions() -> (r: Vec<Action>)
    ensures
        surface::shown(r@) == published(),
{
    let mut out: Vec<Action> = Vec::new();
    assert(surface::shown(out@) =~= Seq::<Listing>::empty());
    add_action(
        &mut out,
        Action::new("agent_run", ABOUT_AGENT_RUN).risk("sensitive").defers()
            .arg(Param::text("command").describe(ABOUT_AGENT_RUN_COMMAND))
            .arg(Param::text("cwd").optional().describe(ABOUT_AGENT_RUN_CWD))
            .arg(Param::number("wait").optional().describe(ABOUT_AGENT_RUN_WAIT)),
    );
    add_action(
        &mut out,
        Action::new("agent_job", ABOUT_AGENT_JOB)
            .arg(Param::text("job").describe("The `job` id `agent_run` answered with"))
            .arg(Param::number("wait").optional().describe("Seconds to wait for it to finish. Default 120, at most 600")),
    );
    add_action(
        &mut out,
        Action::new("agent_input", ABOUT_AGENT_INPUT).risk("sensitive")
            .arg(Param::text("job").describe("The `job` id `agent_run` answered with"))
            .arg(Param::text("text").describe("The exact characters to send, up to 64 KiB")),
    );
    add_action(
        &mut out,
        Action::new("agent_kill", ABOUT_AGENT_KILL)
            .arg(Param::text("job").describe("The `job` id `agent_run` answered with")),
    );
    out
}

// ── Laws ────────────────────────────────────────────────────────────

/// An end is owed exactly where the agent's last word on the command was that it runs: told so and
/// not come back to it, the agent gets the end, once; told the end, it gets no note.
pub proof fn law_an_end_is_owed_once(r: Record, running: Run, end: Run)
    requires
        kept(r),
        running.state is Running,
        !(end.state is Running),
        end.job == running.job,
        ended_at(r, end.job) == r.ended.len(),
    ensures
        reported_on_telling(r, running) is None,
        reported_on_end(after_telling(r, running), end) == Some(end),
        !is_owed(after_end(after_telling(r, running), end), end.job),
        !is_owed(after_telling(r, end), end.job),
{
    let f = for_job(end.job);
    seqs::lemma_first(r.owed, f);
    let t = after_telling(r, running);
    if is_owed(r, end.job) {
        let i = owed_at(r, end.job);
        assert forall|j: int| 0 <= j < i implies !f(#[trigger] t.owed[j]) by {
            assert(r.owed[j] == t.owed[j]);
        }
        seqs::lemma_first_is(t.owed, f, i);
        lemma_remove_owed(r.owed, i);
        assert forall|j: int| 0 <= j < not_owed(r, end.job).len() implies !f(
            #[trigger] not_owed(r, end.job)[j],
        ) by {
            assert(r.owed.remove(i)[j].0 != r.owed[i].0);
        }
        seqs::lemma_first_none(not_owed(r, end.job), f);
        let gone = not_owed(t, end.job);
        assert(gone =~= r.owed.remove(i));
    } else {
        let i = r.owed.len() as int;
        assert forall|j: int| 0 <= j < i implies !f(#[trigger] t.owed[j]) by {
            assert(r.owed[j] == t.owed[j]);
        }
        assert(f(t.owed[i]));
        seqs::lemma_first_is(t.owed, f, i);
        assert(not_owed(t, end.job) =~= r.owed);
    }
}

/// It does not matter which comes first, the answer that a command runs or its end: either way the
/// end is reported once, and nothing of it is left.
pub proof fn law_the_race_is_caught(r: Record, running: Run, end: Run)
    requires
        kept(r),
        running.state is Running,
        end.job == running.job,
        !is_owed(r, end.job),
        ended_at(r, end.job) == r.ended.len(),
        r.ended.len() < ENDS_KEPT,
    ensures
        reported_on_end(r, end) is None,
        reported_on_telling(after_end(r, end), running) == Some(end),
        after_telling(after_end(r, end), running) == r,
        reported_on_end(after_telling(r, running), end) == Some(end),
        after_end(after_telling(r, running), end) == r,
{
    let f = of_job(end.job);
    seqs::lemma_first(r.ended, f);
    let e = after_end(r, end);
    assert(e.ended =~= r.ended.push(end));
    assert forall|j: int| 0 <= j < r.ended.len() implies !f(#[trigger] e.ended[j]) by {
        assert(r.ended[j] == e.ended[j]);
    }
    seqs::lemma_first_is(e.ended, f, r.ended.len() as int);
    assert(after_telling(e, running) =~= r);
    let g = for_job(end.job);
    seqs::lemma_first(r.owed, g);
    let t = after_telling(r, running);
    assert forall|j: int| 0 <= j < r.owed.len() implies !g(#[trigger] t.owed[j]) by {
        assert(r.owed[j] == t.owed[j]);
    }
    seqs::lemma_first_is(t.owed, g, r.owed.len() as int);
    assert(after_end(t, end) =~= r);
}

/// An agent naming another agent's command does not take its note away.
pub proof fn law_another_agents_call_takes_no_note(r: Record, agent: Seq<char>, job: Seq<char>)
    requires
        is_owed(r, job),
        r.owed[owed_at(r, job)].1 != agent,
    ensures
        engaged(r, agent, job) == r,
{
}

/// However many commands end, no more than so many ends are kept.
pub proof fn law_ends_kept_are_bounded(r: Record, a: Run, agent: Seq<char>, job: Seq<char>)
    requires
        kept(r),
    ensures
        after_end(r, a).ended.len() <= ENDS_KEPT,
        after_telling(r, a).ended.len() <= ENDS_KEPT,
        engaged(r, agent, job).ended.len() <= ENDS_KEPT,
{
    seqs::lemma_first(r.ended, of_job(a.job));
}

// ── What is told of a command ───────────────────────────────────────

/// An agent that looks after its own command is not told of its end again.
pub proof fn law_its_own_call_takes_the_note(r: Record, agent: Seq<char>, job: Seq<char>, i: int)
    requires
        kept(r),
        0 <= i < r.owed.len(),
        r.owed[i] == (job, agent),
    ensures
        engaged(r, agent, job).owed == r.owed.remove(i),
        !is_owed(engaged(r, agent, job), job),
{
    let f = for_job(job);
    assert forall|j: int| 0 <= j < i implies !f(#[trigger] r.owed[j]) by {
        assert(r.owed[j].0 != r.owed[i].0);
    }
    seqs::lemma_first_is(r.owed, f, i);
    let rest = r.owed.remove(i);
    assert forall|j: int| 0 <= j < rest.len() implies !f(#[trigger] rest[j]) by {
        if j < i {
            assert(r.owed[j].0 != r.owed[i].0);
        } else {
            assert(r.owed[i].0 != r.owed[j + 1].0);
        }
    }
    seqs::lemma_first_none(rest, f);
}

/// An end that nobody waits for is kept, the last sixteen of them, and told to nobody.
pub proof fn law_an_end_nobody_waits_for_is_kept(r: Record, a: Run)
    requires
        forall|i: int| 0 <= i < r.owed.len() ==> (#[trigger] r.owed[i]).0 != a.job,
    ensures
        reported_on_end(r, a) is None,
        after_end(r, a).owed == r.owed,
        r.ended.len() < 16 ==> after_end(r, a).ended == r.ended.push(a),
        r.ended.len() == 16 ==> after_end(r, a).ended == r.ended.skip(1).push(a),
{
    seqs::lemma_first_none(r.owed, for_job(a.job));
    if r.ended.len() == 16 {
        assert(r.ended.push(a).skip(1) =~= r.ended.skip(1).push(a));
    }
}

/// How long a command took is told in seconds, in minutes and seconds, or in hours and minutes, the
/// second of the two always with two digits.
pub proof fn law_how_long_it_took(hours: u64, minutes: u64, seconds: u64, under: Seq<char>)
    requires
        minutes < 60,
        seconds < 60,
        hours <= 1_000_000,
    ensures
        ({
            let two = |n: u64| if n < 10 { "0"@ + text::dec(n as nat) } else { text::dec(n as nat) };
            let secs = (3600 * hours + 60 * minutes + seconds) as u64;
            &&& secs == 0 ==> duration_words(secs, under) == under
            &&& hours == 0 && minutes == 0 && seconds > 0 ==> duration_words(secs, under)
                == text::dec(seconds as nat) + " s"@
            &&& hours == 0 && minutes > 0 ==> duration_words(secs, under) == text::dec(
                minutes as nat,
            ) + "m "@ + two(seconds) + "s"@
            &&& hours > 0 ==> duration_words(secs, under) == text::dec(hours as nat) + "h "@ + two(
                minutes,
            ) + "m"@
        }),
{
    let secs = (3600 * hours + 60 * minutes + seconds) as u64;
    if hours == 0 {
        assert(secs / 60 == minutes && secs % 60 == seconds);
    } else {
        assert(secs / 3600 == hours && secs % 3600 / 60 == minutes);
    }
}

/// How a command ended is told: by its exit code, by the signal that ended it, or that it runs.
pub proof fn law_how_it_ended(code: i32, name: Seq<char>, waiting: bool)
    ensures
        how_words(Stands::Exited { code }) == "exit code "@ + text::dec_signed(code as int),
        how_words(Stands::Signalled { name: Some(name) }) == "ended by "@ + name,
        how_words(Stands::Signalled { name: None }) == "ended by "@ + "a signal"@,
        how_words(Stands::Running { waiting }) == "still running"@,
        next_step(Stands::Running { waiting }) is Some,
        next_step(Stands::Exited { code }) is None,
        next_step(Stands::Signalled { name: None }) is None,
        next_step(Stands::Running { waiting: true }) != next_step(Stands::Running { waiting: false }),
{
    reveal_strlit(
        "it looks like it is waiting for input: the person can answer in its card, `agent_input` sends text (end it with \\n to press Return), `agent_kill` stops it",
    );
    reveal_strlit("still running: `agent_job` waits for it again, `agent_kill` stops it");
    assert("still running: `agent_job` waits for it again, `agent_kill` stops it"@[0] == 's');
    assert("it looks like it is waiting for input: the person can answer in its card, `agent_input` sends text (end it with \\n to press Return), `agent_kill` stops it"@[0]
        == 'i');
}

/// Of what a command printed the last five lines are told, and of these no more than the last four
/// hundred bytes, with a sign where that is not all.
pub proof fn law_the_last_five_lines_are_told(tail: Seq<char>)
    ensures
        ({
            let all = text::lines(tail);
            let five = if all.len() <= 5 {
                all
            } else {
                all.skip(all.len() - 5)
            };
            let last = text::trim_end(text::join(five, "\n"@));
            let k = text::fitting_end(last, 400);
            &&& config_store::byte_len(last) <= 400 ==> last_lines(tail) == last
            &&& config_store::byte_len(last) > 400 ==> last_lines(tail) == "\u{2026}"@ + last.skip(
                last.len() - k,
            ) && text::bytes_in(last.skip(last.len() - k)) <= 400
        }),
{
    let all = text::lines(tail);
    let five = if all.len() <= 5 {
        all
    } else {
        all.skip(all.len() - 5)
    };
    text::law_the_longest_end_that_fits(text::trim_end(text::join(five, "\n"@)), 400);
}

/// A note names the command and its job, how it ended and whether it was stopped, how long it took
/// and where it left off.
pub proof fn law_what_a_note_says(a: Run)
    requires
        text::trim(a.command).len() <= 120,
        last_lines(a.tail).len() == 0,
    ensures
        note_words(a) == "Your command `"@ + text::trim(a.command) + "` (job "@ + a.job
            + ") finished after the call that started it had returned: "@ + how_words(a.state) + (
        if a.killed {
            " (it was stopped)"@
        } else {
            ""@
        }) + ", after "@ + duration_words(a.elapsed, a.under_a_second) + ", in "@ + (match a.cwd_after {
            Some(d) => d,
            None => a.cwd,
        }) + ". "@ + "It printed nothing."@,
{
}

/// Every agent that runs something is named once.
pub proof fn law_every_busy_agent_is_named_once(jobs: Seq<RunningJob>, n: int)
    requires
        0 <= n <= jobs.len(),
    ensures
        agents_of(jobs, n).no_duplicates(),
        forall|i: int| 0 <= i < n ==> agents_of(jobs, n).contains((#[trigger] jobs[i]).agent@),
    decreases n,
{
    if n > 0 {
        law_every_busy_agent_is_named_once(jobs, n - 1);
        let before = agents_of(jobs, n - 1);
        let all = agents_of(jobs, n);
        let one = jobs[n - 1].agent@;
        assert forall|i: int| 0 <= i < n implies all.contains((#[trigger] jobs[i]).agent@) by {
            if i < n - 1 {
                assert(before.contains(jobs[i].agent@));
                let k = choose|k: int| 0 <= k < before.len() && before[k] == jobs[i].agent@;
                assert(all[k] == jobs[i].agent@);
            } else if !before.contains(one) {
                assert(all[before.len() as int] == one);
            }
        }
        assert(all.no_duplicates()) by {
            assert forall|i: int, j: int| 0 <= i < all.len() && 0 <= j < all.len() && i != j implies all[i]
                != all[j] by {
                if i == before.len() && j < before.len() {
                    assert(before.contains(before[j]));
                }
                if j == before.len() && i < before.len() {
                    assert(before.contains(before[i]));
                }
            }
        }
    }
}

/// Running a command and typing into one are sensitive; waiting for one and stopping it are not.
pub proof fn law_how_the_terminals_actions_are_graded()
    ensures
        published().len() == 4,
        published()[0].name == "agent_run"@ && published()[0].grade == "sensitive"@,
        published()[1].name == "agent_job"@ && published()[1].grade == "standard"@,
        published()[2].name == "agent_input"@ && published()[2].grade == "sensitive"@,
        published()[3].name == "agent_kill"@ && published()[3].grade == "standard"@,
{
}

/// A call waits as long as it says, up to what it may, and the usual time where it says nothing.
pub proof fn law_how_long_a_call_waits(given: Given, usual: Wait, most: u32, r: Result<Wait, String>)
    requires
        call_ensures(wait_arg, (given, usual, most), r),
    ensures
        given is Nothing ==> r == Ok::<Wait, String>(usual),
        given is Other ==> r is Err,
        given matches Given::Number(n) ==> (r is Ok <==> 0 <= n.floor < most || n.floor == most
            && !n.fraction),
        given is Number && r is Ok ==> r->Ok_0.secs == given->Number_0.floor && r->Ok_0.nanos
            == given->Number_0.nanos,
{
}

/// What is typed into a command is typed as it is, white space and all; a command has to be named.
pub proof fn law_what_is_typed_is_typed_as_it_is(
    args: Json,
    typed: Result<String, String>,
    job: Result<String, String>,
    cwd: Option<String>,
)
    requires
        call_ensures(typed_arg, (&args,), typed),
        call_ensures(job_arg, (&args,), job),
        call_ensures(cwd_arg, (&args,), cwd),
    ensures
        typed is Ok <==> json::text_under(args@, "text"@).len() > 0,
        typed matches Ok(t) ==> t@ == json::text_under(args@, "text"@),
        job is Ok <==> json::argument(args@, "job"@).len() > 0,
        job matches Ok(t) ==> t@ == json::argument(args@, "job"@),
        cwd is Some <==> json::argument(args@, "cwd"@).len() > 0,
        cwd matches Some(t) ==> t@ == json::argument(args@, "cwd"@),
{
}

/// What runs for an agent is listed under its name: every command of it, and no other agent's.
pub proof fn law_what_runs_is_listed_under_its_agent(jobs: Seq<RunningJob>, agent: Seq<char>, i: int)
    requires
        0 <= i < jobs.len(),
    ensures
        agent_tree(jobs, agent)->Object_0[0] == ("agent"@, Tree::Str(agent)),
        ({
            let mine = jobs.filter(runs_for(agent));
            &&& jobs[i].agent@ == agent ==> mine.contains(jobs[i])
            &&& jobs[i].agent@ != agent ==> !mine.contains(jobs[i])
            &&& agent_tree(jobs, agent)->Object_0[1] == (
                "running"@,
                Tree::Array(json::rows(mine)),
            )
        }),
{
    let f = runs_for(agent);
    seqs::lemma_filter_from(jobs, f);
    assert(jobs.contains(jobs[i]));
    let mine = jobs.filter(f);
    if mine.contains(jobs[i]) {
        let k = choose|k: int| 0 <= k < mine.len() && mine[k] == jobs[i];
        assert(f(mine[k]));
    }
}

/// What was stopped is told to be, and what had ended before is told not to have been signalled;
/// what was typed is told by its bytes.
pub proof fn law_what_a_stop_answers(
    said: Vec<(String, Json)>,
    state: JobState,
    stopped: bool,
    r: Json,
)
    requires
        call_ensures(kill_answer, (said, &state, stopped), r),
    ensures
        stopped ==> r@->Object_0.last() == ("stopped"@, Tree::Bool(true)),
        !stopped ==> r@->Object_0.drop_last().last() == ("stopped"@, Tree::Bool(false)),
        !stopped ==> r@->Object_0.last().0 == "note"@,
        r@->Object_0.len() >= said@.len() + 1,
        said@.len() > 0 ==> r@->Object_0[0] == json::entries(said@)[0],
{
    json::lemma_entries(said@);
}

} // verus!
