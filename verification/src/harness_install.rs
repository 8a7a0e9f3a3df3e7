//! Installing and starting a harness, as a job whose output the person can watch.
//!
//! A [`Board`] holds the last job of every harness. Running the command, and reading what it says,
//! is the caller's: each line is handed to [`said`] and the end to [`finish`].
use crate::seqs;
use crate::text;
use crate::text::{chars_of, has, joined, same, signed_decimal, trim_end_of};
use vstd::prelude::*;

verus! {

/// What a job does.
#[derive(Clone, Copy, PartialEq, Eq, Structural, Debug)]
pub enum JobKind {
    Install,
    Start,
}

impl JobKind {
    pub open spec fn name(self) -> Seq<char> {
        match self {
            JobKind::Install => "install"@,
            JobKind::Start => "start"@,
        }
    }

    pub fn verb(self) -> (r: &'static str)
        ensures
            r@ == self.name(),
    {
        match self {
            JobKind::Install => "install",
            JobKind::Start => "start",
        }
    }
}

/// How a harness is installed: the command, and what is said to be done meanwhile.
pub struct Install {
    pub command: String,
    pub doing: String,
}

/// What is known of a harness here.
pub struct Manifest {
    pub id: String,
    pub install: Option<Install>,
    /// The unit that starts it, or nothing where it has none.
    pub unit: String,
}

/// What a row reads of a job.
#[derive(Debug)]
pub struct JobView {
    pub kind: JobKind,
    pub running: bool,
    pub doing: String,
    pub log: String,
    pub error: String,
}

struct Job {
    id: String,
    kind: JobKind,
    doing: String,
    lines: Vec<String>,
    running: bool,
    error: String,
}

/// A job of a harness.
pub struct Posted {
    pub id: Seq<char>,
    pub kind: JobKind,
    pub doing: Seq<char>,
    pub lines: Seq<Seq<char>>,
    pub running: bool,
    pub error: Seq<char>,
}

impl View for Job {
    type V = Posted;

    closed spec fn view(&self) -> Posted {
        Posted {
            id: self.id@,
            kind: self.kind,
            doing: self.doing@,
            lines: text::strs(self.lines@),
            running: self.running,
            error: self.error@,
        }
    }
}

/// Whether a view shows a job as it stands.
pub open spec fn shows(v: JobView, j: Posted) -> bool {
    &&& v.kind == j.kind
    &&& v.running == j.running
    &&& v.doing@ == j.doing
    &&& v.log@ == text::join(j.lines, "\n"@)
    &&& v.error@ == j.error
}

impl Job {
    fn view_of(&self) -> (r: JobView)
        ensures
            shows(r, self@),
    {
        JobView {
            kind: self.kind,
            running: self.running,
            doing: self.doing.clone(),
            log: joined(self.lines.as_slice(), "\n"),
            error: self.error.clone(),
        }
    }
}

/// What every harness has been doing. Of what a command says, so many lines are kept.
pub struct Board {
    jobs: Vec<Job>,
    keep: usize,
}

impl View for Board {
    type V = Seq<Posted>;

    closed spec fn view(&self) -> Seq<Posted> {
        Seq::new(self.jobs@.len(), |i: int| self.jobs@[i]@)
    }
}

/// The last so many of a sequence.
pub open spec fn tail<A>(s: Seq<A>, keep: nat) -> Seq<A> {
    if s.len() <= keep {
        s
    } else {
        s.skip(s.len() - keep)
    }
}

pub open spec fn of_harness(id: Seq<char>) -> spec_fn(Posted) -> bool {
    |j: Posted| j.id == id
}

/// Where a harness's job is.
pub open spec fn job_of(s: Seq<Posted>, id: Seq<char>) -> int {
    seqs::first(s, of_harness(id))
}

/// The job that is running for a harness, where one is.
pub open spec fn under_way(s: Seq<Posted>, id: Seq<char>) -> Option<JobKind> {
    let i = job_of(s, id);
    if i < s.len() && s[i].running {
        Some(s[i].kind)
    } else {
        None
    }
}

/// The board with a job in place of the one the harness had.
pub open spec fn with_job(s: Seq<Posted>, j: Posted) -> Seq<Posted> {
    let i = job_of(s, j.id);
    if i < s.len() {
        s.update(i, j)
    } else {
        s.push(j)
    }
}

/// One job per harness.
pub open spec fn one_each(s: Seq<Posted>) -> bool {
    forall|i: int, j: int|
        0 <= i < j < s.len() ==> (#[trigger] s[i]).id != (#[trigger] s[j]).id
}

/// No job holds more than so many lines.
pub open spec fn bounded(s: Seq<Posted>, keep: nat) -> bool {
    forall|i: int| 0 <= i < s.len() ==> (#[trigger] s[i]).lines.len() <= keep
}

impl Board {
    /// How many lines are kept of what a command says.
    pub closed spec fn keep(&self) -> nat {
        self.keep as nat
    }

    /// What holds of every board.
    pub open spec fn wf(&self) -> bool {
        one_each(self@) && bounded(self@, self.keep())
    }

    pub fn new(keep: usize) -> (r: Board)
        ensures
            r@.len() == 0,
            r.keep() == keep,
            r.wf(),
    {
        Board { jobs: Vec::new(), keep }
    }

    fn find(&self, id: &str) -> (r: usize)
        ensures
            r == job_of(self@, id@),
            r <= self.jobs@.len(),
    {
        let ghost f = of_harness(id@);
        let mut i: usize = 0;
        while i < self.jobs.len()
            invariant
                i <= self.jobs@.len(),
                f == of_harness(id@),
                seqs::first(self@, f) == seqs::first_from(self@, f, i as int),
            decreases self.jobs@.len() - i,
        {
            assert(self@[i as int] == self.jobs@[i as int]@);
            if same(self.jobs[i].id.as_str(), id) {
                return i;
            }
            i += 1;
        }
        i
    }

    fn put(&mut self, job: Job)
        requires
            old(self).wf(),
            job@.lines.len() <= old(self).keep(),
        ensures
            final(self).wf(),
            final(self).keep() == old(self).keep(),
            final(self)@ == with_job(old(self)@, job@),
    {
        let i = self.find(job.id.as_str());
        let ghost was = self@;
        let ghost j = job@;
        proof {
            seqs::lemma_first(was, of_harness(j.id));
        }
        if i < self.jobs.len() {
            self.jobs.set(i, job);
            assert(self@ =~= was.update(i as int, j));
        } else {
            self.jobs.push(job);
            assert(self@ =~= was.push(j));
        }
        proof {
            assert forall|x: int, y: int| 0 <= x < y < self@.len() implies (
            #[trigger] self@[x]).id != (#[trigger] self@[y]).id by {
                if y < was.len() {
                    assert(was[x].id != was[y].id);
                } else {
                    assert(!of_harness(j.id)(was[x]));
                }
            }
            assert forall|x: int| 0 <= x < self@.len() implies (
            #[trigger] self@[x]).lines.len() <= self.keep() by {
                if x < was.len() {
                    assert(was[x].lines.len() <= self.keep());
                }
            }
        }
    }

    fn run(&self, id: &str) -> (r: Option<JobKind>)
        ensures
            r == under_way(self@, id@),
    {
        let i = self.find(id);
        if i < self.jobs.len() {
            assert(self@[i as int] == self.jobs@[i as int]@);
            if self.jobs[i].running {
                return Some(self.jobs[i].kind);
            }
        }
        None
    }

    fn take(&mut self, i: usize) -> (r: Job)
        requires
            i < old(self)@.len(),
            old(self).wf(),
        ensures
            final(self).keep() == old(self).keep(),
            final(self)@ == old(self)@.remove(i as int),
            r@ == old(self)@[i as int],
    {
        let ghost was = self@;
        let job = self.jobs.remove(i);
        assert(self@ =~= was.remove(i as int));
        job
    }

    fn put_at(&mut self, i: usize, job: Job)
        requires
            i <= old(self)@.len(),
        ensures
            final(self).keep() == old(self).keep(),
            final(self)@ == old(self)@.insert(i as int, job@),
    {
        let ghost was = self@;
        let ghost j = job@;
        self.jobs.insert(i, job);
        assert(self@ =~= was.insert(i as int, j));
    }
}

/// What every harness with a job has been doing.
pub fn views(board: &Board) -> (r: Vec<(String, JobView)>)
    ensures
        r@.len() == board@.len(),
        forall|i: int|
            0 <= i < r@.len() ==> (#[trigger] r@[i]).0@ == board@[i].id && shows(r@[i].1, board@[i]),
{
    let mut out: Vec<(String, JobView)> = Vec::new();
    let mut i: usize = 0;
    while i < board.jobs.len()
        invariant
            i <= board.jobs@.len(),
            out@.len() == i,
            forall|k: int|
                0 <= k < i ==> (#[trigger] out@[k]).0@ == board@[k].id && shows(
                    out@[k].1,
                    board@[k],
                ),
        decreases board.jobs@.len() - i,
    {
        assert(board@[i as int] == board.jobs@[i as int]@);
        out.push((board.jobs[i].id.clone(), board.jobs[i].view_of()));
        i += 1;
    }
    out
}

/// Whether any job is running.
pub fn busy(board: &Board) -> (r: bool)
    ensures
        r == exists|i: int| 0 <= i < board@.len() && (#[trigger] board@[i]).running,
{
    let mut i: usize = 0;
    while i < board.jobs.len()
        invariant
            i <= board.jobs@.len(),
            forall|k: int| 0 <= k < i ==> !(#[trigger] board@[k]).running,
        decreases board.jobs@.len() - i,
    {
        assert(board@[i as int] == board.jobs@[i as int]@);
        if board.jobs[i].running {
            return true;
        }
        i += 1;
    }
    false
}

/// The job a harness has the moment it is asked for.
pub open spec fn posted(id: Seq<char>, kind: JobKind, doing: Seq<char>) -> Posted {
    Posted { id, kind, doing, lines: Seq::empty(), running: true, error: ""@ }
}

/// What is said where a job is under way already.
pub open spec fn running_already(kind: JobKind, id: Seq<char>) -> Seq<char> {
    "a "@ + kind.name() + " for "@ + id + " is already running"@
}

/// What happens to the board when a job is asked for: one at a time for each harness, and a job
/// that is refused leaves the board as it was.
pub open spec fn asked(
    was: Seq<Posted>,
    now: Seq<Posted>,
    id: Seq<char>,
    kind: JobKind,
    doing: Seq<char>,
    said: Option<Seq<char>>,
) -> bool {
    match under_way(was, id) {
        Some(k) => now == was && said == Some(running_already(k, id)),
        None => now == with_job(was, posted(id, kind, doing)) && said is None,
    }
}

pub open spec fn refusal<T>(r: Result<T, String>) -> Option<Seq<char>> {
    match r {
        Ok(_) => None,
        Err(why) => Some(why@),
    }
}

/// Put a job on the board, as running.
pub fn spawn(board: &mut Board, id: &str, kind: JobKind, doing: &str) -> (r: Result<(), String>)
    requires
        old(board).wf(),
    ensures
        final(board).wf(),
        final(board).keep() == old(board).keep(),
        asked(old(board)@, final(board)@, id@, kind, doing@, refusal(r)),
{
    if let Some(running) = board.run(id) {
        let mut out = "a ".to_owned();
        out.append(running.verb());
        out.append(" for ");
        out.append(id);
        out.append(" is already running");
        return Err(out);
    }
    let job = Job {
        id: id.to_owned(),
        kind,
        doing: doing.to_owned(),
        lines: Vec::new(),
        running: true,
        error: "".to_owned(),
    };
    assert(job@.lines =~= Seq::<Seq<char>>::empty());
    board.put(job);
    Ok(())
}

/// Ask for a harness to be installed. Answers with the command to run.
pub fn install(board: &mut Board, manifest: &Manifest) -> (r: Result<String, String>)
    requires
        old(board).wf(),
    ensures
        final(board).wf(),
        final(board).keep() == old(board).keep(),
        match manifest.install {
            None => final(board)@ == old(board)@ && refusal(r) == Some(
                manifest.id@
                    + " has no install command of its own \u{2014} read its documentation"@,
            ),
            Some(how) => asked(
                old(board)@,
                final(board)@,
                manifest.id@,
                JobKind::Install,
                if how.doing@.len() == 0 {
                    how.command@
                } else {
                    how.doing@
                },
                refusal(r),
            ) && (r matches Ok(command) ==> command@ == how.command@),
        },
{
    match &manifest.install {
        None => {
            let mut out = manifest.id.clone();
            out.append(" has no install command of its own \u{2014} read its documentation");
            Err(out)
        },
        Some(how) => {
            let doing = if how.doing.as_str().is_empty() {
                how.command.as_str()
            } else {
                how.doing.as_str()
            };
            match spawn(board, manifest.id.as_str(), JobKind::Install, doing) {
                Ok(_) => Ok(how.command.clone()),
                Err(why) => Err(why),
            }
        },
    }
}

/// A text between single quotes, as a shell reads it back: a quote in it is put as an escaped one
/// between two quoted parts.
pub open spec fn quoted(s: Seq<char>) -> Seq<char> {
    "'"@ + escaped(s) + "'"@
}

pub open spec fn escaped(s: Seq<char>) -> Seq<char>
    decreases s.len(),
{
    if s.len() == 0 {
        Seq::empty()
    } else if s.last() == '\'' {
        escaped(s.drop_last()) + "'\\''"@
    } else {
        escaped(s.drop_last()).push(s.last())
    }
}

/// Whether the session manager's report on a unit says that it knows it.
pub fn unit_is_loaded(report: &str) -> (r: bool)
    ensures
        r == text::contains(report@, "LoadState=loaded"@),
{
    has(report, "LoadState=loaded")
}

/// A text quoted for a shell line.
pub fn shell_quote(value: &str) -> (r: String)
    ensures
        r@ == quoted(value@),
{
    let v = chars_of(value);
    let mut inner = String::new();
    let mut i: usize = 0;
    assert(v@.take(0) =~= Seq::<char>::empty());
    assert(inner@ =~= escaped(v@.take(0)));
    while i < v.len()
        invariant
            i <= v@.len(),
            inner@ == escaped(v@.take(i as int)),
        decreases v@.len() - i,
    {
        assert(v@.take(i + 1).drop_last() =~= v@.take(i as int));
        if v[i] == '\'' {
            inner.append("'\\''");
        } else {
            inner.push(v[i]);
        }
        i += 1;
    }
    assert(v@.take(i as int) =~= v@);
    let mut out = "'".to_owned();
    out.append(inner.as_str());
    out.append("'");
    out
}

/// What the machine says of a harness's unit.
pub struct Staging {
    /// Whether the session manager knows the unit.
    pub known: bool,
    /// Whether the unit's file lies beside the harness.
    pub beside: bool,
    /// Where that file is.
    pub staged: String,
    /// Where a person's own units are.
    pub user_units: String,
}

/// The command that starts a unit. One that the session manager does not know is put where it
/// looks first.
pub open spec fn start_command(unit: Seq<char>, at: Staging) -> Seq<char> {
    let enable = "systemctl --user enable --now "@ + quoted(unit);
    if at.known {
        enable
    } else {
        "mkdir -p "@ + quoted(at.user_units@) + " && cp "@ + quoted(at.staged@) + " "@ + quoted(
            at.user_units@,
        ) + " && systemctl --user daemon-reload && "@ + enable
    }
}

/// Why a harness is not started, where it is not.
pub open spec fn not_started(id: Seq<char>, unit: Seq<char>, at: Staging) -> Option<Seq<char>> {
    if unit.len() == 0 {
        Some(
            id
                + " is not started by a unit of ours \u{2014} it attaches when its own service runs"@,
        )
    } else if !at.known && !at.beside {
        Some(
            "systemd does not know "@ + unit + " and there is no "@ + unit
                + " beside the harness to install"@,
        )
    } else {
        None
    }
}

/// Ask for a harness's unit to be enabled and started. Answers with the command to run.
pub fn start(board: &mut Board, manifest: &Manifest, at: &Staging) -> (r: Result<String, String>)
    requires
        old(board).wf(),
    ensures
        final(board).wf(),
        final(board).keep() == old(board).keep(),
        match not_started(manifest.id@, manifest.unit@, *at) {
            Some(why) => final(board)@ == old(board)@ && refusal(r) == Some(why),
            None => asked(
                old(board)@,
                final(board)@,
                manifest.id@,
                JobKind::Start,
                "starting "@ + manifest.unit@,
                refusal(r),
            ) && (r matches Ok(command) ==> command@ == start_command(manifest.unit@, *at)),
        },
{
    let unit = manifest.unit.as_str();
    if unit.is_empty() {
        let mut out = manifest.id.clone();
        out.append(
            " is not started by a unit of ours \u{2014} it attaches when its own service runs",
        );
        return Err(out);
    }
    if !at.known && !at.beside {
        let mut out = "systemd does not know ".to_owned();
        out.append(unit);
        out.append(" and there is no ");
        out.append(unit);
        out.append(" beside the harness to install");
        return Err(out);
    }
    let mut enable = "systemctl --user enable --now ".to_owned();
    enable.append(shell_quote(unit).as_str());
    let command = if at.known {
        enable
    } else {
        let mut out = "mkdir -p ".to_owned();
        out.append(shell_quote(at.user_units.as_str()).as_str());
        out.append(" && cp ");
        out.append(shell_quote(at.staged.as_str()).as_str());
        out.append(" ");
        out.append(shell_quote(at.user_units.as_str()).as_str());
        out.append(" && systemctl --user daemon-reload && ");
        out.append(enable.as_str());
        out
    };
    let mut doing = "starting ".to_owned();
    doing.append(unit);
    match spawn(board, manifest.id.as_str(), JobKind::Start, doing.as_str()) {
        Ok(_) => Ok(command),
        Err(why) => Err(why),
    }
}

/// A job once its command has said a line: the line without the space it ends with, where anything
/// is left of it, behind the ones before it, of which the last are kept.
pub open spec fn after_line(j: Posted, line: Seq<char>, keep: nat) -> Posted {
    let line = text::trim_end(line);
    if line.len() == 0 {
        j
    } else {
        Posted { lines: tail(j.lines.push(line), keep), ..j }
    }
}

/// Take down a line that a harness's command said.
pub fn said(board: &mut Board, id: &str, line: &str)
    requires
        old(board).wf(),
    ensures
        final(board).wf(),
        final(board).keep() == old(board).keep(),
        ({
            let i = job_of(old(board)@, id@);
            final(board)@ == if i < old(board)@.len() {
                old(board)@.update(i, after_line(old(board)@[i], line@, old(board).keep()))
            } else {
                old(board)@
            }
        }),
{
    let ghost all = line@;
    let line = trim_end_of(line);
    let i = board.find(id);
    let ghost was = board@;
    if i >= board.jobs.len() {
        return;
    }
    proof {
        seqs::lemma_first(was, of_harness(id@));
        assert(was.update(i as int, was[i as int]) =~= was);
    }
    if line.as_str().is_empty() {
        return;
    }
    let keep: usize = board.keep;
    let mut job = board.take(i);
    let ghost told = job@.lines.push(line@);
    let mut lines = job.lines;
    lines.push(line);
    assert(text::strs(lines@) =~= told);
    assert(told.skip(0) =~= told);
    while lines.len() > keep
        invariant
            lines@.len() <= told.len(),
            told.len() > keep ==> lines@.len() >= keep,
            told.len() <= keep ==> lines@.len() == told.len(),
            text::strs(lines@) == told.skip(told.len() - lines@.len()),
        decreases lines@.len(),
    {
        let ghost before = text::strs(lines@);
        let _ = lines.remove(0);
        assert(text::strs(lines@) =~= before.skip(1));
        assert(before.skip(1) =~= told.skip(told.len() - lines@.len()));
    }
    job.lines = lines;
    let ghost j = after_line(was[i as int], all, keep as nat);
    assert(job@.lines =~= j.lines);
    board.put_at(i, job);
    proof {
        assert(board@ =~= was.update(i as int, j));
        assert forall|x: int, y: int| 0 <= x < y < board@.len() implies (
        #[trigger] board@[x]).id != (#[trigger] board@[y]).id by {
            assert(was[x].id != was[y].id);
        }
        assert forall|x: int| 0 <= x < board@.len() implies (
        #[trigger] board@[x]).lines.len() <= board.keep() by {
            assert(was[x].lines.len() <= board.keep());
        }
    }
}

/// How a command ended.
pub enum Ended {
    Well,
    Exited(i32),
    Killed,
    /// It could not be waited for.
    Lost(String),
}

/// Why a command failed, where it did.
pub open spec fn failed(e: Ended) -> Option<Seq<char>> {
    match e {
        Ended::Well => None,
        Ended::Exited(code) => Some("it exited "@ + text::dec_signed(code as int)),
        Ended::Killed => Some("it was killed"@),
        Ended::Lost(why) => Some("could not wait for it: "@ + why@),
    }
}

/// Why a command failed, where it did.
pub fn outcome(ended: &Ended) -> (r: Option<String>)
    ensures
        text::maybe(r) == failed(*ended),
{
    match ended {
        Ended::Well => None,
        Ended::Exited(code) => {
            let mut out = "it exited ".to_owned();
            out.append(signed_decimal(*code as i64).as_str());
            Some(out)
        },
        Ended::Killed => Some("it was killed".to_owned()),
        Ended::Lost(why) => {
            let mut out = "could not wait for it: ".to_owned();
            out.append(why.as_str());
            Some(out)
        },
    }
}

/// Why a job came to nothing where its command could not be run.
pub fn not_run(why: &str) -> (r: String)
    ensures
        r@ == "could not run it: "@ + why@,
{
    let mut out = "could not run it: ".to_owned();
    out.append(why);
    out
}

/// Why a job came to nothing where nothing could watch its command.
pub fn not_watched(why: &str) -> (r: String)
    ensures
        r@ == "no thread to watch it: "@ + why@,
{
    let mut out = "no thread to watch it: ".to_owned();
    out.append(why);
    out
}

/// A job once its command is done.
pub open spec fn ended(j: Posted, error: Option<Seq<char>>) -> Posted {
    match error {
        None => Posted { running: false, ..j },
        Some(why) => Posted { running: false, error: j.kind.name() + " failed: "@ + why, ..j },
    }
}

/// Take down that a harness's job is over, and why it failed where it did.
pub fn finish(board: &mut Board, id: &str, error: Option<&str>)
    requires
        old(board).wf(),
    ensures
        final(board).wf(),
        final(board).keep() == old(board).keep(),
        ({
            let i = job_of(old(board)@, id@);
            final(board)@ == if i < old(board)@.len() {
                old(board)@.update(
                    i,
                    self::ended(
                        old(board)@[i],
                        match error {
                            Some(why) => Some(why@),
                            None => None,
                        },
                    ),
                )
            } else {
                old(board)@
            }
        }),
{
    let i = board.find(id);
    let ghost was = board@;
    if i >= board.jobs.len() {
        return;
    }
    proof {
        seqs::lemma_first(was, of_harness(id@));
    }
    let mut job = board.take(i);
    job.running = false;
    if let Some(why) = error {
        let mut out = job.kind.verb().to_owned();
        out.append(" failed: ");
        out.append(why);
        job.error = out;
    }
    let ghost j = job@;
    board.put_at(i, job);
    proof {
        assert(board@ =~= was.update(i as int, j));
        assert forall|x: int, y: int| 0 <= x < y < board@.len() implies (
        #[trigger] board@[x]).id != (#[trigger] board@[y]).id by {
            assert(was[x].id != was[y].id);
        }
        assert forall|x: int| 0 <= x < board@.len() implies (
        #[trigger] board@[x]).lines.len() <= board.keep() by {
            assert(was[x].lines.len() <= board.keep());
        }
    }
}

pub open spec fn stays(attached: Seq<Seq<char>>) -> spec_fn(Posted) -> bool {
    |j: Posted| j.running || !attached.contains(j.id)
}

fn among(list: &[String], name: &str) -> (r: bool)
    ensures
        r == text::strs(list@).contains(name@),
{
    let ghost all = text::strs(list@);
    let mut i: usize = 0;
    while i < list.len()
        invariant
            i <= list@.len(),
            all == text::strs(list@),
            forall|k: int| 0 <= k < i ==> #[trigger] all[k] != name@,
        decreases list@.len() - i,
    {
        assert(all[i as int] == list@[i as int]@);
        if same(list[i].as_str(), name) {
            return true;
        }
        i += 1;
    }
    false
}

/// Forget the finished jobs of harnesses that are attached.
pub fn clear_settled(board: &mut Board, attached: &[String])
    requires
        old(board).wf(),
    ensures
        final(board).wf(),
        final(board).keep() == old(board).keep(),
        final(board)@ == old(board)@.filter(stays(text::strs(attached@))),
{
    let ghost was = board@;
    let ghost f = stays(text::strs(attached@));
    let whole: usize = board.jobs.len();
    let mut done: usize = 0;
    let mut i: usize = 0;
    proof {
        seqs::lemma_filter_none(was, f);
        assert(board@ =~= was.take(0).filter(f) + was.skip(0));
    }
    while done < whole
        invariant
            whole == was.len(),
            i <= done <= whole,
            f == stays(text::strs(attached@)),
            was.take(done as int).filter(f).len() == i,
            board@ == was.take(done as int).filter(f) + was.skip(done as int),
            board.keep() == old(board).keep(),
            board.jobs@.len() == board@.len(),
        decreases whole - done,
    {
        let ghost kept = was.take(done as int).filter(f);
        proof {
            seqs::lemma_filter_take(was, f, done as int);
            assert(board@[i as int] == was[done as int]);
            assert(board@[i as int] == board.jobs@[i as int]@);
        }
        let stay = board.jobs[i].running || !among(attached, board.jobs[i].id.as_str());
        if stay {
            assert(board@ =~= kept.push(was[done as int]) + was.skip(done + 1));
            i += 1;
        } else {
            let ghost before = board@;
            let _ = board.jobs.remove(i);
            assert(board@ =~= before.remove(i as int));
            assert(board@ =~= kept + was.skip(done + 1));
        }
        done += 1;
    }
    proof {
        assert(was.take(done as int) =~= was);
        assert(board@ =~= was.filter(f));
        seqs::lemma_filter_distinct(was, f, |j: Posted| j.id);
        seqs::lemma_filter_from(was, f);
        assert forall|x: int, y: int| 0 <= x < y < board@.len() implies (
        #[trigger] board@[x]).id != (#[trigger] board@[y]).id by {
            let key = |j: Posted| j.id;
            assert(key(was.filter(f)[x]) != key(was.filter(f)[y]));
        }
        assert forall|x: int| 0 <= x < board@.len() implies (
        #[trigger] board@[x]).lines.len() <= board.keep() by {
            assert(was.contains(was.filter(f)[x]));
        }
    }
}

// ── Laws ────────────────────────────────────────────────────────────

/// A job is running the moment it is asked for, a second one for the same harness is refused while
/// it runs and leaves the board as it was, and once it is over another may be asked for.
pub proof fn law_one_job_at_a_time(
    board: Seq<Posted>,
    asked_for: Seq<Posted>,
    again: Seq<Posted>,
    id: Seq<char>,
    kind: JobKind,
    doing: Seq<char>,
    other: JobKind,
    words: Seq<char>,
    said: Option<Seq<char>>,
    error: Option<Seq<char>>,
)
    requires
        under_way(board, id) is None,
        asked(board, asked_for, id, kind, doing, None),
        asked(asked_for, again, id, other, words, said),
    ensures
        under_way(asked_for, id) == Some(kind),
        again == asked_for,
        said == Some(running_already(kind, id)),
        ({
            let i = job_of(asked_for, id);
            under_way(asked_for.update(i, ended(asked_for[i], error)), id) is None
        }),
{
    let f = of_harness(id);
    let j = posted(id, kind, doing);
    seqs::lemma_first(board, f);
    let i = job_of(board, id);
    let at = if i < board.len() { i } else { board.len() as int };
    assert(asked_for == with_job(board, j));
    assert(asked_for[at] == j);
    assert forall|k: int| 0 <= k < at implies !f(#[trigger] asked_for[k]) by {
        assert(asked_for[k] == board[k]);
    }
    seqs::lemma_first_is(asked_for, f, at);
    let over = asked_for.update(at, ended(asked_for[at], error));
    assert forall|k: int| 0 <= k < at implies !f(#[trigger] over[k]) by {
        assert(over[k] == asked_for[k]);
    }
    seqs::lemma_first_is(over, f, at);
}

/// What a job of one harness comes to leaves every other harness's job as it was.
pub proof fn law_jobs_do_not_mix(board: Seq<Posted>, j: Posted, other: Seq<char>)
    requires
        one_each(board),
        other != j.id,
    ensures
        under_way(with_job(board, j), other) == under_way(board, other),
{
    let f = of_harness(other);
    let now = with_job(board, j);
    let i = job_of(board, other);
    seqs::lemma_first(board, f);
    seqs::lemma_first(board, of_harness(j.id));
    assert forall|k: int| 0 <= k < board.len() implies f(#[trigger] now[k]) == f(board[k]) by {}
    if i < board.len() {
        assert(f(board[i]));
        assert forall|k: int| 0 <= k < i implies !f(#[trigger] now[k]) by {
            assert(!f(board[k]));
        }
        seqs::lemma_first_is(now, f, i);
    } else {
        assert forall|k: int| 0 <= k < now.len() implies !f(#[trigger] now[k]) by {
            if k < board.len() {
                assert(!f(board[k]));
            }
        }
        seqs::lemma_first_none(now, f);
    }
}

/// What stands between the quotes, with each escaped quote read as the quote it is.
pub open spec fn unescaped(s: Seq<char>) -> Seq<char>
    decreases s.len(),
{
    if s.len() == 0 {
        Seq::empty()
    } else if s.len() >= 4 && s.skip(s.len() - 4) == "'\\''"@ {
        unescaped(s.take(s.len() - 4)).push('\'')
    } else {
        unescaped(s.drop_last()).push(s.last())
    }
}

/// What is quoted for a shell comes back as it was.
pub proof fn law_quoting_loses_nothing(s: Seq<char>)
    ensures
        unescaped(escaped(s)) == s,
    decreases s.len(),
{
    reveal_strlit("'\\''");
    if s.len() > 0 {
        let t = s.drop_last();
        let e = escaped(t);
        law_quoting_loses_nothing(t);
        if s.last() == '\'' {
            let w = e + "'\\''"@;
            assert(w.skip(w.len() - 4) =~= "'\\''"@);
            assert(w.take(w.len() - 4) =~= e);
        } else {
            let w = e.push(s.last());
            assert(w.drop_last() =~= e);
            if w.len() >= 4 && w.skip(w.len() - 4) == "'\\''"@ {
                assert(w.skip(w.len() - 4)[3] == w.last());
            }
        }
        assert(t.push(s.last()) =~= s);
    } else {
        assert(s =~= Seq::empty());
    }
}

/// What a job prints is kept line by line, without the white space at the end of a line and without
/// empty lines, the last so many of them.
pub proof fn law_what_a_job_prints_is_kept(j: Posted, line: Seq<char>, behind: Seq<char>, keep: nat)
    requires
        text::neat(line),
        text::all_white(behind),
    ensures
        j.lines.len() < keep ==> after_line(j, line + behind, keep) == (Posted {
            lines: j.lines.push(line),
            ..j
        }),
        j.lines.len() == keep && keep > 0 ==> after_line(j, line + behind, keep) == (Posted {
            lines: j.lines.skip(1).push(line),
            ..j
        }),
        after_line(j, behind, keep) == j,
{
    let none = Seq::<char>::empty();
    text::law_trimming_takes_the_white_space_off(none, line, behind);
    assert(none + line + behind =~= line + behind);
    assert(none + line =~= line);
    if j.lines.len() == keep && keep > 0 {
        assert(j.lines.push(line).skip(1) =~= j.lines.skip(1).push(line));
    }
    lemma_blank_line(behind);
}

proof fn lemma_blank_line(s: Seq<char>)
    requires
        text::all_white(s),
    ensures
        text::trim_end(s).len() == 0,
    decreases s.len(),
{
    if s.len() > 0 {
        let t = s.drop_last();
        assert forall|i: int| 0 <= i < t.len() implies text::is_white(#[trigger] t[i]) by {
            assert(text::is_white(s[i]));
        }
        assert(text::is_white(s[s.len() - 1]));
        lemma_blank_line(t);
    }
}

/// A job that ended runs no more; where it did not end well, it says what failed and how.
pub proof fn law_how_a_job_ended(j: Posted, code: i32, why: Seq<char>)
    ensures
        ended(j, None) == (Posted { running: false, ..j }),
        !ended(j, Some(why)).running,
        j.kind == JobKind::Install ==> ended(j, Some(why)).error == "install"@ + " failed: "@ + why,
        j.kind == JobKind::Start ==> ended(j, Some(why)).error == "start"@ + " failed: "@ + why,
        ended(j, Some(why)).lines == j.lines,
        failed(Ended::Well) is None,
        failed(Ended::Exited(code)) == Some("it exited "@ + text::dec_signed(code as int)),
        failed(Ended::Killed) == Some("it was killed"@),
{
}

/// A harness is started where it has a unit that is known, or that lies beside it to be installed.
pub proof fn law_what_can_be_started(id: Seq<char>, unit: Seq<char>, at: Staging)
    ensures
        not_started(id, unit, at) is None <==> unit.len() > 0 && (at.known || at.beside),
        at.known ==> start_command(unit, at) == "systemctl --user enable --now "@ + quoted(unit),
        !at.known ==> start_command(unit, at) == "mkdir -p "@ + quoted(at.user_units@) + " && cp "@
            + quoted(at.staged@) + " "@ + quoted(at.user_units@)
            + " && systemctl --user daemon-reload && "@ + ("systemctl --user enable --now "@
            + quoted(unit)),
{
}

/// A word in quotes is that word to a shell: it stands between single quotes, and a quote in it is
/// closed, escaped and opened again. Two words are never quoted alike.
pub proof fn law_a_quoted_word_is_that_word(a: Seq<char>, b: Seq<char>)
    ensures
        !a.contains('\'') ==> quoted(a) == "'"@ + a + "'"@,
        quoted(a).len() >= 2 && quoted(a)[0] == '\'' && quoted(a).last() == '\'',
        quoted(a) == quoted(b) ==> a == b,
{
    reveal_strlit("'");
    if !a.contains('\'') {
        lemma_nothing_to_escape(a);
    }
    if quoted(a) == quoted(b) {
        assert(quoted(a).subrange(1, quoted(a).len() - 1) =~= escaped(a));
        assert(quoted(b).subrange(1, quoted(b).len() - 1) =~= escaped(b));
        law_quoting_loses_nothing(a);
        law_quoting_loses_nothing(b);
    }
}

proof fn lemma_nothing_to_escape(s: Seq<char>)
    requires
        !s.contains('\''),
    ensures
        escaped(s) == s,
    decreases s.len(),
{
    if s.len() > 0 {
        let t = s.drop_last();
        assert(!t.contains('\'')) by {
            if t.contains('\'') {
                let i = choose|i: int| 0 <= i < t.len() && t[i] == '\'';
                assert(s[i] == '\'');
            }
        }
        assert(s.contains(s.last()));
        lemma_nothing_to_escape(t);
        assert(t.push(s.last()) =~= s);
    }
}

/// What is done and attached leaves the board; what runs stays, and what is not attached stays too.
pub proof fn law_what_stays_on_the_board(attached: Seq<Seq<char>>, j: Posted)
    ensures
        stays(attached)(j) <==> j.running || forall|i: int|
            0 <= i < attached.len() ==> #[trigger] attached[i] != j.id,
{
}

/// A harness is installed by its own command, where it has one and nothing of it runs; the job says
/// what it does in the words that the harness gives, or by the command itself.
pub proof fn law_how_a_harness_is_installed(
    board: &mut Board,
    manifest: Manifest,
    i: int,
    r: Result<String, String>,
)
    requires
        call_ensures(install, (board, &manifest), r),
        old(board).wf(),
    ensures
        r is Ok <==> manifest.install is Some && under_way(old(board)@, manifest.id@) is None,
        r is Err ==> final(board)@ == old(board)@,
        r is Ok ==> ({
            let how = manifest.install->0;
            let at = job_of(final(board)@, manifest.id@);
            &&& r->Ok_0@ == how.command@
            &&& at < final(board)@.len()
            &&& final(board)@[at].running && final(board)@[at].kind == JobKind::Install
            &&& final(board)@[at].lines.len() == 0
            &&& how.doing@.len() > 0 ==> final(board)@[at].doing == how.doing@
            &&& how.doing@.len() == 0 ==> final(board)@[at].doing == how.command@
        }),
        0 <= i < old(board)@.len() && old(board)@[i].id != manifest.id@ ==> final(board)@[i]
            == old(board)@[i],
{
    let was = old(board)@;
    let f = of_harness(manifest.id@);
    seqs::lemma_first(was, f);
    if r is Ok {
        let now = final(board)@;
        let at = job_of(was, manifest.id@);
        assert(f(now[at]));
        assert forall|j: int| 0 <= j < at implies !f(#[trigger] now[j]) by {
            assert(now[j] == was[j]);
        }
        seqs::lemma_first_is(now, f, at);
    }
}

/// What a job says and how it ends goes to that job alone, and to none where there is none.
pub proof fn law_a_line_goes_to_its_job(
    told: &mut Board,
    closed: &mut Board,
    id: &str,
    line: &str,
    error: Option<&str>,
    i: int,
)
    requires
        call_ensures(said, (told, id, line), ()),
        call_ensures(finish, (closed, id, error), ()),
        old(told).wf(),
        old(closed).wf(),
        old(told)@ == old(closed)@,
        0 <= i < old(told)@.len(),
    ensures
        final(told)@.len() == old(told)@.len() && final(closed)@.len() == old(told)@.len(),
        old(told)@[i].id != id@ ==> final(told)@[i] == old(told)@[i] && final(closed)@[i] == old(told)@[i],
        old(told)@[i].id == id@ ==> final(told)@[i] == after_line(
            old(told)@[i],
            line@,
            old(told).keep(),
        ) && !final(closed)@[i].running,
{
    let s = old(told)@;
    let f = of_harness(id@);
    seqs::lemma_first(s, f);
    if s[i].id == id@ {
        assert forall|j: int| 0 <= j < i implies !f(#[trigger] s[j]) by {
            assert(s[j].id != s[i].id);
        }
        seqs::lemma_first_is(s, f, i);
    }
}

/// The board is busy while anything on it runs, and shows every job as it stands.
pub proof fn law_what_the_board_shows(
    board: Board,
    r: bool,
    all: Vec<(String, JobView)>,
    i: int,
)
    requires
        call_ensures(busy, (&board,), r),
        call_ensures(views, (&board,), all),
        0 <= i < board@.len(),
    ensures
        board@[i].running ==> r,
        (forall|j: int| 0 <= j < board@.len() ==> !(#[trigger] board@[j]).running) ==> !r,
        all@.len() == board@.len(),
        all@[i].0@ == board@[i].id,
        all@[i].1.running == board@[i].running && all@[i].1.kind == board@[i].kind,
        all@[i].1.error@ == board@[i].error && all@[i].1.doing@ == board@[i].doing,
{
}

} // verus!
