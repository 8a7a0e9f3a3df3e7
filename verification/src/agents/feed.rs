//! Sorting what a turn streams back into prose and tool calls.
//!
//! A trail line has to be whole before it can be read, and prose should not wait for anything. So
//! a line is held only while it could still be a call: until its first visible character, and if
//! that is the gear, until its end. A call told as `name([...])` waits one more line for its
//! arguments. A gear inside a code fence is code.
use crate::agents;
use crate::agents::launch::LiveAgent;
use crate::agents::{AgentId, MAIN};
use crate::markdown;
use crate::markdown::opens_fence;
use crate::seqs;
use crate::text;
use crate::text::{chars_of, next_at, part, same, start_of};
use crate::trail::{self, is_trail, verbose, Call, ToolCall, GEAR};
use vstd::prelude::*;

verus! {

/// One piece of an answer, sorted.
#[derive(Debug, PartialEq)]
pub enum Piece {
    Text(String),
    Call(ToolCall),
}

/// What a [`Piece`] says.
pub enum Said {
    Text(Seq<char>),
    Call(Call),
}

impl View for Piece {
    type V = Said;

    open spec fn view(&self) -> Said {
        match self {
            Piece::Text(t) => Said::Text(t@),
            Piece::Call(c) => Said::Call(c@),
        }
    }
}

pub open spec fn said(s: Seq<Piece>) -> Seq<Said> {
    Seq::new(s.len(), |i: int| s[i]@)
}

/// Splits streamed text into prose and trail calls, as it arrives.
#[derive(Debug)]
pub struct TrailLines {
    pending: String,
    /// The current line is known to be prose and is passed through as it comes.
    prose: bool,
    /// What has been passed through of that line: whether it is a fence shows only once it is
    /// whole.
    passed: String,
    /// A call waiting for its arguments on the next line.
    held: Option<String>,
    fenced: bool,
}

/// Where a [`TrailLines`] has got to.
pub struct Sorting {
    pub pending: Seq<char>,
    pub prose: bool,
    pub passed: Seq<char>,
    pub held: Option<Seq<char>>,
    pub fenced: bool,
}

impl View for TrailLines {
    type V = Sorting;

    closed spec fn view(&self) -> Sorting {
        Sorting {
            pending: self.pending@,
            prose: self.prose,
            passed: self.passed@,
            held: match self.held {
                Some(h) => Some(h@),
                None => None,
            },
            fenced: self.fenced,
        }
    }
}

pub open spec fn at_start() -> Sorting {
    Sorting {
        pending: Seq::empty(),
        prose: false,
        passed: Seq::empty(),
        held: None,
        fenced: false,
    }
}

// ── One line ────────────────────────────────────────────────────────

/// A line without the line ends behind it.
pub open spec fn chomped(s: Seq<char>) -> Seq<char>
    decreases s.len(),
{
    if s.len() > 0 && (s.last() == '\n' || s.last() == '\r') {
        chomped(s.drop_last())
    } else {
        s
    }
}

pub open spec fn ends_line(s: Seq<char>) -> bool {
    s.len() > 0 && s.last() == '\n'
}

pub open spec fn fence_after(s: Sorting, line: Seq<char>) -> bool {
    if markdown::is_fence(line) {
        !s.fenced
    } else {
        s.fenced
    }
}

/// A whole line, sorted: what it says, and where the sorting is then.
pub open spec fn classified(s: Sorting, line: Seq<char>) -> (Seq<Said>, Sorting) {
    let bare = chomped(line);
    if !s.fenced && trail::on_trail(line) && trail::waits(bare) && ends_line(line) {
        (Seq::empty(), Sorting { held: Some(bare), ..s })
    } else if !s.fenced && trail::on_trail(line) && trail::call_on(bare, None) is Some {
        (seq![Said::Call((trail::call_on(bare, None)->0).0)], s)
    } else {
        (seq![Said::Text(line)], Sorting { fenced: fence_after(s, line), ..s })
    }
}

/// A whole line, where a call may be waiting for it.
pub open spec fn line_told(s: Sorting, line: Seq<char>) -> (Seq<Said>, Sorting) {
    let free = Sorting { held: None, ..s };
    match s.held {
        None => classified(free, line),
        Some(h) => match trail::call_on(h, Some(chomped(line))) {
            Some((call, true)) => (seq![Said::Call(call)], free),
            Some((call, false)) => {
                let (more, next) = classified(free, line);
                (seq![Said::Call(call)] + more, next)
            },
            None => classified(free, line),
        },
    }
}

/// Whether the start of a line already shows that it is prose.
pub open spec fn shows_prose(s: Sorting, start: Seq<char>) -> bool {
    let visible = text::trim_start(start);
    visible.len() > 0 && (s.fenced || visible[0] != GEAR)
}

/// Part of a line, up to its end or the end of what has come. A fence is told by the whole line,
/// however much of it has been passed through already.
pub open spec fn part_told(s: Sorting, seg: Seq<char>) -> (Seq<Said>, Sorting) {
    let line = s.pending + seg;
    if s.prose {
        let so_far = s.passed + seg;
        (
            seq![Said::Text(seg)],
            if ends_line(seg) {
                Sorting {
                    prose: false,
                    passed: Seq::empty(),
                    fenced: fence_after(s, so_far),
                    ..s
                }
            } else {
                Sorting { passed: so_far, ..s }
            },
        )
    } else if ends_line(seg) {
        line_told(Sorting { pending: Seq::empty(), ..s }, line)
    } else if s.held is None && shows_prose(s, line) {
        (
            seq![Said::Text(line)],
            Sorting { pending: Seq::empty(), prose: true, passed: line, ..s },
        )
    } else {
        (Seq::empty(), Sorting { pending: line, ..s })
    }
}

/// How much of `delta` is on its first line, the line end with it.
pub open spec fn first_part(delta: Seq<char>) -> int {
    let i = text::next_char(delta, '\n', 0);
    if i >= delta.len() {
        delta.len() as int
    } else {
        i + 1
    }
}

/// Everything `delta` tells, and where the sorting is then.
pub open spec fn told(s: Sorting, delta: Seq<char>) -> (Seq<Said>, Sorting)
    decreases delta.len(),
{
    proof {
        text::lemma_next_char(delta, '\n', 0);
    }
    if delta.len() == 0 {
        (Seq::empty(), s)
    } else {
        let n = first_part(delta);
        let (a, mid) = part_told(s, delta.take(n));
        let (b, end) = told(mid, delta.skip(n));
        (a + b, end)
    }
}

/// What is left to say when the answer ends.
pub open spec fn told_at_end(s: Sorting) -> (Seq<Said>, Sorting) {
    let free = Sorting { pending: Seq::empty(), passed: Seq::empty(), held: None, ..s };
    let call = match s.held {
        Some(h) => match trail::call_on(h, None) {
            Some((c, _)) => seq![Said::Call(c)],
            None => Seq::empty(),
        },
        None => Seq::empty(),
    };
    if s.pending.len() == 0 {
        (call, Sorting { prose: false, ..free })
    } else {
        let (more, next) = classified(free, s.pending);
        (call + more, Sorting { prose: false, ..next })
    }
}

fn chomp(s: &str) -> (r: String)
    ensures
        r@ == chomped(s@),
{
    let v = chars_of(s);
    let mut i: usize = v.len();
    assert(v@.take(i as int) =~= v@);
    while i > 0 && (v[i - 1] == '\n' || v[i - 1] == '\r')
        invariant
            i <= v@.len(),
            chomped(v@) == chomped(v@.take(i as int)),
        decreases i,
    {
        assert(v@.take(i as int).drop_last() =~= v@.take(i - 1));
        i -= 1;
    }
    let r = part(v.as_slice(), 0, i);
    assert(r@ =~= v@.take(i as int));
    r
}

fn line_ends(s: &str) -> (r: bool)
    ensures
        r == ends_line(s@),
{
    let v = chars_of(s);
    v.len() > 0 && v[v.len() - 1] == '\n'
}

fn push_piece(out: &mut Vec<Piece>, piece: Piece)
    ensures
        said(final(out)@) == said(old(out)@) + seq![piece@],
{
    let ghost was = said(out@);
    let ghost p = piece@;
    out.push(piece);
    assert(said(out@) =~= was + seq![p]);
}

impl Default for TrailLines {
    fn default() -> (r: Self)
        ensures
            r@ == at_start(),
            in_step(r@),
    {
        assert(text::trim_start(Seq::<char>::empty()) =~= Seq::<char>::empty());
        TrailLines {
            pending: String::new(),
            prose: false,
            passed: String::new(),
            held: None,
            fenced: false,
        }
    }
}

impl TrailLines {
    fn note_fence(&mut self, line: &str)
        ensures
            final(self)@ == (Sorting { fenced: fence_after(old(self)@, line@), ..old(self)@ }),
    {
        if opens_fence(line) {
            self.fenced = !self.fenced;
        }
    }

    fn classify(&mut self, line: String, out: &mut Vec<Piece>)
        ensures
            said(final(out)@) == said(old(out)@) + classified(old(self)@, line@).0,
            final(self)@ == classified(old(self)@, line@).1,
    {
        let ghost was = said(out@);
        if !self.fenced && is_trail(line.as_str()) {
            let bare = chomp(line.as_str());
            if verbose(bare.as_str()) && line_ends(line.as_str()) {
                self.held = Some(bare);
                assert(was + Seq::<Said>::empty() =~= was);
                return;
            }
            if let Some((call, _)) = trail::parse(bare.as_str(), None) {
                push_piece(out, Piece::Call(call));
                return;
            }
        }
        self.note_fence(line.as_str());
        push_piece(out, Piece::Text(line));
    }

    fn line(&mut self, line: String, out: &mut Vec<Piece>)
        ensures
            said(final(out)@) == said(old(out)@) + line_told(old(self)@, line@).0,
            final(self)@ == line_told(old(self)@, line@).1,
    {
        let ghost was = said(out@);
        let held = self.held.take();
        if let Some(held) = held {
            let next = chomp(line.as_str());
            if let Some((call, took)) = trail::parse(held.as_str(), Some(next.as_str())) {
                push_piece(out, Piece::Call(call));
                if took {
                    return;
                }
                let ghost mid = said(out@);
                let ghost free = self@;
                let ghost l = line@;
                self.classify(line, out);
                assert(mid + classified(free, l).0 =~= was + (seq![Said::Call(call@)] + classified(
                    free,
                    l,
                ).0));
                return;
            }
        }
        self.classify(line, out);
    }

    /// What more of the answer tells.
    pub fn push(&mut self, delta: &str) -> (r: Vec<Piece>)
        ensures
            said(r@) == told(old(self)@, delta@).0,
            final(self)@ == told(old(self)@, delta@).1,
    {
        let mut out: Vec<Piece> = Vec::new();
        let v = chars_of(delta);
        let mut from: usize = 0;
        let ghost start = self@;
        proof {
            assert(delta@.skip(0) =~= delta@);
            assert(said(out@) + told(start, delta@).0 =~= told(start, delta@).0);
        }
        while from < v.len()
            invariant
                v@ == delta@,
                from <= v@.len(),
                told(start, delta@).0 == said(out@) + told(self@, delta@.skip(from as int)).0,
                told(start, delta@).1 == told(self@, delta@.skip(from as int)).1,
            decreases v@.len() - from,
        {
            let ghost tail = delta@.skip(from as int);
            let ghost before = self@;
            let ghost was = said(out@);
            let i: usize = next_at(v.as_slice(), '\n', from);
            let to: usize = if i < v.len() {
                i + 1
            } else {
                v.len()
            };
            let segment = part(v.as_slice(), from, to);
            proof {
                text::lemma_next_char_skip(delta@, '\n', from as int, 0);
                text::lemma_next_char(tail, '\n', 0);
                assert(first_part(tail) == to - from);
                assert(segment@ =~= tail.take(to - from));
                assert(tail.skip(to - from) =~= delta@.skip(to as int));
            }
            let ghost seg = segment@;
            let whole = line_ends(segment.as_str());
            if self.prose {
                self.passed.append(segment.as_str());
                if whole {
                    let line = self.passed.clone();
                    self.prose = false;
                    self.passed = String::new();
                    self.note_fence(line.as_str());
                }
                push_piece(&mut out, Piece::Text(segment));
            } else {
                self.pending.append(segment.as_str());
                if whole {
                    let line = self.pending.clone();
                    self.pending = String::new();
                    self.line(line, &mut out);
                } else if self.held.is_none() {
                    let w = chars_of(self.pending.as_str());
                    let k = start_of(w.as_slice());
                    assert(k < w@.len() ==> text::trim_start(w@)[0] == w@[k as int]);
                    if k < w.len() && (self.fenced || w[k] != GEAR) {
                        let text = self.pending.clone();
                        self.passed = self.pending.clone();
                        self.pending = String::new();
                        self.prose = true;
                        push_piece(&mut out, Piece::Text(text));
                    } else {
                        assert(was + Seq::<Said>::empty() =~= was);
                    }
                } else {
                    assert(was + Seq::<Said>::empty() =~= was);
                }
            }
            proof {
                let (a, mid) = part_told(before, seg);
                assert(said(out@) == was + a);
                assert(self@ == mid);
                let b = told(mid, tail.skip(to - from)).0;
                assert(was + (a + b) =~= (was + a) + b);
            }
            from = to;
        }
        assert(said(out@) + Seq::<Said>::empty() =~= said(out@));
        out
    }

    /// The answer ended: whatever was held is what it is.
    pub fn finish(&mut self) -> (r: Vec<Piece>)
        ensures
            said(r@) == told_at_end(old(self)@).0,
            final(self)@ == told_at_end(old(self)@).1,
    {
        let mut out: Vec<Piece> = Vec::new();
        let ghost start = self@;
        assert(said(out@) =~= Seq::<Said>::empty());
        if let Some(held) = self.held.take() {
            if let Some((call, _)) = trail::parse(held.as_str(), None) {
                push_piece(&mut out, Piece::Call(call));
                assert(said(out@) =~= seq![Said::Call(call@)]);
            }
        }
        let rest = self.pending.clone();
        self.pending = String::new();
        self.passed = String::new();
        if !rest.as_str().is_empty() {
            self.classify(rest, &mut out);
        }
        self.prose = false;
        out
    }
}

// ── Reading an answer into an agent ─────────────────────────────────

/// What comes of a turn, one chunk at a time.
pub enum Chunk {
    Text(String),
    Failed(String),
    /// What the agent is doing, beside the text: the harness's own account of it.
    Event,
}

/// What is to be done to the agent's session.
#[derive(Debug)]
pub enum Effect {
    Text(String),
    Call(ToolCall),
    /// What was said so far is replaced by this.
    Replace(String),
    Note(String),
    /// The event goes into the session, as reported.
    Event,
}

/// What an [`Effect`] says.
pub enum Done {
    Text(Seq<char>),
    Call(Call),
    Replace(Seq<char>),
    Note(Seq<char>),
    Event,
}

impl View for Effect {
    type V = Done;

    open spec fn view(&self) -> Done {
        match self {
            Effect::Text(t) => Done::Text(t@),
            Effect::Call(c) => Done::Call(c@),
            Effect::Replace(t) => Done::Replace(t@),
            Effect::Note(t) => Done::Note(t@),
            Effect::Event => Done::Event,
        }
    }
}

pub open spec fn done(s: Seq<Effect>) -> Seq<Done> {
    Seq::new(s.len(), |i: int| s[i]@)
}

/// What a piece of the answer does to the session.
pub open spec fn applied(p: Said) -> Done {
    match p {
        Said::Text(t) => Done::Text(t),
        Said::Call(c) => Done::Call(c),
    }
}

pub open spec fn all_applied(s: Seq<Said>) -> Seq<Done> {
    Seq::new(s.len(), |i: int| applied(s[i]))
}

/// Reads one answer into one agent.
pub struct Reader {
    lines: TrailLines,
    /// The built-in companion speaks a token protocol: `__DONE__` and `__REPLACE__` are
    /// instructions, not text. From anything else they are text.
    builtin: bool,
    replace_next: bool,
    failed: bool,
}

/// Where a [`Reader`] has got to.
pub struct Reads {
    pub lines: Sorting,
    pub builtin: bool,
    pub replace_next: bool,
    pub failed: bool,
}

impl View for Reader {
    type V = Reads;

    closed spec fn view(&self) -> Reads {
        Reads {
            lines: self.lines@,
            builtin: self.builtin,
            replace_next: self.replace_next,
            failed: self.failed,
        }
    }
}

/// What a chunk does to the session, and where the reading is then.
pub open spec fn chunk_read(r: Reads, chunk: Chunk) -> (Seq<Done>, Reads) {
    match chunk {
        Chunk::Text(t) => if r.builtin && t@ == "__DONE__"@ {
            (Seq::empty(), r)
        } else if r.builtin && t@ == "__REPLACE__"@ {
            (Seq::empty(), Reads { replace_next: true, ..r })
        } else if r.builtin && r.replace_next {
            (seq![Done::Replace(t@)], Reads { replace_next: false, lines: at_start(), ..r })
        } else {
            (all_applied(told(r.lines, t@).0), Reads { lines: told(r.lines, t@).1, ..r })
        },
        Chunk::Failed(why) => (
            all_applied(told_at_end(r.lines).0).push(Done::Note("The turn failed: "@ + why@)),
            Reads { lines: told_at_end(r.lines).1, failed: true, ..r },
        ),
        Chunk::Event => (seq![Done::Event], r),
    }
}

fn apply(pieces: Vec<Piece>, out: &mut Vec<Effect>)
    ensures
        done(final(out)@) == done(old(out)@) + all_applied(said(pieces@)),
{
    let ghost all = all_applied(said(pieces@));
    let ghost start = done(out@);
    let mut rest = pieces;
    let mut queue: Vec<Effect> = Vec::new();
    // Taken from the end, so gathered backwards and handed over from the end again.
    while rest.len() > 0
        invariant
            rest@.len() + queue@.len() == all.len(),
            forall|k: int| 0 <= k < rest@.len() ==> applied((#[trigger] rest@[k])@) == all[k],
            forall|k: int|
                0 <= k < queue@.len() ==> (#[trigger] queue@[k])@ == all[all.len() - 1 - k],
        decreases rest@.len(),
    {
        let ghost n = rest@.len() - 1;
        assert(applied(rest@[n as int]@) == all[n as int]);
        let piece = rest.pop();
        match piece {
            Some(Piece::Text(t)) => queue.push(Effect::Text(t)),
            Some(Piece::Call(c)) => queue.push(Effect::Call(c)),
            None => {},
        }
    }
    while queue.len() > 0
        invariant
            queue@.len() <= all.len(),
            forall|k: int|
                0 <= k < queue@.len() ==> (#[trigger] queue@[k])@ == all[all.len() - 1 - k],
            done(out@) == start + all.take(all.len() - queue@.len()),
        decreases queue@.len(),
    {
        let ghost n = queue@.len() - 1;
        let ghost was = done(out@);
        assert(queue@[n as int]@ == all[all.len() - 1 - n]);
        let effect = queue.pop();
        if let Some(e) = effect {
            let ghost d = e@;
            out.push(e);
            assert(done(out@) =~= was.push(d));
            assert(all.take(all.len() - n) =~= all.take(all.len() - n - 1).push(all[all.len() - 1
                - n]));
            assert(done(out@) =~= start + all.take(all.len() - n));
        }
    }
    assert(all.take(all.len() as int) =~= all);
}

impl Reader {
    pub fn new(builtin: bool) -> (r: Self)
        ensures
            r@ == (Reads { lines: at_start(), builtin, replace_next: false, failed: false }),
    {
        Reader { lines: TrailLines::default(), builtin, replace_next: false, failed: false }
    }

    /// What a chunk does to the agent's session.
    pub fn chunk(&mut self, chunk: Chunk) -> (r: Vec<Effect>)
        ensures
            done(r@) == chunk_read(old(self)@, chunk).0,
            final(self)@ == chunk_read(old(self)@, chunk).1,
    {
        let mut out: Vec<Effect> = Vec::new();
        assert(done(out@) =~= Seq::<Done>::empty());
        match chunk {
            Chunk::Text(text) => {
                if self.builtin {
                    if same(text.as_str(), "__DONE__") {
                        return out;
                    }
                    if same(text.as_str(), "__REPLACE__") {
                        self.replace_next = true;
                        return out;
                    }
                    if self.replace_next {
                        self.replace_next = false;
                        self.lines = TrailLines::default();
                        let ghost t = text@;
                        out.push(Effect::Replace(text));
                        assert(done(out@) =~= seq![Done::Replace(t)]);
                        return out;
                    }
                }
                let pieces = self.lines.push(text.as_str());
                let ghost all = all_applied(said(pieces@));
                apply(pieces, &mut out);
                assert(Seq::<Done>::empty() + all =~= all);
            },
            Chunk::Failed(why) => {
                let pieces = self.lines.finish();
                let ghost all = all_applied(said(pieces@));
                apply(pieces, &mut out);
                assert(Seq::<Done>::empty() + all =~= all);
                let mut note = "The turn failed: ".to_owned();
                note.append(why.as_str());
                let ghost n = note@;
                out.push(Effect::Note(note));
                assert(done(out@) =~= all.push(Done::Note(n)));
                self.failed = true;
            },
            Chunk::Event => {
                out.push(Effect::Event);
                assert(done(out@) =~= seq![Done::Event]);
            },
        }
        out
    }

    /// The answer ended, with a note where something cut it off: what is left to do to the
    /// session, and whether the turn came out well.
    pub fn finish(&mut self, note: Option<&str>) -> (r: (Vec<Effect>, bool))
        ensures
            done(r.0@) == match note {
                Some(n) => all_applied(told_at_end(old(self)@.lines).0).push(Done::Note(n@)),
                None => all_applied(told_at_end(old(self)@.lines).0),
            },
            r.1 == (!old(self)@.failed && note is None),
    {
        let mut out: Vec<Effect> = Vec::new();
        let pieces = self.lines.finish();
        let ghost all = all_applied(said(pieces@));
        assert(done(out@) =~= Seq::<Done>::empty());
        apply(pieces, &mut out);
        assert(done(out@) =~= all);
        if let Some(n) = note {
            out.push(Effect::Note(n.to_owned()));
            assert(done(out@) =~= all.push(Done::Note(n@)));
        }
        (out, !self.failed && note.is_none())
    }

    /// A turn of the conversation panel ended: because the answer did, or because the panel was no
    /// longer there to hand it on to.
    pub fn lens_turn_ended(&mut self, listening: bool) -> (r: (Vec<Effect>, bool))
        ensures
            done(r.0@) == if listening {
                all_applied(told_at_end(old(self)@.lines).0)
            } else {
                all_applied(told_at_end(old(self)@.lines).0).push(
                    Done::Note("The conversation panel stopped listening."@),
                )
            },
            r.1 == (!old(self)@.failed && listening),
    {
        if listening {
            self.finish(None)
        } else {
            self.finish(Some("The conversation panel stopped listening."))
        }
    }
}

/// Whether a chunk ends an answer of the built-in companion.
pub fn ends_answer(chunk: &Chunk, builtin: bool) -> (r: bool)
    ensures
        r == (builtin && (chunk matches Chunk::Text(t) && t@ == "__DONE__"@)),
{
    match chunk {
        Chunk::Text(t) => builtin && same(t.as_str(), "__DONE__"),
        _ => false,
    }
}

// ── Who an agent is ─────────────────────────────────────────────────

/// The agent a mind's one conversation is: `<harness>:main`.
pub fn main_agent(harness: &str) -> (r: AgentId)
    ensures
        r@ == agents::agent_name(harness@, MAIN@),
{
    AgentId::new(harness, MAIN)
}

/// A harness the host lists.
pub struct Listed {
    pub id: String,
    pub name: String,
}

/// Who an agent is.
pub struct AgentMeta {
    pub id: AgentId,
    /// Its mind's name.
    pub mind: String,
    /// Whether that mind holds more than one conversation.
    pub conversations: bool,
}

pub open spec fn live_as(id: Seq<char>) -> spec_fn(LiveAgent) -> bool {
    |a: LiveAgent| a.id@ == id
}

pub open spec fn listed_as(id: Seq<char>) -> spec_fn(Listed) -> bool {
    |l: Listed| l.id@ == id
}

/// Who an agent is, from what the host knows of it: its mind's name is the live agent's, else the
/// listed harness's, else the harness's own id.
pub fn meta_for(agent: &AgentId, live: &[LiveAgent], list: &[Listed]) -> (r: AgentMeta)
    ensures
        r.id@ == agent@,
        ({
            let i = seqs::first(live@, live_as(agent@));
            let k = seqs::first(list@, listed_as(agents::harness_in(agent@)));
            &&& r.conversations == (i < live@.len() && live@[i].conversations)
            &&& r.mind@ == if i < live@.len() {
                live@[i].harness_name@
            } else if k < list@.len() {
                list@[k].name@
            } else {
                agents::harness_in(agent@)
            }
        }),
{
    let harness = agent.harness();
    let mut i: usize = 0;
    while i < live.len() && !live[i].id.is(agent)
        invariant
            i <= live@.len(),
            seqs::first(live@, live_as(agent@)) == seqs::first_from(
                live@,
                live_as(agent@),
                i as int,
            ),
        decreases live@.len() - i,
    {
        i += 1;
    }
    let mut k: usize = 0;
    while k < list.len() && !same(list[k].id.as_str(), harness.as_str())
        invariant
            k <= list@.len(),
            harness@ == agents::harness_in(agent@),
            seqs::first(list@, listed_as(harness@)) == seqs::first_from(
                list@,
                listed_as(harness@),
                k as int,
            ),
        decreases list@.len() - k,
    {
        k += 1;
    }
    let mind = if i < live.len() {
        live[i].harness_name.clone()
    } else if k < list.len() {
        list[k].name.clone()
    } else {
        harness
    };
    AgentMeta {
        id: agent.copy(),
        mind,
        conversations: i < live.len() && live[i].conversations,
    }
}

// ── Laws ────────────────────────────────────────────────────────────

/// What a reader sees: characters one after another, and calls between them.
pub enum Token {
    Letter(int),
    Tool(Call),
}

pub open spec fn letters(s: Seq<char>) -> Seq<Token>
    decreases s.len(),
{
    if s.len() == 0 {
        Seq::empty()
    } else {
        letters(s.drop_last()).push(Token::Letter(s.last() as int))
    }
}

pub open spec fn tokens(p: Said) -> Seq<Token> {
    match p {
        Said::Text(t) => letters(t),
        Said::Call(c) => seq![Token::Tool(c)],
    }
}

/// The pieces as a reader sees them: how the prose was cut into pieces does not show.
pub open spec fn flat(pieces: Seq<Said>) -> Seq<Token>
    decreases pieces.len(),
{
    if pieces.len() == 0 {
        Seq::empty()
    } else {
        flat(pieces.drop_last()) + tokens(pieces.last())
    }
}

proof fn lemma_flat_add(a: Seq<Said>, b: Seq<Said>)
    ensures
        flat(a + b) == flat(a) + flat(b),
    decreases b.len(),
{
    if b.len() == 0 {
        assert(a + b =~= a);
        assert(flat(a) + flat(b) =~= flat(a));
    } else {
        lemma_flat_add(a, b.drop_last());
        assert((a + b).drop_last() =~= a + b.drop_last());
        assert((flat(a) + flat(b.drop_last())) + tokens(b.last()) =~= flat(a) + (flat(
            b.drop_last(),
        ) + tokens(b.last())));
    }
}

proof fn lemma_letters_add(x: Seq<char>, y: Seq<char>)
    ensures
        letters(x + y) == letters(x) + letters(y),
    decreases y.len(),
{
    if y.len() == 0 {
        assert(x + y =~= x);
        assert(letters(x) + letters(y) =~= letters(x));
    } else {
        lemma_letters_add(x, y.drop_last());
        assert((x + y).drop_last() =~= x + y.drop_last());
        assert(letters(x + y) =~= letters(x) + letters(y));
    }
}

proof fn lemma_flat_one(p: Said)
    ensures
        flat(seq![p]) == tokens(p),
{
    assert(seq![p].drop_last() =~= Seq::<Said>::empty());
    assert(flat(Seq::<Said>::empty()) + tokens(p) =~= tokens(p));
}

/// Nothing but the current line is pending, and nothing is while prose is passed through; only of
/// prose has anything been passed through; and no call waits inside a fence.
pub open spec fn in_step(s: Sorting) -> bool {
    &&& !s.pending.contains('\n')
    &&& !s.passed.contains('\n')
    &&& s.prose ==> s.pending.len() == 0 && s.held is None
    &&& !s.prose ==> s.passed.len() == 0
    &&& s.held is None && !s.prose ==> !shows_prose(s, s.pending)
    &&& s.fenced ==> s.held is None
}

proof fn lemma_shows_more(s: Sorting, a: Seq<char>, b: Seq<char>)
    requires
        shows_prose(s, a),
    ensures
        shows_prose(s, a + b),
        text::trim_start(a + b) == text::trim_start(a) + b,
    decreases a.len(),
{
    if text::is_white(a[0]) {
        assert((a + b).drop_first() =~= a.drop_first() + b);
        lemma_shows_more(s, a.drop_first(), b);
    } else {
        assert((a + b)[0] == a[0]);
    }
}

/// A line that shows itself to be prose is told as prose.
proof fn lemma_prose_line(s: Sorting, line: Seq<char>)
    requires
        s.held is None,
        shows_prose(s, line),
    ensures
        line_told(s, line) == (
            seq![Said::Text(line)],
            Sorting { fenced: fence_after(s, line), ..s },
        ),
{
}

/// Part of a line, cut in two, tells what it tells whole.
proof fn lemma_cut(s: Sorting, x: Seq<char>, y: Seq<char>)
    requires
        in_step(s),
        x.len() > 0,
        y.len() > 0,
        !x.contains('\n'),
    ensures
        ({
            let (a, mid) = part_told(s, x);
            let (b, end) = part_told(mid, y);
            let (whole, last) = part_told(s, x + y);
            &&& flat(whole) == flat(a + b)
            &&& last == end
        }),
{
    let (a, mid) = part_told(s, x);
    let (b, end) = part_told(mid, y);
    let (whole, last) = part_told(s, x + y);
    let line = s.pending + x;
    assert((x + y).last() == y.last());
    assert(!ends_line(x)) by {
        if x.last() == '\n' {
            assert(x[x.len() - 1] == '\n');
            assert(x.contains('\n'));
        }
    }
    assert(s.pending + (x + y) =~= line + y);
    lemma_flat_add(a, b);
    if s.prose {
        assert(s.passed + (x + y) =~= (s.passed + x) + y);
        lemma_flat_one(Said::Text(x));
        lemma_flat_one(Said::Text(y));
        lemma_flat_one(Said::Text(x + y));
        lemma_letters_add(x, y);
    } else if s.held is None && shows_prose(s, line) {
        lemma_shows_more(s, line, y);
        let free = Sorting { pending: Seq::empty(), ..s };
        lemma_flat_one(Said::Text(line));
        lemma_flat_one(Said::Text(y));
        lemma_flat_one(Said::Text(line + y));
        lemma_letters_add(line, y);
        assert(s.passed =~= Seq::empty());
        if ends_line(y) {
            lemma_prose_line(free, line + y);
            assert(end == Sorting { fenced: fence_after(s, line + y), ..free });
        }
    } else {
        assert(a =~= Seq::<Said>::empty());
        assert(a + b =~= b);
    }
}

proof fn lemma_stays_in_step(s: Sorting, seg: Seq<char>)
    requires
        in_step(s),
        seg.len() > 0,
        first_part(seg) == seg.len(),
    ensures
        in_step(part_told(s, seg).1),
{
    text::lemma_next_char(seg, '\n', 0);
    let line = s.pending + seg;
    let next = part_told(s, seg).1;
    let so_far = s.passed + seg;
    assert(text::trim_start(Seq::<char>::empty()) =~= Seq::<char>::empty());
    if !ends_line(seg) {
        assert(!so_far.contains('\n')) by {
            if so_far.contains('\n') {
                let i = choose|i: int| 0 <= i < so_far.len() && so_far[i] == '\n';
                if i < s.passed.len() {
                    assert(s.passed[i] == '\n');
                } else {
                    assert(seg[i - s.passed.len()] == '\n');
                }
            }
        }
        assert(!line.contains('\n')) by {
            if line.contains('\n') {
                let i = choose|i: int| 0 <= i < line.len() && line[i] == '\n';
                if i < s.pending.len() {
                    assert(s.pending[i] == '\n');
                } else {
                    assert(seg[i - s.pending.len()] == '\n');
                }
            }
        }
    }
}

/// However an answer is cut into chunks, a reader sees the same prose with the same calls between
/// it: two chunks one after the other tell what they tell joined, and leave the sorting in the
/// same place.
pub proof fn law_chunks_do_not_show(s: Sorting, a: Seq<char>, b: Seq<char>)
    requires
        in_step(s),
    ensures
        flat(told(s, a + b).0) == flat(told(s, a).0 + told(told(s, a).1, b).0),
        told(s, a + b).1 == told(told(s, a).1, b).1,
    decreases a.len(),
{
    let ab = a + b;
    text::lemma_next_char(a, '\n', 0);
    text::lemma_next_char(b, '\n', 0);
    text::lemma_next_char(ab, '\n', 0);
    if a.len() == 0 {
        assert(ab =~= b);
        assert(told(s, a).0 + told(s, b).0 =~= told(s, b).0);
    } else if b.len() == 0 {
        assert(ab =~= a);
        let end = told(s, a).1;
        assert(told(s, a).0 + told(end, b).0 =~= told(s, a).0);
    } else if text::next_char(a, '\n', 0) < a.len() {
        let n = first_part(a);
        assert(forall|j: int| 0 <= j < a.len() ==> ab[j] == a[j]);
        lemma_next_same(a, b, 0);
        assert(first_part(ab) == n);
        assert(ab.take(n) =~= a.take(n));
        assert(ab.skip(n) =~= a.skip(n) + b);
        let (p, mid) = part_told(s, a.take(n));
        lemma_whole_part(a, n);
        lemma_stays_in_step(s, a.take(n));
        law_chunks_do_not_show(mid, a.skip(n), b);
        let (q, mid2) = told(mid, a.skip(n));
        let (t, end) = told(mid2, b);
        let (u, last) = told(mid, ab.skip(n));
        assert(told(s, a).0 == p + q);
        assert(told(s, ab).0 == p + u);
        lemma_flat_add(p, u);
        lemma_flat_add(p + q, t);
        lemma_flat_add(p, q);
        lemma_flat_add(q, t);
        assert(flat(p) + (flat(q) + flat(t)) =~= (flat(p) + flat(q)) + flat(t));
    } else {
        lemma_one_line_goes_on(s, a, b);
    }
}

/// Two chunks, the first of which is all on one line that goes on into the second.
proof fn lemma_one_line_goes_on(s: Sorting, a: Seq<char>, b: Seq<char>)
    requires
        in_step(s),
        a.len() > 0,
        b.len() > 0,
        text::next_char(a, '\n', 0) >= a.len(),
    ensures
        flat(told(s, a + b).0) == flat(told(s, a).0 + told(told(s, a).1, b).0),
        told(s, a + b).1 == told(told(s, a).1, b).1,
{
    let ab = a + b;
    text::lemma_next_char(a, '\n', 0);
    text::lemma_next_char(b, '\n', 0);
    text::lemma_next_char(ab, '\n', 0);
    let m = first_part(b);
    let y = b.take(m);
    let n = a.len() + m;
    lemma_next_after(a, b);
    assert(first_part(ab) == n);
    assert(ab.take(n) =~= a + y);
    assert(ab.skip(n) =~= b.skip(m));
    assert(a.take(first_part(a)) =~= a);
    assert(a.skip(first_part(a)) =~= Seq::<char>::empty());
    let (p, mid) = part_told(s, a);
    let (q, mid2) = part_told(mid, y);
    let (t, end) = told(mid2, b.skip(m));
    let (w, last) = part_told(s, a + y);
    assert(told(mid, Seq::<char>::empty()).0 =~= Seq::<Said>::empty());
    assert(told(s, a).0 =~= p);
    assert(told(s, a).1 == mid);
    lemma_cut(s, a, y);
    assert(last == mid2);
    assert(told(s, ab).0 == w + t);
    assert(told(mid, b).0 == q + t);
    lemma_flat_add(w, t);
    lemma_flat_add(p, q + t);
    lemma_flat_add(q, t);
    lemma_flat_add(p, q);
    assert(flat(p) + (flat(q) + flat(t)) =~= (flat(p) + flat(q)) + flat(t));
}

proof fn lemma_next_same(a: Seq<char>, b: Seq<char>, from: int)
    requires
        0 <= from <= a.len(),
        text::next_char(a, '\n', from) < a.len(),
    ensures
        text::next_char(a + b, '\n', from) == text::next_char(a, '\n', from),
    decreases a.len() - from,
{
    if from < a.len() && a[from] != '\n' {
        lemma_next_same(a, b, from + 1);
    }
}

proof fn lemma_next_after(a: Seq<char>, b: Seq<char>)
    requires
        !a.contains('\n') || text::next_char(a, '\n', 0) >= a.len(),
    ensures
        text::next_char(a + b, '\n', 0) == a.len() + text::next_char(b, '\n', 0),
{
    text::lemma_next_char(a, '\n', 0);
    lemma_next_past(a, b, 0);
    text::lemma_next_char_skip(a + b, '\n', a.len() as int, 0);
    assert((a + b).skip(a.len() as int) =~= b);
}

proof fn lemma_next_past(a: Seq<char>, b: Seq<char>, from: int)
    requires
        0 <= from <= a.len(),
        forall|j: int| 0 <= j < a.len() ==> a[j] != '\n',
    ensures
        text::next_char(a + b, '\n', from) == text::next_char(a + b, '\n', a.len() as int),
    decreases a.len() - from,
{
    if from < a.len() {
        assert((a + b)[from] == a[from]);
        lemma_next_past(a, b, from + 1);
    }
}

proof fn lemma_whole_part(a: Seq<char>, n: int)
    requires
        n == first_part(a),
        a.len() > 0,
    ensures
        0 < n <= a.len(),
        first_part(a.take(n)) == n,
{
    text::lemma_next_char(a, '\n', 0);
    text::lemma_next_char(a.take(n), '\n', 0);
    let i = text::next_char(a, '\n', 0);
    let k = text::next_char(a.take(n), '\n', 0);
    if i < a.len() {
        assert(a.take(n)[i] == '\n');
        if k < i {
            assert(a.take(n)[k] == a[k]);
        }
    } else {
        assert(a.take(n) =~= a);
    }
}

/// However much has been told, nothing but the current line is pending, and prose is never held
/// back.
pub proof fn law_prose_is_not_held_back(s: Sorting, delta: Seq<char>)
    requires
        in_step(s),
    ensures
        in_step(told(s, delta).1),
    decreases delta.len(),
{
    if delta.len() > 0 {
        let n = first_part(delta);
        lemma_whole_part(delta, n);
        lemma_stays_in_step(s, delta.take(n));
        law_prose_is_not_held_back(part_told(s, delta.take(n)).1, delta.skip(n));
    }
}

/// Whether nothing but prose is told.
pub open spec fn all_text(pieces: Seq<Said>) -> bool {
    forall|i: int| 0 <= i < pieces.len() ==> (#[trigger] pieces[i]) is Text
}

/// The prose of the pieces, joined.
pub open spec fn spoken(pieces: Seq<Said>) -> Seq<char>
    decreases pieces.len(),
{
    if pieces.len() == 0 {
        Seq::empty()
    } else {
        spoken(pieces.drop_last()) + match pieces.last() {
            Said::Text(t) => t,
            Said::Call(_) => Seq::empty(),
        }
    }
}

/// The line that has not ended yet.
pub open spec fn last_line(s: Seq<char>) -> Seq<char>
    decreases s.len(),
{
    if s.len() == 0 || s.last() == '\n' {
        Seq::empty()
    } else {
        last_line(s.drop_last()).push(s.last())
    }
}

/// An answer that came in so many chunks.
pub open spec fn joined(deltas: Seq<Seq<char>>) -> Seq<char>
    decreases deltas.len(),
{
    if deltas.len() == 0 {
        Seq::empty()
    } else {
        joined(deltas.drop_last()) + deltas.last()
    }
}

/// Everything the chunks tell, pushed one after the other, and where the sorting is then.
pub open spec fn fed(s: Sorting, deltas: Seq<Seq<char>>) -> (Seq<Said>, Sorting)
    decreases deltas.len(),
{
    if deltas.len() == 0 {
        (Seq::empty(), s)
    } else {
        let (a, mid) = fed(s, deltas.drop_last());
        let (b, end) = told(mid, deltas.last());
        (a + b, end)
    }
}

proof fn lemma_spoken_add(a: Seq<Said>, b: Seq<Said>)
    ensures
        spoken(a + b) == spoken(a) + spoken(b),
    decreases b.len(),
{
    if b.len() == 0 {
        assert(a + b =~= a);
        assert(spoken(a) + spoken(b) =~= spoken(a));
    } else {
        lemma_spoken_add(a, b.drop_last());
        assert((a + b).drop_last() =~= a + b.drop_last());
        assert(spoken(a + b) =~= spoken(a) + spoken(b));
    }
}

proof fn lemma_spoken_one(line: Seq<char>)
    ensures
        spoken(seq![Said::Text(line)]) == line,
{
    assert(seq![Said::Text(line)].drop_last() =~= Seq::<Said>::empty());
    assert(spoken(Seq::<Said>::empty()) + line =~= line);
}

/// What is in neither of two texts is not in the one behind the other, nor in a part of either.
proof fn lemma_without(a: Seq<char>, b: Seq<char>, n: int, c: char)
    requires
        !a.contains(c),
        !b.contains(c),
        0 <= n <= b.len(),
    ensures
        !(a + b).contains(c),
        !(a + b.take(n)).contains(c),
        !b.skip(n).contains(c),
{
    assert forall|i: int| 0 <= i < (a + b).len() implies (a + b)[i] != c by {
        if i < a.len() {
            assert(a[i] != c);
        } else {
            assert(b[i - a.len()] != c);
        }
    }
    assert forall|i: int| 0 <= i < (a + b.take(n)).len() implies (a + b.take(n))[i] != c by {
        assert((a + b.take(n))[i] == (a + b)[i]);
    }
    assert forall|i: int| 0 <= i < b.skip(n).len() implies b.skip(n)[i] != c by {
        assert(b[i + n] != c);
    }
}

proof fn lemma_last_line_add(a: Seq<char>, b: Seq<char>)
    ensures
        last_line(a + b) == if b.contains('\n') {
            last_line(b)
        } else {
            last_line(a) + b
        },
    decreases b.len(),
{
    let ab = a + b;
    if b.len() == 0 {
        assert(ab =~= a);
        assert(last_line(a) + b =~= last_line(a));
    } else {
        let c = b.drop_last();
        lemma_last_line_add(a, c);
        assert(ab.drop_last() =~= a + c);
        assert(ab.last() == b.last());
        if b.last() == '\n' {
            assert(b[b.len() - 1] == '\n');
        } else {
            if b.contains('\n') {
                let i = choose|i: int| 0 <= i < b.len() && b[i] == '\n';
                assert(c[i] == '\n');
            } else if c.contains('\n') {
                let i = choose|i: int| 0 <= i < c.len() && c[i] == '\n';
                assert(b[i] == '\n');
            }
            assert((last_line(a) + c).push(b.last()) =~= last_line(a) + b);
        }
    }
}

proof fn lemma_last_line_whole(s: Seq<char>)
    requires
        !s.contains('\n'),
    ensures
        last_line(s) == s,
{
    lemma_last_line_add(Seq::empty(), s);
    assert(Seq::<char>::empty() + s =~= s);
}

/// What has come of the line that is being told.
pub open spec fn open_line(s: Sorting) -> Seq<char> {
    s.passed + s.pending
}

/// Whether nothing that waits could be a call: there is no gear in it, or it is in a fence.
spec fn harmless(s: Sorting, seg: Seq<char>) -> bool {
    s.held is None && (s.fenced || !(s.pending + seg).contains(GEAR))
}

/// Part of a line in which there can be no call is told as it is, and nothing of it is lost.
proof fn lemma_plain_part(s: Sorting, seg: Seq<char>)
    requires
        in_step(s),
        harmless(s, seg),
        seg.len() > 0,
        first_part(seg) == seg.len(),
    ensures
        ({
            let (a, next) = part_told(s, seg);
            &&& all_text(a)
            &&& next.held is None
            &&& s.pending + seg == spoken(a) + next.pending
            &&& next.fenced == if ends_line(seg) {
                fence_after(s, open_line(s) + seg)
            } else {
                s.fenced
            }
            &&& open_line(next) == if ends_line(seg) {
                Seq::empty()
            } else {
                open_line(s) + seg
            }
        }),
{
    let line = s.pending + seg;
    let (a, next) = part_told(s, seg);
    lemma_spoken_one(seg);
    lemma_spoken_one(line);
    text::lemma_trim_start(line);
    if !s.fenced && trail::on_trail(line) {
        let v = text::trim_start(line);
        assert(line[line.len() - v.len()] == v[0]);
        assert(line.contains(GEAR));
    }
    assert(line + Seq::<char>::empty() =~= line);
    assert(spoken(Seq::<Said>::empty()) + line =~= line);
    if s.prose {
        assert(line =~= seg);
        assert(open_line(s) + seg =~= s.passed + seg);
        assert(open_line(next) =~= next.passed);
        assert(seg + next.pending =~= seg);
    } else {
        assert(s.passed =~= Seq::empty());
        assert(open_line(s) + seg =~= line);
        if ends_line(seg) {
            assert(open_line(next) =~= Seq::empty());
        } else {
            assert(open_line(next) =~= line);
        }
    }
}

/// What is told part by part is told whole, with what is pending at the end behind it.
proof fn lemma_told_on(
    s: Sorting,
    seg: Seq<char>,
    more: Seq<char>,
    a: Seq<Said>,
    mid: Sorting,
    b: Seq<Said>,
    end: Sorting,
)
    requires
        s.pending + seg == spoken(a) + mid.pending,
        mid.pending + more == spoken(b) + end.pending,
    ensures
        s.pending + (seg + more) == spoken(a + b) + end.pending,
{
    lemma_spoken_add(a, b);
    assert(s.pending + (seg + more) =~= (s.pending + seg) + more);
    assert((spoken(a) + mid.pending) + more =~= spoken(a) + (mid.pending + more));
    assert(spoken(a) + (spoken(b) + end.pending) =~= (spoken(a) + spoken(b)) + end.pending);
}

proof fn lemma_line_goes_on(line: Seq<char>, seg: Seq<char>, more: Seq<char>)
    ensures
        last_line(line + (seg + more)) == last_line(
            (if ends_line(seg) {
                Seq::empty()
            } else {
                line + seg
            }) + more,
        ),
{
    let so_far = line + seg;
    assert(line + (seg + more) =~= so_far + more);
    if ends_line(seg) {
        lemma_last_line_add(so_far, more);
        lemma_last_line_add(Seq::empty(), more);
        assert(so_far.last() == '\n');
        assert(last_line(so_far) =~= last_line(Seq::empty()));
    }
}

/// Chunk after chunk without a gear: all of it is told, but for the start of a line that shows
/// nothing yet.
proof fn lemma_plain(s: Sorting, delta: Seq<char>)
    requires
        in_step(s),
        s.held is None,
        !s.pending.contains(GEAR),
        !delta.contains(GEAR),
    ensures
        ({
            let (a, next) = told(s, delta);
            &&& in_step(next)
            &&& all_text(a)
            &&& next.held is None
            &&& !next.pending.contains(GEAR)
            &&& s.pending + delta == spoken(a) + next.pending
            &&& open_line(next) == last_line(open_line(s) + delta)
        }),
    decreases delta.len(),
{
    if delta.len() == 0 {
        assert(s.pending + delta =~= spoken(Seq::<Said>::empty()) + s.pending);
        assert(open_line(s) + delta =~= open_line(s));
        assert(!open_line(s).contains('\n'));
        lemma_last_line_whole(open_line(s));
    } else {
        let n = first_part(delta);
        let seg = delta.take(n);
        let more = delta.skip(n);
        lemma_whole_part(delta, n);
        text::lemma_next_char(delta, '\n', 0);
        lemma_without(s.pending, delta, n, GEAR);
        let (a, mid) = part_told(s, seg);
        lemma_plain_part(s, seg);
        lemma_stays_in_step(s, seg);
        assert(!mid.pending.contains(GEAR)) by {
            assert(mid.pending =~= (s.pending + seg).skip(spoken(a).len() as int));
            lemma_without(Seq::empty(), s.pending + seg, spoken(a).len() as int, GEAR);
        }
        lemma_plain(mid, more);
        let (b, end) = told(mid, more);
        assert(seg + more =~= delta);
        lemma_told_on(s, seg, more, a, mid, b, end);
        lemma_line_goes_on(open_line(s), seg, more);
    }
}

/// Where there is no gear there is no call, and nothing of an answer is lost, repeated or put out
/// of order, however it was cut into chunks: everything told is prose, and all of it, up to the end
/// of the answer, is the answer. Nor is any of it held back: as soon as the last line is empty, or
/// shows anything at all, everything that has come has been told.
pub proof fn law_without_a_gear_nothing_is_lost(deltas: Seq<Seq<char>>)
    requires
        forall|i: int| 0 <= i < deltas.len() ==> !(#[trigger] deltas[i]).contains(GEAR),
    ensures
        ({
            let (pieces, s) = fed(at_start(), deltas);
            let all = pieces + told_at_end(s).0;
            let line = last_line(joined(deltas));
            &&& all_text(all)
            &&& spoken(all) == joined(deltas)
            &&& line.len() == 0 || text::trim_start(line).len() > 0 ==> spoken(pieces) == joined(
                deltas,
            )
        }),
{
    lemma_plain_chunks(deltas);
    let (pieces, s) = fed(at_start(), deltas);
    let (rest, _) = told_at_end(s);
    let whole = joined(deltas);
    lemma_spoken_add(pieces, rest);
    assert(rest =~= if s.pending.len() == 0 {
        Seq::<Said>::empty()
    } else {
        seq![Said::Text(s.pending)]
    }) by {
        text::lemma_trim_start(s.pending);
        if trail::on_trail(s.pending) {
            let v = text::trim_start(s.pending);
            assert(s.pending[s.pending.len() - v.len()] == v[0]);
        }
    }
    lemma_spoken_one(s.pending);
    assert(whole == spoken(pieces) + s.pending);
    if s.pending.len() == 0 {
        assert(whole =~= spoken(pieces));
        assert(spoken(pieces) + Seq::<char>::empty() =~= spoken(pieces));
    } else {
        // Prose leaves nothing pending, so the line is what is pending, and shows nothing.
        assert(!s.prose);
        assert(open_line(s) =~= s.pending);
        text::lemma_trim_start(s.pending);
        let v = text::trim_start(s.pending);
        if v.len() > 0 {
            assert(s.pending[s.pending.len() - v.len()] == v[0]);
            assert(s.pending.contains(v[0]));
        }
    }
}

proof fn lemma_plain_chunks(deltas: Seq<Seq<char>>)
    requires
        forall|i: int| 0 <= i < deltas.len() ==> !(#[trigger] deltas[i]).contains(GEAR),
    ensures
        ({
            let (pieces, s) = fed(at_start(), deltas);
            &&& in_step(s)
            &&& all_text(pieces)
            &&& s.held is None
            &&& !s.pending.contains(GEAR)
            &&& joined(deltas) == spoken(pieces) + s.pending
            &&& open_line(s) == last_line(joined(deltas))
        }),
    decreases deltas.len(),
{
    let start = at_start();
    assert(text::trim_start(Seq::<char>::empty()) =~= Seq::<char>::empty());
    if deltas.len() == 0 {
        assert(Seq::<char>::empty() =~= spoken(Seq::<Said>::empty()) + start.pending);
        assert(open_line(start) =~= Seq::empty());
    } else {
        let before = deltas.drop_last();
        assert forall|i: int| 0 <= i < before.len() implies !(#[trigger] before[i]).contains(
            GEAR,
        ) by {
            assert(before[i] == deltas[i]);
        }
        lemma_plain_chunks(before);
        let (a, mid) = fed(start, before);
        let d = deltas.last();
        lemma_plain(mid, d);
        let (b, end) = told(mid, d);
        lemma_spoken_add(a, b);
        assert((spoken(a) + mid.pending) + d =~= spoken(a) + (mid.pending + d));
        assert(spoken(a) + (spoken(b) + end.pending) =~= (spoken(a) + spoken(b)) + end.pending);
        let whole = joined(before);
        lemma_last_line_add(whole, d);
        lemma_last_line_add(open_line(mid), d);
        assert(!open_line(mid).contains('\n'));
        lemma_last_line_whole(open_line(mid));
    }
}

/// Whether no line that ends in `delta` is a fence, the first of them behind what had come of it.
pub open spec fn no_fence(before: Seq<char>, delta: Seq<char>) -> bool
    decreases delta.len(),
{
    proof {
        text::lemma_next_char(delta, '\n', 0);
    }
    if text::next_char(delta, '\n', 0) >= delta.len() {
        true
    } else {
        let n = first_part(delta);
        !markdown::is_fence(before + delta.take(n)) && no_fence(Seq::empty(), delta.skip(n))
    }
}

/// A gear inside a code fence is code: from where a fence is open until a line that is a fence has
/// ended, however the chunks fall, everything told is prose and nothing of it is lost.
pub proof fn law_a_gear_inside_a_fence_is_code(s: Sorting, delta: Seq<char>)
    requires
        in_step(s),
        s.fenced,
        no_fence(open_line(s), delta),
    ensures
        ({
            let (a, next) = told(s, delta);
            let (rest, _) = told_at_end(next);
            &&& all_text(a + rest)
            &&& s.pending + delta == spoken(a + rest)
            &&& next.fenced
            &&& in_step(next)
        }),
    decreases delta.len(),
{
    lemma_in_a_fence(s, delta);
    let (a, next) = told(s, delta);
    let (rest, _) = told_at_end(next);
    lemma_spoken_add(a, rest);
    lemma_spoken_one(next.pending);
    if next.pending.len() == 0 {
        assert(rest =~= Seq::<Said>::empty());
        assert(spoken(a) + next.pending =~= spoken(a));
        assert(spoken(a) + spoken(rest) =~= spoken(a));
    } else {
        assert(rest =~= seq![Said::Text(next.pending)]);
    }
}

proof fn lemma_in_a_fence(s: Sorting, delta: Seq<char>)
    requires
        in_step(s),
        s.fenced,
        no_fence(open_line(s), delta),
    ensures
        ({
            let (a, next) = told(s, delta);
            &&& all_text(a)
            &&& s.pending + delta == spoken(a) + next.pending
            &&& next.fenced
            &&& in_step(next)
        }),
    decreases delta.len(),
{
    if delta.len() == 0 {
        assert(s.pending + delta =~= spoken(Seq::<Said>::empty()) + s.pending);
    } else {
        let n = first_part(delta);
        let seg = delta.take(n);
        let more = delta.skip(n);
        lemma_whole_part(delta, n);
        text::lemma_next_char(delta, '\n', 0);
        lemma_plain_part(s, seg);
        lemma_stays_in_step(s, seg);
        let (a, mid) = part_told(s, seg);
        if text::next_char(delta, '\n', 0) >= delta.len() {
            assert(seg =~= delta);
            assert(more =~= Seq::empty());
            if ends_line(seg) {
                assert(delta[delta.len() - 1] == '\n');
            }
        } else {
            assert(seg.last() == '\n');
        }
        lemma_in_a_fence(mid, more);
        let (b, end) = told(mid, more);
        assert(seg + more =~= delta);
        lemma_told_on(s, seg, more, a, mid, b, end);
    }
}

// ── Calls, as they come ─────────────────────────────────────────────

proof fn lemma_chomped(line: Seq<char>)
    requires
        line.len() == 0 || line.last() != '\n' && line.last() != '\r',
    ensures
        chomped(line) == line,
        chomped(line.push('\n')) == line,
{
    assert(line.push('\n').drop_last() =~= line);
}

proof fn lemma_one_line(s: Sorting, line: Seq<char>, rest: Seq<char>)
    requires
        !line.contains('\n'),
    ensures
        ({
            let (a, mid) = part_told(s, line.push('\n'));
            let (b, end) = told(mid, rest);
            told(s, line.push('\n') + rest) == (a + b, end)
        }),
{
    let delta = line.push('\n') + rest;
    text::lemma_next_char(delta, '\n', 0);
    let i = text::next_char(delta, '\n', 0);
    assert(delta[line.len() as int] == '\n');
    assert(i == line.len()) by {
        if i < line.len() {
            assert(line.contains(line[i]));
        }
    }
    assert(delta.take(i + 1) =~= line.push('\n'));
    assert(delta.skip(i + 1) =~= rest);
}

proof fn lemma_gear_line(before: Seq<char>, picture: bool, t: Seq<char>)
    requires
        text::all_white(before),
        text::neat(t),
    ensures
        ({
            let line = trail::trail_line(before, picture, t, Seq::empty());
            &&& trail::on_trail(line)
            &&& trail::on_trail(line.push('\n'))
            &&& line.len() > 0 && line.last() == t.last()
        }),
{
    let none = Seq::<char>::empty();
    let line = trail::trail_line(before, picture, t, none);
    trail::law_the_gear_goes(before, picture, t, none);
    let end = seq!['\n'];
    text::law_what_is_white('\n');
    trail::law_the_gear_goes(before, picture, t, end);
    assert(line.push('\n') =~= trail::trail_line(before, picture, t, end));
}

/// A call is told as a call, as soon as its line is over and wherever on the line it starts, and
/// nothing of the line is told as text.
pub proof fn law_a_trail_line_is_a_call(
    before: Seq<char>,
    picture: bool,
    t: Seq<char>,
    c: Call,
)
    requires
        text::all_white(before),
        text::neat(t),
        ({
            let line = trail::trail_line(before, picture, t, Seq::empty());
            &&& !line.contains('\n')
            &&& !trail::waits(line)
            &&& trail::call_on(line, None) == Some((c, false))
        }),
    ensures
        told(
            at_start(),
            trail::trail_line(before, picture, t, Seq::empty()).push('\n'),
        ) == (seq![Said::Call(c)], at_start()),
{
    let none = Seq::<char>::empty();
    let line = trail::trail_line(before, picture, t, none);
    lemma_gear_line(before, picture, t);
    text::law_what_is_white('\r');
    text::law_what_is_white('\n');
    lemma_chomped(line);
    lemma_one_line(at_start(), line, none);
    assert(line.push('\n') + none =~= line.push('\n'));
    assert(none + line.push('\n') =~= line.push('\n'));
    assert(seq![Said::Call(c)] + Seq::<Said>::empty() =~= seq![Said::Call(c)]);
}

/// A call whose arguments are on the next line waits for that line and takes it; a next line that
/// is no arguments is told for what it is, behind the call.
pub proof fn law_a_waiting_call_takes_its_line(
    before: Seq<char>,
    picture: bool,
    t: Seq<char>,
    next: Seq<char>,
    c: Call,
    took: bool,
)
    requires
        text::all_white(before),
        text::neat(t),
        !next.contains('\n'),
        next.len() == 0 || next.last() != '\r',
        ({
            let line = trail::trail_line(before, picture, t, Seq::empty());
            &&& !line.contains('\n')
            &&& trail::waits(line)
            &&& trail::call_on(line, Some(next)) == Some((c, took))
        }),
    ensures
        ({
            let line = trail::trail_line(before, picture, t, Seq::empty());
            let all = told(at_start(), line.push('\n') + next.push('\n'));
            &&& told(at_start(), line.push('\n')).0.len() == 0
            &&& took ==> all == (seq![Said::Call(c)], at_start())
            &&& !took ==> all.0 == seq![Said::Call(c)] + told(at_start(), next.push('\n')).0
        }),
{
    let none = Seq::<char>::empty();
    let line = trail::trail_line(before, picture, t, none);
    lemma_gear_line(before, picture, t);
    text::law_what_is_white('\r');
    text::law_what_is_white('\n');
    lemma_chomped(line);
    if next.len() > 0 {
        assert(next.contains(next.last()));
    }
    lemma_chomped(next);
    lemma_one_line(at_start(), line, next.push('\n'));
    lemma_one_line(at_start(), line, none);
    assert(line.push('\n') + none =~= line.push('\n'));
    assert(none + line.push('\n') =~= line.push('\n'));
    let (a, mid) = part_told(at_start(), line.push('\n'));
    assert(a =~= Seq::<Said>::empty());
    assert(mid == (Sorting { held: Some(line), ..at_start() }));
    lemma_one_line(mid, next, none);
    assert(next.push('\n') + none =~= next.push('\n'));
    assert(none + next.push('\n') =~= next.push('\n'));
    lemma_one_line(at_start(), next, none);
    let (b, end) = part_told(mid, next.push('\n'));
    assert(b + Seq::<Said>::empty() =~= b);
    assert(a + (b + Seq::<Said>::empty()) =~= b);
    assert(a + Seq::<Said>::empty() =~= a);
    let free = part_told(at_start(), next.push('\n')).0;
    assert(free + Seq::<Said>::empty() =~= free);
}

/// The words that steer an answer belong to the built-in mind alone: to it they end the answer and
/// start it over, and from any other they are text like any other.
pub proof fn law_only_the_builtin_steers(r: Reads, chunk: Chunk, next: Chunk)
    requires
        chunk is Text,
        next is Text,
    ensures
        !r.builtin ==> chunk_read(r, chunk).0 == all_applied(told(r.lines, chunk->Text_0@).0),
        r.builtin && chunk->Text_0@ == "__DONE__"@ ==> chunk_read(r, chunk) == (
            Seq::<Done>::empty(),
            r,
        ),
        r.builtin && chunk->Text_0@ == "__REPLACE__"@ && next->Text_0@ != "__DONE__"@
            && next->Text_0@ != "__REPLACE__"@ ==> {
            let (nothing, mid) = chunk_read(r, chunk);
            let (over, end) = chunk_read(mid, next);
            &&& nothing.len() == 0
            &&& over == seq![Done::Replace(next->Text_0@)]
            &&& end.lines == at_start()
            &&& !end.replace_next
        },
        r.builtin && !r.replace_next && chunk->Text_0@ != "__DONE__"@ && chunk->Text_0@
            != "__REPLACE__"@ ==> chunk_read(r, chunk).0 == all_applied(
            told(r.lines, chunk->Text_0@).0,
        ),
{
    reveal_strlit("__DONE__");
    reveal_strlit("__REPLACE__");
    assert("__DONE__"@.len() == 8 && "__REPLACE__"@.len() == 11);
}

/// A turn that fails loses nothing of what was said, and says why it failed.
pub proof fn law_a_failure_is_told(r: Reads, chunk: Chunk)
    requires
        chunk is Failed,
        in_step(r.lines),
    ensures
        ({
            let (out, end) = chunk_read(r, chunk);
            &&& out == all_applied(told_at_end(r.lines).0).push(
                Done::Note("The turn failed: "@ + chunk->Failed_0@),
            )
            &&& end.failed
            &&& end.lines.held is None && end.lines.pending.len() == 0
        }),
{
    law_nothing_is_held_back_at_the_end(r.lines);
}

/// At the end of an answer whatever was held back is told: the call that waited for its arguments,
/// and the line that never ended, unless it was a call itself.
pub proof fn law_nothing_is_held_back_at_the_end(s: Sorting)
    requires
        in_step(s),
    ensures
        ({
            let (out, end) = told_at_end(s);
            &&& end.held is None && end.pending.len() == 0 && end.passed.len() == 0 && !end.prose
            &&& s.held is None && s.pending.len() > 0 && (s.fenced || !trail::on_trail(s.pending))
                ==> out == seq![Said::Text(s.pending)]
            &&& s.held is None && s.pending.len() == 0 ==> out.len() == 0
            &&& s.held is Some && s.pending.len() == 0 && trail::call_on(s.held->0, None) is Some
                ==> out == seq![Said::Call((trail::call_on(s.held->0, None)->0).0)]
        }),
{
    let none = Seq::<Said>::empty();
    assert(none + seq![Said::Text(s.pending)] =~= seq![Said::Text(s.pending)]);
}

/// An agent goes by the name of the mind it runs on while it lives, by that of its harness while
/// that is known, and by its harness's id otherwise.
pub proof fn law_what_an_agent_goes_by(
    agent: AgentId,
    live: &[LiveAgent],
    list: &[Listed],
    i: int,
    r: AgentMeta,
)
    requires
        call_ensures(meta_for, (&agent, live, list), r),
    ensures
        r.id@ == agent@,
        0 <= i < live@.len() && live@[i].id@ == agent@ && (forall|j: int|
            0 <= j < i ==> (#[trigger] live@[j]).id@ != agent@) ==> r.mind@
            == live@[i].harness_name@ && r.conversations == live@[i].conversations,
        (forall|j: int| 0 <= j < live@.len() ==> (#[trigger] live@[j]).id@ != agent@)
            ==> !r.conversations,
        (forall|j: int| 0 <= j < live@.len() ==> (#[trigger] live@[j]).id@ != agent@) && (forall|
            j: int,
        |
            0 <= j < list@.len() ==> (#[trigger] list@[j]).id@ != agents::harness_in(agent@))
            ==> r.mind@ == agents::harness_in(agent@),
        (forall|j: int| 0 <= j < live@.len() ==> (#[trigger] live@[j]).id@ != agent@) && 0 <= i
            < list@.len() && list@[i].id@ == agents::harness_in(agent@) && (forall|j: int|
            0 <= j < i ==> (#[trigger] list@[j]).id@ != agents::harness_in(agent@)) ==> r.mind@
            == list@[i].name@,
{
    let f = live_as(agent@);
    let g = listed_as(agents::harness_in(agent@));
    if 0 <= i < live@.len() && live@[i].id@ == agent@ && forall|j: int|
        0 <= j < i ==> (#[trigger] live@[j]).id@ != agent@ {
        seqs::lemma_first_is(live@, f, i);
    }
    if forall|j: int| 0 <= j < live@.len() ==> (#[trigger] live@[j]).id@ != agent@ {
        seqs::lemma_first_none(live@, f);
    }
    if forall|j: int|
        0 <= j < list@.len() ==> (#[trigger] list@[j]).id@ != agents::harness_in(agent@) {
        seqs::lemma_first_none(list@, g);
    }
    if 0 <= i < list@.len() && list@[i].id@ == agents::harness_in(agent@) && forall|j: int|
        0 <= j < i ==> (#[trigger] list@[j]).id@ != agents::harness_in(agent@) {
        seqs::lemma_first_is(list@, g, i);
    }
}

/// A fence opens a block of code and the next one closes it, and no other line does either; inside
/// it every line is told as it is.
pub proof fn law_a_fence_opens_and_closes(s: Sorting, fence: Seq<char>, line: Seq<char>)
    requires
        s.held is None,
        markdown::is_fence(fence),
        !trail::on_trail(fence),
        !markdown::is_fence(line),
    ensures
        line_told(s, fence).1.fenced == !s.fenced,
        line_told(line_told(s, fence).1, fence).1.fenced == s.fenced,
        line_told(s, line).1.fenced == s.fenced,
        line_told(s, fence).0 == seq![Said::Text(fence)],
        s.fenced ==> line_told(s, line).0 == seq![Said::Text(line)],
        !trail::on_trail(line) ==> line_told(s, line).0 == seq![Said::Text(line)],
{
}

/// A turn of the panel that nobody listens to any more did not come out well, and says so last; one
/// that is listened to came out well unless it failed. Only the built-in companion ends its answer
/// with a word.
pub proof fn law_how_a_turn_of_the_panel_ends(
    reading: &mut Reader,
    listening: bool,
    r: (Vec<Effect>, bool),
    chunk: Chunk,
    builtin: bool,
    over: bool,
)
    requires
        call_ensures(Reader::lens_turn_ended, (reading, listening), r),
        call_ensures(ends_answer, (&chunk, builtin), over),
    ensures
        r.1 <==> listening && !old(reading)@.failed,
        !listening ==> done(r.0@).last() == Done::Note("The conversation panel stopped listening."@),
        !listening ==> done(r.0@).drop_last() == all_applied(told_at_end(old(reading)@.lines).0),
        listening ==> done(r.0@) == all_applied(told_at_end(old(reading)@.lines).0),
        over ==> builtin && chunk is Text,
        builtin && chunk is Text && chunk->Text_0@ == "__DONE__"@ ==> over,
{
}

} // verus!
