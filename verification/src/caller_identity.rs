//! Turning a pid into something a person can read, and refusing to guess when it cannot.
//!
//! The kernel says which process opened the shell's socket. That process is almost never the
//! interesting one, so the walk goes up its ancestors, past our own plumbing and bare shells, and
//! the first thing left is what a card names. It identifies a program, never an intent and never a
//! person.
use crate::seqs;
use crate::text;
use crate::text::{
    after_last, chars_of, clip, joined, leading, lines_of, lowered, next_at, parse_i32, parse_u64, part,
    rest, same, signed_decimal, split_at_char, starts, trimmed, words_of,
};
use vstd::prelude::*;

verus! {

/// How far up the process tree to walk.
pub const MAX_ANCESTORS: usize = 8;

/// How much of a command line a card shows.
pub const CMDLINE_CHARS: usize = 72;

/// How much of the verified line fits on one card row.
pub const LINE_CHARS: usize = 66;

/// How much of the mismatch sentence fits on one card row.
pub const WARNING_CHARS: usize = 58;

/// One process, as `/proc` described it at the moment somebody looked.
#[derive(Clone, Debug, Default, PartialEq, Eq)]
pub struct ProcessFacts {
    pub pid: i32,
    /// The executable, or empty when it could not be read.
    pub exe: String,
    /// The command line, bounded to one card line. Empty when there was nothing.
    pub short_cmdline: String,
    /// The process's start time in clock ticks since boot: the only thing that distinguishes a
    /// pid from the pid it will be reused as.
    pub started: u64,
}

/// What a [`ProcessFacts`] says.
pub struct Facts {
    pub pid: int,
    pub exe: Seq<char>,
    pub cmdline: Seq<char>,
    pub started: int,
}

impl View for ProcessFacts {
    type V = Facts;

    open spec fn view(&self) -> Facts {
        Facts {
            pid: self.pid as int,
            exe: self.exe@,
            cmdline: self.short_cmdline@,
            started: self.started as int,
        }
    }
}

pub open spec fn facts(s: Seq<ProcessFacts>) -> Seq<Facts> {
    Seq::new(s.len(), |i: int| s[i]@)
}

/// The last path component, or the whole where there is no separator.
pub open spec fn base(path: Seq<char>) -> Seq<char> {
    path.skip(text::last_char(path, '/') + 1)
}

fn basename(path: &str) -> (r: String)
    ensures
        r@ == base(path@),
{
    let v = chars_of(path);
    let i = after_last(v.as_slice(), '/');
    rest(v.as_slice(), i)
}

/// What to call a program on a card: its command line, else its binary, else its pid.
pub open spec fn label_of(f: Facts) -> Seq<char> {
    if f.cmdline.len() > 0 {
        f.cmdline
    } else if f.exe.len() > 0 {
        base(f.exe)
    } else {
        "pid "@ + text::dec_signed(f.pid)
    }
}

impl ProcessFacts {
    /// What to call this program on a card. The command line if there is one, else the binary.
    pub fn label(&self) -> (r: String)
        ensures
            r@ == label_of(self@),
    {
        if !self.short_cmdline.as_str().is_empty() {
            return self.short_cmdline.clone();
        }
        if !self.exe.as_str().is_empty() {
            return basename(self.exe.as_str());
        }
        let mut out = "pid ".to_owned();
        out.append(signed_decimal(self.pid as i64).as_str());
        out
    }

    pub fn copy(&self) -> (r: ProcessFacts)
        ensures
            r@ == self@,
    {
        ProcessFacts {
            pid: self.pid,
            exe: self.exe.clone(),
            short_cmdline: self.short_cmdline.clone(),
            started: self.started,
        }
    }
}

/// One mind the shell has attached, as far as matching a process against it is concerned.
#[derive(Clone, Debug, PartialEq, Eq)]
pub struct Mind {
    pub id: String,
    pub name: String,
}

// ── What a process is ───────────────────────────────────────────────

/// Our own plumbing between a mind and the socket.
pub open spec fn bridge_name(s: Seq<char>) -> bool {
    s == "yos"@ || s == "yos-mcp"@
}

/// A way of starting something rather than a thing somebody would name.
pub open spec fn shell_name(s: Seq<char>) -> bool {
    s == "sh"@ || s == "bash"@ || s == "dash"@ || s == "zsh"@ || s == "ksh"@ || s == "fish"@ || s
        == "busybox"@ || s == "ash"@
}

/// Where a walk stops.
pub open spec fn root_name(s: Seq<char>) -> bool {
    s == "systemd"@ || s == "init"@
}

pub open spec fn first_word(s: Seq<char>) -> Seq<char> {
    if text::words(s).len() > 0 {
        text::words(s)[0]
    } else {
        Seq::empty()
    }
}

/// Our bridge, however it was started: by its binary, or by the first two words of its command
/// line. (What else is on the line are arguments, which must not decide what this is.)
pub open spec fn is_bridge(f: Facts) -> bool {
    let w = text::words(f.cmdline);
    ||| bridge_name(base(f.exe))
    ||| w.len() > 0 && bridge_name(base(w[0]))
    ||| w.len() > 1 && bridge_name(base(w[1]))
}

/// A shell with nothing of its own to say: no arguments, `-c` and what follows it, or nothing but
/// flags. A shell that runs a script is that script.
pub open spec fn is_bare_shell(f: Facts) -> bool {
    let w = text::words(f.cmdline);
    let shell = shell_name(base(f.exe)) || shell_name(
        base(text::without_leading(first_word(f.cmdline), '-')),
    );
    shell && (w.len() <= 1 || w[1] == "-c"@ || forall|i: int|
        1 <= i < w.len() ==> (#[trigger] w[i]).len() > 0 && w[i][0] == '-')
}

/// The first process, or the user's session manager.
pub open spec fn is_root(f: Facts) -> bool {
    f.pid <= 1 || root_name(base(f.exe)) || root_name(base(first_word(f.cmdline)))
}

/// The shell and the programs it ships, which are the ancestry of everything a person starts.
pub open spec fn is_desktop(f: Facts) -> bool {
    "/opt/yantrik/bin/"@.is_prefix_of(f.exe) || "yantrik-"@.is_prefix_of(base(f.exe))
}

fn named_bridge(s: &str) -> (r: bool)
    ensures
        r == bridge_name(s@),
{
    same(s, "yos") || same(s, "yos-mcp")
}

fn named_shell(s: &str) -> (r: bool)
    ensures
        r == shell_name(s@),
{
    same(s, "sh") || same(s, "bash") || same(s, "dash") || same(s, "zsh") || same(s, "ksh") || same(
        s,
        "fish",
    ) || same(s, "busybox") || same(s, "ash")
}

fn named_root(s: &str) -> (r: bool)
    ensures
        r == root_name(s@),
{
    same(s, "systemd") || same(s, "init")
}

fn bridge(f: &ProcessFacts) -> (r: bool)
    ensures
        r == is_bridge(f@),
{
    if named_bridge(basename(f.exe.as_str()).as_str()) {
        return true;
    }
    let w = words_of(f.short_cmdline.as_str());
    let ghost ws = text::words(f@.cmdline);
    assert(text::strs(w@) == ws);
    assert(w@.len() > 0 ==> w@[0]@ == ws[0]);
    assert(w@.len() > 1 ==> w@[1]@ == ws[1]);
    assert(w@.len() == ws.len());
    (w.len() > 0 && named_bridge(basename(w[0].as_str()).as_str())) || (w.len() > 1 && named_bridge(
        basename(w[1].as_str()).as_str(),
    ))
}

fn bare_shell(f: &ProcessFacts) -> (r: bool)
    ensures
        r == is_bare_shell(f@),
{
    let w = words_of(f.short_cmdline.as_str());
    let ghost ws = text::words(f@.cmdline);
    assert(text::strs(w@) == ws);
    assert(w@.len() == ws.len());
    assert(forall|i: int| 0 <= i < w@.len() ==> (#[trigger] w@[i])@ == ws[i]) by {
        assert forall|i: int| 0 <= i < w@.len() implies (#[trigger] w@[i])@ == ws[i] by {
            assert(text::strs(w@)[i] == w@[i]@);
        }
    }
    let argv0 = if w.len() > 0 {
        w[0].clone()
    } else {
        String::new()
    };
    assert(argv0@ =~= first_word(f@.cmdline));
    let letters = chars_of(argv0.as_str());
    let k = leading(letters.as_slice(), '-');
    let shell = named_shell(basename(f.exe.as_str()).as_str()) || named_shell(
        basename(rest(letters.as_slice(), k).as_str()).as_str(),
    );
    if !shell {
        return false;
    }
    if w.len() <= 1 || same(w[1].as_str(), "-c") {
        return true;
    }
    let mut i: usize = 1;
    while i < w.len()
        invariant
            1 <= i <= w@.len(),
            w@.len() == ws.len(),
            ws == text::words(f@.cmdline),
            ws.len() > 1,
            ws[1] != "-c"@,
            forall|k: int| 0 <= k < w@.len() ==> (#[trigger] w@[k])@ == ws[k],
            forall|k: int| 1 <= k < i ==> (#[trigger] ws[k]).len() > 0 && ws[k][0] == '-',
        decreases w@.len() - i,
    {
        assert(w@[i as int]@ == ws[i as int]);
        let word = chars_of(w[i].as_str());
        if word.len() == 0 || word[0] != '-' {
            assert(!(ws[i as int].len() > 0 && ws[i as int][0] == '-'));
            return false;
        }
        i += 1;
    }
    true
}

fn root(f: &ProcessFacts) -> (r: bool)
    ensures
        r == is_root(f@),
{
    if f.pid <= 1 {
        return true;
    }
    let w = words_of(f.short_cmdline.as_str());
    assert(text::strs(w@) == text::words(f@.cmdline));
    let argv0 = if w.len() > 0 {
        w[0].clone()
    } else {
        String::new()
    };
    assert(argv0@ =~= first_word(f@.cmdline)) by {
        if w@.len() > 0 {
            assert(text::strs(w@)[0] == w@[0]@);
        }
    }
    named_root(basename(f.exe.as_str()).as_str()) || named_root(basename(argv0.as_str()).as_str())
}

fn this_desktop(f: &ProcessFacts) -> (r: bool)
    ensures
        r == is_desktop(f@),
{
    starts(f.exe.as_str(), "/opt/yantrik/bin/") || starts(
        basename(f.exe.as_str()).as_str(),
        "yantrik-",
    )
}

// ── Which mind ──────────────────────────────────────────────────────

pub open spec fn is_alnum(c: char) -> bool {
    'a' <= c <= 'z' || 'A' <= c <= 'Z' || '0' <= c <= '9'
}

/// Where the run of letters and digits that starts at `from` ends.
pub open spec fn run_end(s: Seq<char>, from: int) -> int
    decreases s.len() - from,
{
    if from < 0 || from >= s.len() {
        s.len() as int
    } else if is_alnum(s[from]) {
        run_end(s, from + 1)
    } else {
        from
    }
}

pub proof fn lemma_run_end(s: Seq<char>, from: int)
    requires
        0 <= from <= s.len(),
    ensures
        from <= run_end(s, from) <= s.len(),
        from < s.len() && is_alnum(s[from]) ==> from < run_end(s, from),
        forall|i: int| from <= i < run_end(s, from) ==> is_alnum(#[trigger] s[i]),
        run_end(s, from) < s.len() ==> !is_alnum(s[run_end(s, from)]),
    decreases s.len() - from,
{
    if from < s.len() && is_alnum(s[from]) {
        lemma_run_end(s, from + 1);
    }
}

/// The runs of letters and digits in a text.
pub open spec fn runs(s: Seq<char>) -> Seq<Seq<char>>
    decreases s.len(),
{
    proof {
        lemma_run_end(s, 0);
    }
    if s.len() == 0 {
        Seq::empty()
    } else if !is_alnum(s[0]) {
        runs(s.drop_first())
    } else {
        seq![s.take(run_end(s, 0))] + runs(s.skip(run_end(s, 0)))
    }
}

/// Long enough to be distinctive: a mind called "AI" must not match half the process table.
pub open spec fn distinctive() -> spec_fn(Seq<char>) -> bool {
    |t: Seq<char>| t.len() >= 4
}

/// The words in a mind's name that are distinctive enough to match a path on.
pub open spec fn tokens(name: Seq<char>) -> Seq<Seq<char>> {
    runs(text::lower(name)).filter(distinctive())
}

/// Everything about a process in small letters, to look for names in.
pub open spec fn haystack(f: Facts) -> Seq<char> {
    text::lower(f.exe + " "@ + f.cmdline)
}

/// Whether any of the tokens stands in a text.
pub open spec fn any_in(hay: Seq<char>, tokens: Seq<Seq<char>>) -> bool {
    exists|i: int| 0 <= i < tokens.len() && text::contains(hay, #[trigger] tokens[i])
}

/// Whether a process bears a mind's name: one of the distinctive words of its name or of its id.
pub open spec fn bears(f: Facts) -> spec_fn(Mind) -> bool {
    |m: Mind| any_in(haystack(f), tokens(m.name@)) || any_in(haystack(f), tokens(m.id@))
}

/// Whether a process says which mind its ancestry belongs to. Our own bridge and the desktop's own
/// programs prove nothing about that.
pub open spec fn tells(minds: Seq<Mind>) -> spec_fn(Facts) -> bool {
    |f: Facts| !is_bridge(f) && !is_desktop(f) && seqs::first(minds, bears(f)) < minds.len()
}

/// Which attached mind, if any, an ancestry belongs to.
pub open spec fn mind_of(chain: Seq<Facts>, minds: Seq<Mind>) -> Option<Seq<char>> {
    let i = seqs::first(chain, tells(minds));
    if i < chain.len() {
        Some(minds[seqs::first(minds, bears(chain[i]))].name@)
    } else {
        None
    }
}

fn name_tokens(name: &str) -> (r: Vec<String>)
    ensures
        text::strs(r@) == tokens(name@),
{
    let low = lowered(name);
    let v = chars_of(low.as_str());
    let ghost s = text::lower(name@);
    let ghost d = distinctive();
    let mut out: Vec<String> = Vec::new();
    let mut from: usize = 0;
    let ghost mut seen: Seq<Seq<char>> = Seq::empty();
    proof {
        assert(s.skip(0) =~= s);
        assert(seen + runs(s) =~= runs(s));
        reveal(Seq::filter);
        assert(text::strs(out@) =~= seen.filter(d));
    }
    while from < v.len()
        invariant
            v@ == s,
            d == distinctive(),
            from <= v@.len(),
            runs(s) == seen + runs(s.skip(from as int)),
            text::strs(out@) == seen.filter(d),
        decreases v@.len() - from,
    {
        let ghost tail = s.skip(from as int);
        let c = v[from];
        assert(tail[0] == c);
        let alnum = ('a' <= c && c <= 'z') || ('A' <= c && c <= 'Z') || ('0' <= c && c <= '9');
        if !alnum {
            assert(tail.drop_first() =~= s.skip(from + 1));
            from += 1;
        } else {
            let mut to: usize = from;
            while to < v.len() && (('a' <= v[to] && v[to] <= 'z') || ('A' <= v[to] && v[to] <= 'Z')
                || ('0' <= v[to] && v[to] <= '9'))
                invariant
                    v@ == s,
                    from <= to <= v@.len(),
                    tail == s.skip(from as int),
                    run_end(tail, 0) == run_end(tail, to - from),
                decreases v@.len() - to,
            {
                assert(tail[to - from] == v@[to as int]);
                to += 1;
            }
            proof {
                if to < v@.len() {
                    assert(tail[to - from] == v@[to as int]);
                }
                lemma_run_end(tail, 0);
            }
            let word = part(v.as_slice(), from, to);
            let ghost w = word@;
            let ghost was = seen;
            let ghost strs_was = text::strs(out@);
            proof {
                assert(w =~= tail.take(to - from));
                assert(tail.skip(to - from) =~= s.skip(to as int));
                seen = seen.push(w);
                assert(was + (seq![w] + runs(s.skip(to as int))) =~= seen + runs(s.skip(to as int)));
                reveal(Seq::filter);
                assert(seen.drop_last() =~= was);
            }
            if to - from >= 4 {
                out.push(word);
                assert(text::strs(out@) =~= strs_was.push(w));
            }
            from = to;
        }
    }
    assert(seen + Seq::<Seq<char>>::empty() =~= seen);
    out
}

fn any_token_in(hay: &str, tokens: &[String]) -> (r: bool)
    ensures
        r == any_in(hay@, text::strs(tokens@)),
{
    let mut i: usize = 0;
    while i < tokens.len()
        invariant
            i <= tokens@.len(),
            forall|k: int| 0 <= k < i ==> !text::contains(hay@, #[trigger] text::strs(tokens@)[k]),
        decreases tokens@.len() - i,
    {
        assert(text::strs(tokens@)[i as int] == tokens@[i as int]@);
        if text::has(hay, tokens[i].as_str()) {
            return true;
        }
        i += 1;
    }
    false
}

fn mind_borne(f: &ProcessFacts, minds: &[Mind]) -> (r: usize)
    ensures
        r == seqs::first(minds@, bears(f@)),
{
    let mut hay = f.exe.clone();
    hay.append(" ");
    hay.append(f.short_cmdline.as_str());
    let hay = lowered(hay.as_str());
    let mut i: usize = 0;
    while i < minds.len()
        invariant
            i <= minds@.len(),
            hay@ == haystack(f@),
            seqs::first(minds@, bears(f@)) == seqs::first_from(minds@, bears(f@), i as int),
        decreases minds@.len() - i,
    {
        if any_token_in(hay.as_str(), name_tokens(minds[i].name.as_str()).as_slice())
            || any_token_in(hay.as_str(), name_tokens(minds[i].id.as_str()).as_slice()) {
            return i;
        }
        i += 1;
    }
    i
}

/// Which attached mind, if any, this ancestry belongs to. By name, because nothing else about a
/// mind is known here.
pub fn mind_for(chain: &[ProcessFacts], minds: &[Mind]) -> (r: Option<String>)
    ensures
        (r matches Some(name) ==> mind_of(facts(chain@), minds@) == Some(name@)),
        r is None ==> mind_of(facts(chain@), minds@) is None,
{
    let mut i: usize = 0;
    let ghost c = facts(chain@);
    while i < chain.len()
        invariant
            i <= chain@.len(),
            c == facts(chain@),
            seqs::first(c, tells(minds@)) == seqs::first_from(c, tells(minds@), i as int),
        decreases chain@.len() - i,
    {
        assert(c[i as int] == chain@[i as int]@);
        if !bridge(&chain[i]) && !this_desktop(&chain[i]) {
            let k = mind_borne(&chain[i], minds);
            if k < minds.len() {
                return Some(minds[k].name.clone());
            }
        }
        i += 1;
    }
    None
}

// ── Choosing, from a chain that is already read ─────────────────────

/// What this machine established about whoever opened the socket.
#[derive(Clone, Debug, Default, PartialEq, Eq)]
pub struct CallerIdentity {
    /// The peer itself. `None` when there was no pid, or nothing was known about it.
    pub direct: Option<ProcessFacts>,
    /// The first ancestor that is not our own plumbing: what a person would recognise.
    pub recognisable: Option<ProcessFacts>,
    /// The attached mind this ancestry belongs to, by name, if one matched.
    pub attached_mind: Option<String>,
    /// Everything that was walked, deepest first.
    pub chain: Vec<ProcessFacts>,
    /// A bare shell stood between the peer and the recognisable program.
    pub via_shell: bool,
}

/// What a [`CallerIdentity`] says.
pub struct Identity {
    pub direct: Option<Facts>,
    pub recognisable: Option<Facts>,
    pub mind: Option<Seq<char>>,
    pub chain: Seq<Facts>,
    pub via_shell: bool,
}

pub open spec fn facts_of(f: Option<ProcessFacts>) -> Option<Facts> {
    match f {
        Some(f) => Some(f@),
        None => None,
    }
}

impl View for CallerIdentity {
    type V = Identity;

    open spec fn view(&self) -> Identity {
        Identity {
            direct: facts_of(self.direct),
            recognisable: facts_of(self.recognisable),
            mind: match self.attached_mind {
                Some(m) => Some(m@),
                None => None,
            },
            chain: facts(self.chain@),
            via_shell: self.via_shell,
        }
    }
}

/// Where the search for something recognisable ends: at the session manager, or at the first
/// process that is neither our plumbing nor a bare shell.
pub open spec fn ends_search() -> spec_fn(Facts) -> bool {
    |f: Facts| is_root(f) || (!is_bridge(f) && !is_bare_shell(f))
}

/// Who is asking, out of a chain of processes.
pub open spec fn identified(chain: Seq<Facts>, minds: Seq<Mind>) -> Identity {
    let k = seqs::first(chain, ends_search());
    Identity {
        direct: if chain.len() > 0 {
            Some(chain[0])
        } else {
            None
        },
        recognisable: if k < chain.len() && !is_root(chain[k]) {
            Some(chain[k])
        } else {
            None
        },
        mind: mind_of(chain, minds),
        chain,
        via_shell: exists|i: int|
            0 <= i < k && i < chain.len() && !is_bridge(#[trigger] chain[i]) && is_bare_shell(
                chain[i],
            ),
    }
}

/// Pick the recognisable program and the mind, out of a chain that is already read.
pub fn identify(chain: Vec<ProcessFacts>, minds: &[Mind]) -> (r: CallerIdentity)
    ensures
        r@ == identified(facts(chain@), minds@),
{
    let ghost c = facts(chain@);
    let direct = if chain.len() > 0 {
        Some(chain[0].copy())
    } else {
        None
    };
    let mut via_shell = false;
    let mut recognisable: Option<ProcessFacts> = None;
    let mut i: usize = 0;
    let mut searching = true;
    while searching && i < chain.len()
        invariant
            i <= chain@.len(),
            c == facts(chain@),
            searching ==> seqs::first(c, ends_search()) == seqs::first_from(
                c,
                ends_search(),
                i as int,
            ) && recognisable is None,
            !searching ==> i < chain@.len() && seqs::first(c, ends_search()) == i,
            !searching ==> facts_of(recognisable) == if is_root(c[i as int]) {
                None
            } else {
                Some(c[i as int])
            },
            via_shell == exists|k: int|
                0 <= k < i && !is_bridge(#[trigger] c[k]) && is_bare_shell(c[k]),
        decreases chain@.len() - i + (if searching { 1int } else { 0 }),
    {
        assert(c[i as int] == chain@[i as int]@);
        if root(&chain[i]) {
            searching = false;
        } else if bridge(&chain[i]) {
            i += 1;
        } else if bare_shell(&chain[i]) {
            via_shell = true;
            i += 1;
        } else {
            recognisable = Some(chain[i].copy());
            searching = false;
        }
    }
    proof {
        seqs::lemma_first(c, ends_search());
    }
    let attached_mind = mind_for(chain.as_slice(), minds);
    CallerIdentity { direct, recognisable, attached_mind, chain, via_shell }
}

/// The process an identity is about: the recognisable one, else the peer.
pub open spec fn subject(i: Identity) -> Option<Facts> {
    match i.recognisable {
        Some(f) => Some(f),
        None => i.direct,
    }
}

pub open spec fn line_prefix(i: Identity) -> Seq<char> {
    if i.mind is None && i.via_shell {
        "a program started from a terminal: "@
    } else {
        Seq::empty()
    }
}

pub open spec fn line_tail(i: Identity, pid: int) -> Seq<char> {
    if i.mind is Some {
        " (pid "@ + text::dec_signed(pid) + ") \u{b7} the attached mind"@
    } else {
        " (pid "@ + text::dec_signed(pid) + ")"@
    }
}

/// How much of the label fits: at least a few characters, whatever else is on the line.
pub open spec fn room(used: nat) -> nat {
    if used + 8 >= LINE_CHARS {
        8
    } else {
        (LINE_CHARS - used) as nat
    }
}

/// The one line a card prints under the name the caller gave itself. The label is the only part
/// that may be cut.
pub open spec fn line_of(i: Identity) -> Seq<char> {
    match subject(i) {
        None => "could not be identified"@,
        Some(f) => {
            let prefix = line_prefix(i);
            let tail = line_tail(i, f.pid);
            prefix + text::clipped(label_of(f), room(prefix.len() + tail.len())) + tail
        },
    }
}

impl CallerIdentity {
    fn about(&self) -> (r: Option<&ProcessFacts>)
        ensures
            (r matches Some(f) ==> subject(self@) == Some(f@)),
            r is None ==> subject(self@) is None,
    {
        match &self.recognisable {
            Some(f) => Some(f),
            None => match &self.direct {
                Some(f) => Some(f),
                None => None,
            },
        }
    }

    /// The one line the card prints under the name the caller gave itself. Never empty and never
    /// a guess.
    pub fn line(&self) -> (r: String)
        ensures
            r@ == line_of(self@),
    {
        let found = match self.about() {
            Some(f) => f,
            None => {
                return "could not be identified".to_owned();
            },
        };
        let prefix = if self.attached_mind.is_none() && self.via_shell {
            "a program started from a terminal: ".to_owned()
        } else {
            String::new()
        };
        let mut tail = " (pid ".to_owned();
        tail.append(signed_decimal(found.pid as i64).as_str());
        if self.attached_mind.is_some() {
            tail.append(") \u{b7} the attached mind");
        } else {
            tail.append(")");
        }
        let p: usize = prefix.as_str().unicode_len();
        let t: usize = tail.as_str().unicode_len();
        proof {
            reveal_strlit("a program started from a terminal: ");
        }
        let room: usize = if t >= LINE_CHARS || p + t + 8 >= LINE_CHARS {
            8
        } else {
            LINE_CHARS - (p + t)
        };
        let mut out = prefix;
        out.append(clip(found.label().as_str(), room).as_str());
        out.append(tail.as_str());
        out
    }

    /// The executable the line is about.
    pub fn exe(&self) -> (r: String)
        ensures
            r@ == match subject(self@) {
                Some(f) => f.exe,
                None => Seq::empty(),
            },
    {
        match self.about() {
            Some(f) => f.exe.clone(),
            None => String::new(),
        }
    }

    /// The pid the line is about. `0` when nothing was established.
    pub fn pid(&self) -> (r: i32)
        ensures
            r == match subject(self@) {
                Some(f) => f.pid,
                None => 0,
            },
    {
        match self.about() {
            Some(f) => f.pid,
            None => 0,
        }
    }

    /// Nothing was knowable.
    pub fn unknown() -> (r: CallerIdentity)
        ensures
            r@ == identified(Seq::empty(), Seq::empty()),
    {
        let r = CallerIdentity {
            direct: None,
            recognisable: None,
            attached_mind: None,
            chain: Vec::new(),
            via_shell: false,
        };
        proof {
            assert(facts(r.chain@) =~= Seq::<Facts>::empty());
            seqs::lemma_first(Seq::<Facts>::empty(), ends_search());
        }
        r
    }
}

// ── The disagreement worth interrupting somebody for ────────────────

/// Whether a name claims to be a mind: its name, its name with a version behind it, or its id.
pub open spec fn claims(claimed: Seq<char>) -> spec_fn(Mind) -> bool {
    |m: Mind|
        {
            let name = text::lower(text::trim(m.name@));
            name.len() > 0 && (claimed == name || (name + " "@).is_prefix_of(claimed) || claimed
                == text::lower(text::trim(m.id@)))
        }
}

/// The sentence a borrowed name is called out with, or nothing.
pub open spec fn borrowed(claimed: Seq<char>, i: Identity, minds: Seq<Mind>) -> Seq<char> {
    let c = text::lower(text::trim(claimed));
    let k = seqs::first(minds, claims(c));
    if i.chain.len() == 0 || c.len() == 0 || k >= minds.len() || i.mind == Some(minds[k].name@) {
        Seq::empty()
    } else {
        text::clipped(
            "\u{201c}"@ + minds[k].name@ + "\u{201d} is attached here — this is not it."@,
            WARNING_CHARS as nat,
        )
    }
}

/// Does the name the caller gave itself claim to be a mind the ancestry does not support? Narrow
/// on purpose: it fires only when the name is a mind's that is attached here and the verified
/// ancestry belongs to something else.
pub fn mismatch(claimed: &str, identity: &CallerIdentity, minds: &[Mind]) -> (r: String)
    ensures
        r@ == borrowed(claimed@, identity@, minds@),
{
    if identity.chain.len() == 0 {
        return String::new();
    }
    let claimed_lower = lowered(trimmed(claimed).as_str());
    if claimed_lower.as_str().is_empty() {
        return String::new();
    }
    let ghost c = claimed_lower@;
    let mut i: usize = 0;
    while i < minds.len()
        invariant
            i <= minds@.len(),
            c == claimed_lower@,
            c == text::lower(text::trim(claimed@)),
            c.len() > 0,
            identity.chain@.len() > 0,
            seqs::first(minds@, claims(c)) == seqs::first_from(minds@, claims(c), i as int),
        decreases minds@.len() - i,
    {
        let name = lowered(trimmed(minds[i].name.as_str()).as_str());
        let mut versioned = name.clone();
        versioned.append(" ");
        let id = lowered(trimmed(minds[i].id.as_str()).as_str());
        if !name.as_str().is_empty() && (same(claimed_lower.as_str(), name.as_str()) || starts(
            claimed_lower.as_str(),
            versioned.as_str(),
        ) || same(claimed_lower.as_str(), id.as_str())) {
            let known = match &identity.attached_mind {
                Some(m) => same(m.as_str(), minds[i].name.as_str()),
                None => false,
            };
            if known {
                return String::new();
            }
            let mut said = "\u{201c}".to_owned();
            said.append(minds[i].name.as_str());
            said.append("\u{201d} is attached here — this is not it.");
            return clip(said.as_str(), WARNING_CHARS);
        }
        i += 1;
    }
    String::new()
}

// ── The text parsers ────────────────────────────────────────────────

/// What `/proc/<pid>/stat` says about lineage and age.
#[derive(Clone, Copy, Debug, PartialEq, Eq)]
pub struct StatFacts {
    pub ppid: i32,
    pub started: u64,
}

/// The fields of a stat line that follow the program's name. The name is in brackets and is not
/// escaped, so they start behind the last bracket, not the first.
pub open spec fn stat_fields(line: Seq<char>) -> Option<Seq<Seq<char>>> {
    let i = text::last_char(line, ')');
    if i < 0 {
        None
    } else {
        Some(text::words(line.skip(i + 1)))
    }
}

/// The parent and the start time: the second and the twentieth field behind the name.
pub open spec fn stat_in(line: Seq<char>) -> Option<(int, int)> {
    match stat_fields(line) {
        None => None,
        Some(f) => if f.len() <= 19 {
            None
        } else {
            match (text::signed_in(f[1]), text::unsigned_in(f[19])) {
                (Some(ppid), Some(started)) => Some((ppid, started)),
                _ => None,
            }
        },
    }
}

/// Parse `/proc/<pid>/stat`, from the last `)`.
pub fn parse_stat(stat: &str) -> (r: Option<StatFacts>)
    ensures
        (r matches Some(f) ==> stat_in(stat@) == Some((f.ppid as int, f.started as int))),
        r is None ==> stat_in(stat@) is None,
{
    let v = chars_of(stat);
    let i = after_last(v.as_slice(), ')');
    if i == 0 {
        return None;
    }
    let fields = words_of(rest(v.as_slice(), i).as_str());
    let ghost f = text::words(stat@.skip(i as int));
    assert(text::strs(fields@) == f);
    if fields.len() <= 19 {
        assert(f.len() == fields@.len());
        return None;
    }
    assert(text::strs(fields@)[1] == fields@[1]@);
    assert(text::strs(fields@)[19] == fields@[19]@);
    match (parse_i32(fields[1].as_str()), parse_u64(fields[19].as_str())) {
        (Some(ppid), Some(started)) => Some(StatFacts { ppid, started }),
        _ => None,
    }
}

/// The parent named in the lines from `i` on. A line that is no `key: value` ends the search.
pub open spec fn ppid_from(lines: Seq<Seq<char>>, i: int) -> Option<int>
    decreases lines.len() - i,
{
    if i < 0 || i >= lines.len() {
        None
    } else {
        let line = lines[i];
        let k = text::next_char(line, ':', 0);
        if k >= line.len() {
            None
        } else if text::trim(line.take(k)) == "PPid"@ {
            text::signed_in(text::trim(line.skip(k + 1)))
        } else {
            ppid_from(lines, i + 1)
        }
    }
}

/// Parse `PPid` out of `/proc/<pid>/status`.
pub fn parse_ppid(status: &str) -> (r: Option<i32>)
    ensures
        (r matches Some(n) ==> ppid_from(text::lines(status@), 0) == Some(n as int)),
        r is None ==> ppid_from(text::lines(status@), 0) is None,
{
    let all = lines_of(status);
    let ghost ls = text::lines(status@);
    let mut i: usize = 0;
    while i < all.len()
        invariant
            i <= all@.len(),
            text::strs(all@) == ls,
            ppid_from(ls, 0) == ppid_from(ls, i as int),
            ls == text::lines(status@),
        decreases all@.len() - i,
    {
        let v = chars_of(all[i].as_str());
        assert(v@ == ls[i as int]) by {
            assert(text::strs(all@)[i as int] == all@[i as int]@);
        }
        let k = next_at(v.as_slice(), ':', 0);
        if k >= v.len() {
            return None;
        }
        let key = part(v.as_slice(), 0, k);
        assert(key@ =~= v@.take(k as int));
        if same(trimmed(key.as_str()).as_str(), "PPid") {
            return parse_i32(trimmed(rest(v.as_slice(), k + 1).as_str()).as_str());
        }
        i += 1;
    }
    None
}

/// The text `String::from_utf8_lossy` of std makes of bytes.
pub uninterp spec fn lossy(bytes: Seq<u8>) -> Seq<char>;

/// `String::from_utf8_lossy` of std: the text the bytes spell where they are valid UTF-8, and in
/// any case one that depends on the bytes alone.
#[verifier::external_body]
pub(crate) fn text_of_bytes(bytes: &[u8]) -> (r: String)
    ensures
        r@ == lossy(bytes@),
        vstd::utf8::valid_utf8(bytes@) ==> r@ == vstd::utf8::decode_utf8(bytes@),
{
    String::from_utf8_lossy(bytes).into_owned()
}

pub open spec fn not_empty() -> spec_fn(Seq<char>) -> bool {
    |t: Seq<char>| t.len() > 0
}

/// A word of a command line: an absolute path is cut to its last component.
pub open spec fn short_word(t: Seq<char>) -> Seq<char> {
    if t.len() > 1 && t[0] == '/' {
        base(t)
    } else {
        t
    }
}

pub open spec fn short_words(s: Seq<Seq<char>>) -> Seq<Seq<char>> {
    Seq::new(s.len(), |i: int| short_word(s[i]))
}

/// A command line whose words are separated by NULs, as one readable line.
pub open spec fn readable(raw: Seq<char>) -> Seq<char> {
    text::clipped(
        text::join(short_words(text::split(raw, '\0').filter(not_empty())), " "@),
        CMDLINE_CHARS as nat,
    )
}

/// A command line whose words are separated by NULs, as one readable line.
pub fn readable_cmdline(raw: &str) -> (r: String)
    ensures
        r@ == readable(raw@),
{
    let pieces = split_at_char(raw, '\0');
    let ghost all = text::split(raw@, '\0');
    let ghost f = not_empty();
    let mut words: Vec<String> = Vec::new();
    let mut i: usize = 0;
    proof {
        seqs::lemma_filter_none(all, f);
        assert(text::strs(words@) =~= short_words(all.take(0).filter(f)));
    }
    while i < pieces.len()
        invariant
            i <= pieces@.len(),
            text::strs(pieces@) == all,
            f == not_empty(),
            text::strs(words@) == short_words(all.take(i as int).filter(f)),
        decreases pieces@.len() - i,
    {
        let ghost kept = all.take(i as int).filter(f);
        let ghost was = text::strs(words@);
        let letters = chars_of(pieces[i].as_str());
        proof {
            assert(text::strs(pieces@)[i as int] == pieces@[i as int]@);
            seqs::lemma_filter_take(all, f, i as int);
        }
        if letters.len() > 0 {
            let word = if letters[0] == '/' && letters.len() > 1 {
                basename(pieces[i].as_str())
            } else {
                pieces[i].clone()
            };
            let ghost w = word@;
            words.push(word);
            proof {
                assert(text::strs(words@) =~= was.push(w));
                assert(short_words(kept.push(all[i as int])) =~= short_words(kept).push(w));
            }
        }
        i += 1;
    }
    assert(all.take(i as int) =~= all);
    clip(joined(words.as_slice(), " ").as_str(), CMDLINE_CHARS)
}

/// Turn a NUL-separated `/proc/<pid>/cmdline` into one readable line, bounded to one card line.
pub fn parse_cmdline(raw: &[u8]) -> (r: String)
    ensures
        r@ == readable(lossy(raw@)),
        vstd::utf8::valid_utf8(raw@) ==> r@ == readable(vstd::utf8::decode_utf8(raw@)),
{
    readable_cmdline(text_of_bytes(raw).as_str())
}

// ── The walk up the process tree ────────────────────────────────────

/// A process's facts out of what its files said, or nothing where it moved underneath the read:
/// the stat file is read before and after the others, and if the start time changed, the rest
/// belongs to a different process than the parent pointer.
pub fn settled_facts(pid: i32, before: &str, exe: &str, cmdline: &[u8], after: &str) -> (r: Option<
    (ProcessFacts, i32),
>)
    ensures
        match (stat_in(before@), stat_in(after@)) {
            (Some(b), Some(a)) => if b.1 != a.1 {
                r is None
            } else {
                r matches Some(f) && f.0@ == (Facts {
                    pid: pid as int,
                    exe: exe@,
                    cmdline: readable(lossy(cmdline@)),
                    started: b.1,
                }) && f.1 == b.0
            },
            _ => r is None,
        },
{
    match (parse_stat(before), parse_stat(after)) {
        (Some(b), Some(a)) => {
            if b.started != a.started {
                return None;
            }
            Some(
                (
                    ProcessFacts {
                        pid,
                        exe: exe.to_owned(),
                        short_cmdline: parse_cmdline(cmdline),
                        started: b.started,
                    },
                    b.ppid,
                ),
            )
        },
        _ => None,
    }
}

/// A walk up from a process, deepest first: it says which process to look at next, and is told
/// what was seen there.
pub struct Walk {
    chain: Vec<ProcessFacts>,
    seen: Vec<i32>,
    at: i32,
    over: bool,
}

/// Where a [`Walk`] has got to.
pub struct Walked {
    pub chain: Seq<Facts>,
    pub seen: Seq<int>,
    pub at: int,
    pub over: bool,
}

pub closed spec fn pids(s: Seq<i32>) -> Seq<int> {
    Seq::new(s.len(), |i: int| s[i] as int)
}

impl View for Walk {
    type V = Walked;

    closed spec fn view(&self) -> Walked {
        Walked {
            chain: facts(self.chain@),
            seen: pids(self.seen@),
            at: self.at as int,
            over: self.over,
        }
    }
}

/// The process to look at next: none once the walk is over, as long as it may get, or back where
/// it has been.
pub open spec fn next_of(w: Walked) -> Option<int> {
    if !w.over && w.chain.len() < MAX_ANCESTORS && w.at > 0 && !w.seen.contains(w.at) {
        Some(w.at)
    } else {
        None
    }
}

/// The walk after what was seen at the process it asked for.
pub open spec fn stepped(w: Walked, saw: Option<(Facts, int)>) -> Walked {
    let seen = w.seen.push(w.at);
    match saw {
        None => Walked { seen, over: true, ..w },
        Some((f, parent)) => Walked {
            chain: w.chain.push(f),
            seen,
            at: parent,
            over: is_root(f),
        },
    }
}

/// What holds of every walk: it is bounded, and no process is in it twice.
pub open spec fn walks_on(w: Walked) -> bool {
    &&& w.chain.len() <= MAX_ANCESTORS
    &&& forall|i: int| 0 <= i < w.chain.len() ==> w.seen.contains((#[trigger] w.chain[i]).pid)
    &&& forall|i: int, j: int|
        0 <= i < j < w.chain.len() ==> (#[trigger] w.chain[i]).pid != (#[trigger] w.chain[j]).pid
}

impl Walk {
    pub fn new(pid: i32) -> (r: Walk)
        ensures
            r@ == (Walked { chain: Seq::empty(), seen: Seq::empty(), at: pid as int, over: false }),
            walks_on(r@),
    {
        let r = Walk { chain: Vec::new(), seen: Vec::new(), at: pid, over: false };
        assert(facts(r.chain@) =~= Seq::<Facts>::empty());
        assert(pids(r.seen@) =~= Seq::<int>::empty());
        r
    }

    /// The process to look at next, or `None` when the walk is done.
    pub fn next(&self) -> (r: Option<i32>)
        ensures
            (r matches Some(pid) ==> next_of(self@) == Some(pid as int)),
            r is None ==> next_of(self@) is None,
    {
        if self.over || self.chain.len() >= MAX_ANCESTORS || self.at <= 0 {
            return None;
        }
        let mut i: usize = 0;
        while i < self.seen.len()
            invariant
                i <= self.seen@.len(),
                forall|k: int| 0 <= k < i ==> #[trigger] self@.seen[k] != self@.at,
            decreases self.seen@.len() - i,
        {
            assert(self@.seen[i as int] == self.seen@[i as int]);
            if self.seen[i] == self.at {
                return None;
            }
            i += 1;
        }
        Some(self.at)
    }

    /// Takes in what was seen at the process the walk asked for, with its parent. `None` where it
    /// could not be read.
    pub fn saw(&mut self, saw: Option<(ProcessFacts, i32)>)
        requires
            walks_on(old(self)@),
            next_of(old(self)@) is Some,
            saw matches Some(s) ==> s.0@.pid == next_of(old(self)@)->0,
        ensures
            walks_on(final(self)@),
            final(self)@ == stepped(
                old(self)@,
                match saw {
                    Some(s) => Some((s.0@, s.1 as int)),
                    None => None,
                },
            ),
    {
        let ghost was = self@;
        self.seen.push(self.at);
        assert(pids(self.seen@) =~= was.seen.push(was.at));
        match saw {
            None => {
                self.over = true;
                assert(self@.chain =~= was.chain);
            },
            Some((f, parent)) => {
                let ghost g = f@;
                self.over = root(&f);
                self.chain.push(f);
                self.at = parent;
                assert(self@.chain =~= was.chain.push(g));
            },
        }
        proof {
            let now = self@;
            assert(now.seen == was.seen.push(was.at));
            assert(now.seen[was.seen.len() as int] == was.at);
            assert forall|i: int| 0 <= i < now.chain.len() implies now.seen.contains(
                (#[trigger] now.chain[i]).pid,
            ) by {
                if i < was.chain.len() {
                    assert(was.seen.contains(was.chain[i].pid));
                    let k = choose|k: int|
                        0 <= k < was.seen.len() && was.seen[k] == was.chain[i].pid;
                    assert(now.seen[k] == now.chain[i].pid);
                }
            }
            assert forall|i: int, j: int| 0 <= i < j < now.chain.len() implies (
            #[trigger] now.chain[i]).pid != (#[trigger] now.chain[j]).pid by {
                if j == was.chain.len() {
                    assert(was.seen.contains(was.chain[i].pid));
                }
            }
        }
    }

    /// The processes walked, deepest first.
    pub fn into_chain(self) -> (r: Vec<ProcessFacts>)
        ensures
            facts(r@) == self@.chain,
    {
        self.chain
    }
}

/// Everything knowable about the process that opened the socket, once it was walked up from.
pub fn resolve_with(walk: Walk, minds: &[Mind]) -> (r: CallerIdentity)
    ensures
        r@ == identified(walk@.chain, minds@),
{
    identify(walk.into_chain(), minds)
}

// ── Laws ────────────────────────────────────────────────────────────

/// A walk ends: every step either ends it or makes what may still be walked one shorter, so it
/// takes no more steps than there may be ancestors.
pub proof fn law_a_walk_is_bounded(w: Walked, saw: Option<(Facts, int)>)
    requires
        walks_on(w),
        next_of(w) is Some,
    ensures
        stepped(w, saw).over || stepped(w, saw).chain.len() == w.chain.len() + 1,
        stepped(w, saw).chain.len() <= MAX_ANCESTORS,
{
}

/// Neither our own plumbing, nor a bare shell, nor the session manager is ever what a card names
/// as recognisable.
pub proof fn law_plumbing_is_never_named(chain: Seq<Facts>, minds: Seq<Mind>)
    requires
        identified(chain, minds).recognisable is Some,
    ensures
        ({
            let f = identified(chain, minds).recognisable->0;
            &&& chain.contains(f)
            &&& !is_bridge(f)
            &&& !is_bare_shell(f)
            &&& !is_root(f)
        }),
{
    seqs::lemma_first(chain, ends_search());
    let k = seqs::first(chain, ends_search());
    assert(ends_search()(chain[k]));
    assert(chain[k] == identified(chain, minds).recognisable->0);
}

/// Our own bridge and the desktop's own programs are no evidence about a mind: a chain made of
/// them belongs to none.
pub proof fn law_our_own_programs_name_no_mind(chain: Seq<Facts>, minds: Seq<Mind>)
    requires
        forall|i: int|
            0 <= i < chain.len() ==> is_bridge(#[trigger] chain[i]) || is_desktop(chain[i]),
    ensures
        mind_of(chain, minds) is None,
{
    seqs::lemma_first(chain, tells(minds));
    let k = seqs::first(chain, tells(minds));
    if k < chain.len() {
        assert(tells(minds)(chain[k]));
    }
}

/// Nothing known is not a disagreement, and an ancestry that belongs to the mind that is named is
/// none either.
pub proof fn law_only_a_borrowed_name_is_called_out(
    claimed: Seq<char>,
    i: Identity,
    minds: Seq<Mind>,
)
    requires
        borrowed(claimed, i, minds).len() > 0,
    ensures
        i.chain.len() > 0,
        exists|k: int|
            0 <= k < minds.len() && #[trigger] claims(text::lower(text::trim(claimed)))(minds[k])
                && i.mind != Some(minds[k].name@),
{
    let c = text::lower(text::trim(claimed));
    seqs::lemma_first(minds, claims(c));
    let k = seqs::first(minds, claims(c));
    assert(claims(c)(minds[k]));
}

/// The warning is one bounded line.
pub proof fn law_the_warning_is_bounded(claimed: Seq<char>, i: Identity, minds: Seq<Mind>)
    ensures
        borrowed(claimed, i, minds).len() <= WARNING_CHARS + 1,
{
    let c = text::lower(text::trim(claimed));
    let k = seqs::first(minds, claims(c));
    text::lemma_clipped_len(
        "\u{201c}"@ + minds[k].name@ + "\u{201d} is attached here — this is not it."@,
        WARNING_CHARS as nat,
    );
}

/// A command line on a card is bounded.
pub proof fn law_a_command_line_is_bounded(raw: Seq<char>)
    ensures
        readable(raw).len() <= CMDLINE_CHARS + 1,
{
    text::lemma_clipped_len(
        text::join(short_words(text::split(raw, '\0').filter(not_empty())), " "@),
        CMDLINE_CHARS as nat,
    );
}

/// The line under a caller's name is never empty.
pub proof fn law_the_line_is_never_empty(i: Identity)
    ensures
        line_of(i).len() > 0,
{
    reveal_strlit("could not be identified");
    reveal_strlit(" (pid ");
}

// ── Who is who ──────────────────────────────────────────────────────

/// The name of a program is what stands behind the last separator of its path.
pub proof fn law_a_program_goes_by_its_own_name(folder: Seq<char>, name: Seq<char>)
    requires
        !name.contains('/'),
    ensures
        base(folder.push('/') + name) == name,
        base(name) == name,
{
    text::law_the_last_is_the_last(folder, '/', name);
    assert((folder.push('/') + name).skip(folder.len() + 1int) =~= name);
    assert(name.skip(0) =~= name);
}

/// Our own bridge is known wherever it is installed: as the program itself, as the first word of
/// the command line, or as the script that another program runs.
pub proof fn law_the_bridge_is_known(f: Facts, folder: Seq<char>, name: Seq<char>, i: int)
    requires
        name == "yos"@ || name == "yos-mcp"@,
    ensures
        f.exe == folder.push('/') + name ==> is_bridge(f),
        0 <= i < 2 && i < text::words(f.cmdline).len() && text::words(f.cmdline)[i] == folder.push(
            '/',
        ) + name ==> is_bridge(f),
        0 <= i < 2 && i < text::words(f.cmdline).len() && text::words(f.cmdline)[i] == name
            ==> is_bridge(f),
{
    reveal_strlit("yos");
    reveal_strlit("yos-mcp");
    assert(!"yos"@.contains('/') && !"yos-mcp"@.contains('/'));
    law_a_program_goes_by_its_own_name(folder, name);
}

/// Programs that neither are the bridge nor run it are not it.
pub proof fn law_only_the_bridge_is_the_bridge(f: Facts)
    requires
        base(f.exe) != "yos"@ && base(f.exe) != "yos-mcp"@,
        forall|i: int|
            0 <= i < 2 && i < text::words(f.cmdline).len() ==> base(
                #[trigger] text::words(f.cmdline)[i],
            ) != "yos"@ && base(text::words(f.cmdline)[i]) != "yos-mcp"@,
    ensures
        !is_bridge(f),
{
}

/// The shells that are plumbing where they run nothing of their own.
pub open spec fn shells() -> Seq<Seq<char>> {
    seq!["sh"@, "bash"@, "dash"@, "zsh"@, "ksh"@, "fish"@, "busybox"@, "ash"@]
}

/// A shell is bare where it was given nothing, a command to run, or options alone. A shell that
/// runs a script is not: the script is what a person would recognise.
pub proof fn law_a_shell_with_a_script_is_somebody(f: Facts, s: int)
    requires
        0 <= s < shells().len(),
        base(f.exe) == shells()[s],
    ensures
        ({
            let w = text::words(f.cmdline);
            &&& w.len() <= 1 ==> is_bare_shell(f)
            &&& w.len() > 1 && w[1] == "-c"@ ==> is_bare_shell(f)
            &&& (forall|i: int|
                1 <= i < w.len() ==> (#[trigger] w[i]).len() > 0 && w[i][0] == '-')
                ==> is_bare_shell(f)
            &&& w.len() > 1 && w[1].len() > 0 && w[1][0] != '-' ==> !is_bare_shell(f)
            &&& w.len() > 2 && w[1] != "-c"@ && w[2].len() > 0 && w[2][0] != '-'
                ==> !is_bare_shell(f)
        }),
{
    reveal_strlit("-c");
    let w = text::words(f.cmdline);
    if w.len() > 1 && w[1].len() > 0 && w[1][0] != '-' {
        assert("-c"@[0] == '-');
    }
}

/// What is no shell is never a bare one.
pub proof fn law_only_shells_are_bare(f: Facts)
    requires
        !shells().contains(base(f.exe)),
        !shells().contains(base(text::without_leading(first_word(f.cmdline), '-'))),
    ensures
        !is_bare_shell(f),
{
    let a = base(f.exe);
    let b = base(text::without_leading(first_word(f.cmdline), '-'));
    if shell_name(a) {
        assert(exists|i: int| 0 <= i < 8 && #[trigger] shells()[i] == a) by {
            assert(shells()[0] == "sh"@ && shells()[1] == "bash"@ && shells()[2] == "dash"@
                && shells()[3] == "zsh"@ && shells()[4] == "ksh"@ && shells()[5] == "fish"@
                && shells()[6] == "busybox"@ && shells()[7] == "ash"@);
        }
    }
    if shell_name(b) {
        assert(exists|i: int| 0 <= i < 8 && #[trigger] shells()[i] == b) by {
            assert(shells()[0] == "sh"@ && shells()[1] == "bash"@ && shells()[2] == "dash"@
                && shells()[3] == "zsh"@ && shells()[4] == "ksh"@ && shells()[5] == "fish"@
                && shells()[6] == "busybox"@ && shells()[7] == "ash"@);
        }
    }
}

/// The session is where every chain ends: the first process, the session manager under either of
/// its names, and nothing else.
pub proof fn law_where_a_chain_ends(f: Facts)
    ensures
        is_root(f) <==> {
            ||| f.pid <= 1
            ||| base(f.exe) == "systemd"@
            ||| base(f.exe) == "init"@
            ||| base(first_word(f.cmdline)) == "systemd"@
            ||| base(first_word(f.cmdline)) == "init"@
        },
{
}

/// The caller is whoever stands first behind the plumbing: past our own bridge and past bare
/// shells, and no further than the session. Whether a shell was passed on the way is remembered.
pub proof fn law_the_caller_stands_behind_the_plumbing(
    chain: Seq<Facts>,
    minds: Seq<Mind>,
    k: int,
)
    requires
        0 <= k <= chain.len(),
        forall|i: int|
            0 <= i < k ==> !is_root(#[trigger] chain[i]) && (is_bridge(chain[i]) || is_bare_shell(
                chain[i],
            )),
        k < chain.len() ==> is_root(chain[k]) || !is_bridge(chain[k]) && !is_bare_shell(chain[k]),
    ensures
        ({
            let who = identified(chain, minds);
            &&& chain.len() > 0 ==> who.direct == Some(chain[0])
            &&& chain.len() == 0 ==> who.direct is None
            &&& k < chain.len() && !is_root(chain[k]) ==> who.recognisable == Some(chain[k])
            &&& k == chain.len() || is_root(chain[k]) ==> who.recognisable is None
            &&& who.via_shell <==> exists|i: int|
                0 <= i < k && is_bare_shell(#[trigger] chain[i]) && !is_bridge(chain[i])
            &&& who.chain == chain
        }),
{
    let f = ends_search();
    if k < chain.len() {
        seqs::lemma_first_is(chain, f, k);
    } else {
        seqs::lemma_first_none(chain, f);
    }
}

// ── Which mind ──────────────────────────────────────────────────────

proof fn lemma_run_add(a: Seq<char>, b: Seq<char>, from: int)
    requires
        0 <= from <= a.len(),
        forall|i: int| from <= i < a.len() ==> is_alnum(#[trigger] a[i]),
        b.len() == 0 || !is_alnum(b[0]),
    ensures
        run_end(a + b, from) == a.len(),
    decreases a.len() - from,
{
    let s = a + b;
    if from < a.len() {
        assert(s[from] == a[from]);
        lemma_run_add(a, b, from + 1);
    } else if b.len() > 0 {
        assert(s[from] == b[0]);
    }
}

/// A run of letters and digits is one of the runs of every text it stands in by itself.
proof fn lemma_run_stands(a: Seq<char>, token: Seq<char>, b: Seq<char>)
    requires
        token.len() > 0,
        forall|i: int| 0 <= i < token.len() ==> is_alnum(#[trigger] token[i]),
        a.len() == 0 || !is_alnum(a.last()),
        b.len() == 0 || !is_alnum(b[0]),
    ensures
        runs(a + token + b).contains(token),
    decreases a.len(),
{
    let s = a + token + b;
    if a.len() == 0 {
        assert(s =~= token + b);
        lemma_run_add(token, b, 0);
        assert(s[0] == token[0]);
        assert(s.take(token.len() as int) =~= token);
        assert(runs(s)[0] == token);
    } else {
        lemma_run_end(s, 0);
        assert(s[0] == a[0]);
        let e = if is_alnum(s[0]) {
            run_end(s, 0)
        } else {
            1
        };
        assert(e <= a.len()) by {
            if e > a.len() {
                let j = a.len() - 1;
                assert(is_alnum(s[j]));
                assert(s[j] == a.last());
            }
        }
        let rest = a.skip(e);
        assert(s.skip(e) =~= rest + token + b);
        assert(s.drop_first() =~= s.skip(1));
        if rest.len() > 0 {
            assert(rest.last() == a.last());
        }
        lemma_run_stands(rest, token, b);
        let more = runs(s.skip(e));
        let k = choose|k: int| 0 <= k < more.len() && more[k] == token;
        if is_alnum(s[0]) {
            assert(runs(s)[k + 1] == token);
        } else {
            assert(runs(s)[k] == token);
        }
    }
}

/// A mind is known by any word of four letters or more in its name or its id: a process of somebody
/// else's whose program or command line has that word in it, in any letter case, is that mind's.
pub proof fn law_a_mind_is_known_by_its_words(
    f: Facts,
    m: Mind,
    a: Seq<char>,
    token: Seq<char>,
    b: Seq<char>,
)
    requires
        text::lower(m.name@) == a + token + b || text::lower(m.id@) == a + token + b,
        token.len() >= 4,
        forall|i: int| 0 <= i < token.len() ==> is_alnum(#[trigger] token[i]),
        a.len() == 0 || !is_alnum(a.last()),
        b.len() == 0 || !is_alnum(b[0]),
        text::contains(text::lower(f.exe), token) || text::contains(text::lower(f.cmdline), token),
        !is_bridge(f),
        !is_desktop(f),
    ensures
        mind_of(seq![f], seq![m]) == Some(m.name@),
        bears(f)(m),
{
    let name = a + token + b;
    lemma_run_stands(a, token, b);
    assert(distinctive()(token));
    seqs::lemma_filter_from(runs(name), distinctive());
    let found = runs(name).filter(distinctive());
    let k = choose|k: int| 0 <= k < found.len() && found[k] == token;
    let hay = haystack(f);
    let x = text::lower(f.exe);
    let y = text::lower(f.cmdline);
    let gap = " "@;
    reveal_strlit(" ");
    assert(hay =~= x + text::lower(gap) + y);
    let n = token.len() as int;
    if text::contains(x, token) {
        let i = choose|i: int| text::at(x, i, token);
        assert(hay.subrange(i, i + n) =~= x.subrange(i, i + n));
        assert(text::at(hay, i, token));
    } else {
        let i = choose|i: int| text::at(y, i, token);
        let j = x.len() + 1 + i;
        assert(hay.subrange(j, j + n) =~= y.subrange(i, i + n));
        assert(text::at(hay, j, token));
    }
    assert(text::contains(hay, found[k]));
    assert(bears(f)(m));
    let minds = seq![m];
    let chain = seq![f];
    assert(bears(f)(minds[0]));
    seqs::lemma_first_is(minds, bears(f), 0);
    assert(tells(minds)(chain[0]));
    seqs::lemma_first_is(chain, tells(minds), 0);
}

/// The nearest process that tells says which mind it is, and the first mind that it bears the name
/// of is the one.
pub proof fn law_the_nearest_process_tells(
    chain: Seq<Facts>,
    minds: Seq<Mind>,
    i: int,
    k: int,
)
    requires
        0 <= i < chain.len(),
        0 <= k < minds.len(),
        !is_bridge(chain[i]) && !is_desktop(chain[i]),
        bears(chain[i])(minds[k]),
        forall|j: int| 0 <= j < k ==> !bears(chain[i])(#[trigger] minds[j]),
        forall|j: int|
            0 <= j < i ==> is_bridge(#[trigger] chain[j]) || is_desktop(chain[j]) || forall|m: int|
                0 <= m < minds.len() ==> !bears(chain[j])(#[trigger] minds[m]),
    ensures
        mind_of(chain, minds) == Some(minds[k].name@),
{
    seqs::lemma_first_is(minds, bears(chain[i]), k);
    assert forall|j: int| 0 <= j < i implies !tells(minds)(#[trigger] chain[j]) by {
        if !is_bridge(chain[j]) && !is_desktop(chain[j]) {
            seqs::lemma_first_none(minds, bears(chain[j]));
        }
    }
    seqs::lemma_first_is(chain, tells(minds), i);
}

/// What the desktop itself runs is known by where it is installed or by how it is named.
pub proof fn law_the_desktops_own_programs(f: Facts, rest: Seq<char>)
    ensures
        f.exe == "/opt/yantrik/bin/"@ + rest ==> is_desktop(f),
        base(f.exe) == "yantrik-"@ + rest ==> is_desktop(f),
{
    let (p, q) = ("/opt/yantrik/bin/"@, "yantrik-"@);
    assert(p =~= (p + rest).subrange(0, p.len() as int));
    assert(q =~= (q + rest).subrange(0, q.len() as int));
}

// ── What is said ────────────────────────────────────────────────────

/// A caller is called by its command line, or by its program where it has none, or by its number
/// where nothing else is known.
pub proof fn law_what_a_caller_is_called(f: Facts)
    ensures
        f.cmdline.len() > 0 ==> label_of(f) == f.cmdline,
        f.cmdline.len() == 0 && f.exe.len() > 0 ==> label_of(f) == base(f.exe),
        f.cmdline.len() == 0 && f.exe.len() == 0 ==> label_of(f) == "pid "@ + text::dec_signed(
            f.pid,
        ),
{
}

/// The line names the caller that was recognised, or else whoever called, with its number; it says
/// that it is the attached mind where it is, and that it came from a terminal where no mind is
/// known. Only the name is ever cut, so that the line has sixty-six characters at most, or eight of
/// the name where there is less room than that.
pub proof fn law_what_the_line_says(i: Identity, f: Facts)
    requires
        i.recognisable == Some(f) || i.recognisable is None && i.direct == Some(f),
    ensures
        ({
            let head = if i.mind is None && i.via_shell {
                "a program started from a terminal: "@
            } else {
                Seq::empty()
            };
            let tail = if i.mind is Some {
                " (pid "@ + text::dec_signed(f.pid) + ") \u{b7} the attached mind"@
            } else {
                " (pid "@ + text::dec_signed(f.pid) + ")"@
            };
            let used = head.len() + tail.len();
            &&& used + label_of(f).len() <= 66 ==> line_of(i) == head + label_of(f) + tail
            &&& label_of(f).len() <= 8 ==> line_of(i) == head + label_of(f) + tail
            &&& used <= 58 && used + label_of(f).len() > 66 ==> line_of(i) == head + label_of(
                f,
            ).take(66 - used).push('\u{2026}') + tail
        }),
        i.recognisable is None && i.direct is None ==> line_of(i) == "could not be identified"@,
{
    let used = line_prefix(i).len() + line_tail(i, f.pid).len();
    text::law_only_what_is_too_long_is_cut(label_of(f), room(used));
}

/// A borrowed name is called out: whoever claims to be an attached mind, by its name in any letter
/// case, by its name and more, or by its id, and is known not to be it.
pub proof fn law_a_borrowed_name_is_called_out(
    claimed: Seq<char>,
    i: Identity,
    minds: Seq<Mind>,
    k: int,
    more: Seq<char>,
)
    requires
        i.chain.len() > 0,
        0 <= k < minds.len(),
        ({
            let c = text::lower(text::trim(claimed));
            let name = text::lower(text::trim(minds[k].name@));
            &&& name.len() > 0
            &&& c.len() > 0
            &&& c == name || c == name + " "@ + more || c == text::lower(text::trim(minds[k].id@))
            &&& forall|j: int| 0 <= j < k ==> !claims(c)(#[trigger] minds[j])
        }),
        minds[k].name@.len() <= 20,
    ensures
        i.mind != Some(minds[k].name@) ==> borrowed(claimed, i, minds) == "\u{201c}"@
            + minds[k].name@ + "\u{201d} is attached here — this is not it."@,
        i.mind == Some(minds[k].name@) ==> borrowed(claimed, i, minds).len() == 0,
{
    let c = text::lower(text::trim(claimed));
    let name = text::lower(text::trim(minds[k].name@));
    let start = name + " "@;
    if c == name + " "@ + more {
        assert(start =~= c.subrange(0, start.len() as int));
    }
    assert(claims(c)(minds[k]));
    seqs::lemma_first_is(minds, claims(c), k);
    reveal_strlit("\u{201c}");
    reveal_strlit("\u{201d} is attached here — this is not it.");
}

// ── What is read of a process ───────────────────────────────────────

/// The fields of a process are those behind the last bracket of its line, whatever its own name has
/// in it: the second is its parent and the twentieth when it started.
pub proof fn law_a_name_cannot_hide_the_parent(name: Seq<char>, rest: Seq<char>, ppid: int, started: int)
    requires
        !rest.contains(')'),
        text::words(rest).len() >= 20,
        text::signed_in(text::words(rest)[1]) == Some(ppid),
        text::unsigned_in(text::words(rest)[19]) == Some(started),
    ensures
        stat_in(name.push(')') + rest) == Some((ppid, started)),
{
    text::law_the_last_is_the_last(name, ')', rest);
    assert((name.push(')') + rest).skip(name.len() + 1int) =~= rest);
}

/// The parent is on the line that is called so, the first of that name, behind lines that each have
/// a name of their own.
pub proof fn law_the_parent_is_on_its_line(lines: Seq<Seq<char>>, i: int, k: int, value: Seq<char>)
    requires
        0 <= k <= i < lines.len(),
        lines[i] == "PPid:"@ + value,
        forall|j: int|
            k <= j < i ==> (#[trigger] lines[j]).contains(':') && text::trim(
                lines[j].take(text::next_char(lines[j], ':', 0)),
            ) != "PPid"@,
    ensures
        ppid_from(lines, k) == text::signed_in(text::trim(value)),
    decreases i - k,
{
    let line = lines[k];
    text::lemma_next_char(line, ':', 0);
    let at = text::next_char(line, ':', 0);
    if k < i {
        let c = choose|c: int| 0 <= c < line.len() && line[c] == ':';
        assert(at <= c);
        law_the_parent_is_on_its_line(lines, i, k + 1, value);
    } else {
        reveal_strlit("PPid:");
        reveal_strlit("PPid");
        assert(line[4] == ':' && line[0] == 'P' && line[1] == 'P' && line[2] == 'i' && line[3]
            == 'd');
        assert(at == 4);
        assert(line.take(4) =~= "PPid"@);
        text::law_what_is_white('P');
        text::law_what_is_white('d');
        text::lemma_neat("PPid"@);
        assert(line.skip(5) =~= value);
    }
}

/// A command line reads as its words with a blank between them, the path of a program cut down to
/// its name, and the whole cut at seventy-two characters.
pub proof fn law_how_a_command_line_reads(args: Seq<Seq<char>>)
    requires
        args.len() > 0,
        forall|i: int|
            0 <= i < args.len() ==> (#[trigger] args[i]).len() > 0 && !args[i].contains('\0'),
    ensures
        ({
            let shorts = Seq::new(
                args.len(),
                |i: int|
                    if args[i].len() > 1 && args[i][0] == '/' {
                        base(args[i])
                    } else {
                        args[i]
                    },
            );
            let whole = text::join(shorts, " "@);
            let said = readable(text::join(args, seq!['\0']));
            &&& whole.len() <= 72 ==> said == whole
            &&& whole.len() > 72 ==> said == whole.take(72).push('\u{2026}')
        }),
{
    let raw = text::join(args, seq!['\0']);
    text::law_what_is_joined_can_be_split(args, '\0');
    let f = not_empty();
    lemma_all_stay(args);
    let shorts = Seq::new(
        args.len(),
        |i: int|
            if args[i].len() > 1 && args[i][0] == '/' {
                base(args[i])
            } else {
                args[i]
            },
    );
    assert(short_words(args) =~= shorts);
    text::law_only_what_is_too_long_is_cut(text::join(shorts, " "@), 72);
}

proof fn lemma_all_stay(s: Seq<Seq<char>>)
    requires
        forall|i: int| 0 <= i < s.len() ==> (#[trigger] s[i]).len() > 0,
    ensures
        s.filter(not_empty()) == s,
    decreases s.len(),
{
    reveal(Seq::filter);
    if s.len() > 0 {
        let t = s.drop_last();
        assert forall|i: int| 0 <= i < t.len() implies (#[trigger] t[i]).len() > 0 by {
            assert(s[i].len() > 0);
        }
        lemma_all_stay(t);
        assert(s[s.len() - 1].len() > 0);
        assert(s =~= t.push(s.last()));
    }
}

/// A walk goes to the parent of the process it saw, eight processes up at most, and stops at the
/// session, at a process it has seen, where there is no parent, and where nothing was to be seen.
pub proof fn law_where_a_walk_goes(w: Walked, f: Facts, parent: int)
    ensures
        ({
            let up = stepped(w, Some((f, parent)));
            &&& up.chain == w.chain.push(f)
            &&& next_of(up) == if !is_root(f) && up.chain.len() < 8 && parent > 0 && parent != w.at
                && !w.seen.contains(parent) {
                Some(parent)
            } else {
                None
            }
            &&& next_of(stepped(w, None)) is None
            &&& stepped(w, None).chain == w.chain
        }),
{
    let seen = w.seen.push(w.at);
    assert(seen[w.seen.len() as int] == w.at);
    if w.seen.contains(parent) {
        let k = choose|k: int| 0 <= k < w.seen.len() && w.seen[k] == parent;
        assert(seen[k] == parent);
    }
    if seen.contains(parent) && parent != w.at {
        let k = choose|k: int| 0 <= k < seen.len() && seen[k] == parent;
        assert(w.seen[k] == parent);
    }
}

/// What was read of a process counts only where it was the same process before and after: one that
/// started at another time is another.
pub proof fn law_a_process_that_moved_is_not_read(
    pid: i32,
    before: &str,
    exe: &str,
    cmdline: &[u8],
    after: &str,
    r: Option<(ProcessFacts, i32)>,
)
    requires
        call_ensures(settled_facts, (pid, before, exe, cmdline, after), r),
    ensures
        r is Some <==> stat_in(before@) is Some && stat_in(after@) is Some && (stat_in(before@)->0).1
            == (stat_in(after@)->0).1,
        r matches Some(f) ==> f.0.pid == pid && f.0.exe@ == exe@ && f.0.short_cmdline@ == readable(
            lossy(cmdline@),
        ) && f.0.started == (stat_in(before@)->0).1 && f.1 == (stat_in(before@)->0).0,
{
}

} // verus!
