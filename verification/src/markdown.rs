//! Block-level markdown for chat messages.
//!
//! An answer becomes a flat list of blocks: code fences, headings, lists, tool calls as the trail
//! writes them, and paragraphs. Each block carries its text twice: plain, with the inline markers
//! taken out, and as the markdown it was written in.
use crate::text;
use crate::text::{
    chars_of, find_in, is_blank, lines_of, part, rest, same, starts, string_of, trim_end_of,
    trim_start_of, trimmed,
};
use crate::trail::{self, Call, ToolCall};
use vstd::prelude::*;

verus! {

// ── Inline markers ──────────────────────────────────────────────────

/// `s` with every pair of `mark`s taken out and what stood between them kept. A pair with nothing
/// between it ends the search where `empty` does not allow it.
pub open spec fn unpaired(s: Seq<char>, mark: Seq<char>, empty: bool) -> Seq<char>
    decreases s.len(),
{
    match text::find(s, mark, 0) {
        None => s,
        Some(i) => match text::find(s, mark, i + mark.len()) {
            None => s,
            Some(j) => if mark.len() == 0 || i < 0 || j < i + mark.len() || j + mark.len()
                > s.len() || (!empty && j == i + mark.len()) {
                s
            } else {
                unpaired(
                    s.take(i) + s.subrange(i + mark.len(), j) + s.skip(j + mark.len()),
                    mark,
                    empty,
                )
            },
        },
    }
}

/// The text with its `**bold**`, `*italic*` and `` `code` `` markers taken out.
pub open spec fn plain(s: Seq<char>) -> Seq<char> {
    unpaired(unpaired(unpaired(s, "**"@, true), "*"@, false), "`"@, true)
}

fn take_pairs_out(text: &str, mark: &str, empty: bool) -> (r: String)
    requires
        mark@.len() > 0,
    ensures
        r@ == unpaired(text@, mark@, empty),
{
    let m = chars_of(mark);
    let k: usize = m.len();
    let mut v = chars_of(text);
    loop
        invariant
            m@ == mark@,
            k == m@.len(),
            k > 0,
            unpaired(text@, mark@, empty) == unpaired(v@, mark@, empty),
        decreases v@.len(),
    {
        let i: usize = match find_in(v.as_slice(), m.as_slice(), 0) {
            Some(i) => i,
            None => {
                return string_of(v.as_slice());
            },
        };
        let whole: usize = v.len();
        assert(i + k <= whole);
        let j: usize = match find_in(v.as_slice(), m.as_slice(), i + k) {
            Some(j) => j,
            None => {
                return string_of(v.as_slice());
            },
        };
        if !empty && j == i + k {
            return string_of(v.as_slice());
        }
        assert(j + k <= whole);
        let mut out = part(v.as_slice(), 0, i);
        out.append(part(v.as_slice(), i + k, j).as_str());
        out.append(rest(v.as_slice(), j + k).as_str());
        proof {
            assert(v@.subrange(0, i as int) =~= v@.take(i as int));
        }
        v = chars_of(out.as_str());
    }
}

/// The text with its inline markers taken out.
pub fn strip_inline(text: &str) -> (r: String)
    ensures
        r@ == plain(text@),
{
    proof {
        reveal_strlit("**");
        reveal_strlit("*");
        reveal_strlit("`");
    }
    let bold = take_pairs_out(text, "**", true);
    let italic = take_pairs_out(bold.as_str(), "*", false);
    take_pairs_out(italic.as_str(), "`", true)
}

// ── What a line is ──────────────────────────────────────────────────

/// What follows a heading's marks.
pub open spec fn heading_in(t: Seq<char>) -> Option<Seq<char>> {
    if "### "@.is_prefix_of(t) {
        Some(text::trim(t.skip(4)))
    } else if "## "@.is_prefix_of(t) {
        Some(text::trim(t.skip(3)))
    } else if "# "@.is_prefix_of(t) {
        Some(text::trim(t.skip(2)))
    } else {
        None
    }
}

/// What follows a bullet.
pub open spec fn bullet_in(t: Seq<char>) -> Option<Seq<char>> {
    if "- "@.is_prefix_of(t) || "* "@.is_prefix_of(t) || "\u{2022} "@.is_prefix_of(t) {
        Some(t.skip(2))
    } else {
        None
    }
}

pub open spec fn all_digits(s: Seq<char>) -> bool {
    forall|i: int| 0 <= i < s.len() ==> '0' <= #[trigger] s[i] <= '9'
}

/// The number of a numbered item, and what follows it.
pub open spec fn numbered_in(t: Seq<char>) -> Option<(Seq<char>, Seq<char>)> {
    match text::find(t, ". "@, 0) {
        Some(i) => if i <= 3 && all_digits(t.take(i)) {
            Some((t.take(i), t.skip(i + 2)))
        } else {
            None
        },
        None => None,
    }
}

fn strip_heading(line: &str) -> (r: Option<String>)
    ensures
        (r matches Some(t) ==> heading_in(line@) == Some(t@)),
        r is None ==> heading_in(line@) is None,
{
    proof {
        reveal_strlit("### ");
        reveal_strlit("## ");
        reveal_strlit("# ");
    }
    let v = chars_of(line);
    if starts(line, "### ") {
        Some(trimmed(rest(v.as_slice(), 4).as_str()))
    } else if starts(line, "## ") {
        Some(trimmed(rest(v.as_slice(), 3).as_str()))
    } else if starts(line, "# ") {
        Some(trimmed(rest(v.as_slice(), 2).as_str()))
    } else {
        None
    }
}

fn strip_bullet(line: &str) -> (r: Option<String>)
    ensures
        (r matches Some(t) ==> bullet_in(line@) == Some(t@)),
        r is None ==> bullet_in(line@) is None,
{
    proof {
        reveal_strlit("- ");
        reveal_strlit("* ");
        reveal_strlit("\u{2022} ");
    }
    let v = chars_of(line);
    if starts(line, "- ") || starts(line, "* ") || starts(line, "\u{2022} ") {
        Some(rest(v.as_slice(), 2))
    } else {
        None
    }
}

fn strip_numbered(line: &str) -> (r: Option<(String, String)>)
    ensures
        (r matches Some(t) ==> numbered_in(line@) == Some((t.0@, t.1@))),
        r is None ==> numbered_in(line@) is None,
{
    proof {
        reveal_strlit(". ");
    }
    let v = chars_of(line);
    let mark = chars_of(". ");
    let i: usize = match find_in(v.as_slice(), mark.as_slice(), 0) {
        Some(i) => i,
        None => {
            return None;
        },
    };
    if i > 3 {
        return None;
    }
    let mut k: usize = 0;
    while k < i
        invariant
            k <= i <= v@.len(),
            v@ == line@,
            text::find(line@, ". "@, 0) == Some(i as int),
            forall|j: int| 0 <= j < k ==> '0' <= #[trigger] v@[j] <= '9',
        decreases i - k,
    {
        if !('0' <= v[k] && v[k] <= '9') {
            proof {
                assert(line@.take(i as int)[k as int] == v@[k as int]);
            }
            return None;
        }
        k += 1;
    }
    let number = part(v.as_slice(), 0, i);
    assert(number@ =~= line@.take(i as int));
    Some((number, rest(v.as_slice(), i + 2)))
}

/// Whether a line opens or closes a code fence.
pub open spec fn is_fence(line: Seq<char>) -> bool {
    "```"@.is_prefix_of(text::trim_start(line))
}

pub fn opens_fence(line: &str) -> (r: bool)
    ensures
        r == is_fence(line@),
{
    starts(trim_start_of(line).as_str(), "```")
}

/// What a line is.
pub enum Line {
    Fence,
    /// Inside a fence.
    Verbatim,
    /// A tool call, and whether the next line went into it.
    Tool { call: Call, took: bool },
    Blank,
    Heading { text: Seq<char> },
    /// A list item, plain and as it was written.
    Item { text: Seq<char>, markdown: Seq<char> },
    Prose { text: Seq<char>, markdown: Seq<char> },
}

pub open spec fn line_is(line: Seq<char>, next: Option<Seq<char>>, fenced: bool) -> Line {
    let t = text::trim(line);
    if is_fence(line) {
        Line::Fence
    } else if fenced {
        Line::Verbatim
    } else if trail::call_on(line, next) is Some {
        Line::Tool { call: (trail::call_on(line, next)->0).0, took: (trail::call_on(line, next)->0).1 }
    } else if t.len() == 0 {
        Line::Blank
    } else if heading_in(t) is Some {
        Line::Heading { text: heading_in(t)->0 }
    } else if bullet_in(t) is Some {
        Line::Item {
            text: "\u{2022} "@ + plain(bullet_in(t)->0),
            markdown: "\u{2022} "@ + bullet_in(t)->0,
        }
    } else if numbered_in(t) is Some {
        Line::Item {
            text: (numbered_in(t)->0).0 + ". "@ + plain((numbered_in(t)->0).1),
            markdown: (numbered_in(t)->0).0 + ". "@ + (numbered_in(t)->0).1,
        }
    } else {
        Line::Prose { text: plain(t), markdown: t }
    }
}

// ── Blocks ──────────────────────────────────────────────────────────

/// A parsed content block.
#[derive(Debug, PartialEq)]
pub struct ParsedBlock {
    /// `text`, `code`, `heading`, `bullet` or `tool`.
    pub block_type: &'static str,
    /// The block as plain text, inline markers taken out.
    pub text: String,
    /// The same block with its inline markdown kept. A code block's and a tool block's is its
    /// text: nothing in either is markup.
    pub markdown: String,
    /// A `tool` block's call. `None` for every other kind of block.
    pub call: Option<ToolCall>,
}

/// What a [`ParsedBlock`] says.
pub struct Block {
    pub kind: Seq<char>,
    pub text: Seq<char>,
    pub markdown: Seq<char>,
    pub call: Option<Call>,
}

impl View for ParsedBlock {
    type V = Block;

    open spec fn view(&self) -> Block {
        Block {
            kind: self.block_type@,
            text: self.text@,
            markdown: self.markdown@,
            call: match self.call {
                Some(c) => Some(c@),
                None => None,
            },
        }
    }
}

pub open spec fn blocks(s: Seq<ParsedBlock>) -> Seq<Block> {
    Seq::new(s.len(), |i: int| s[i]@)
}

/// The block being gathered, line by line: its plain text and its markdown side by side.
pub struct Draft {
    pub text: Seq<char>,
    pub markdown: Seq<char>,
}

pub open spec fn nothing() -> Draft {
    Draft { text: Seq::empty(), markdown: Seq::empty() }
}

/// `a`, then `b` behind a separator where there is something before it.
pub open spec fn beside(a: Seq<char>, sep: char, b: Seq<char>) -> Seq<char> {
    if a.len() == 0 {
        b
    } else {
        a.push(sep) + b
    }
}

pub open spec fn gathered(d: Draft, sep: char, text: Seq<char>, markdown: Seq<char>) -> Draft {
    Draft { text: beside(d.text, sep, text), markdown: beside(d.markdown, sep, markdown) }
}

/// The finished block. Where nothing visible was gathered there is none.
pub open spec fn finished(d: Draft, kind: Seq<char>) -> Seq<Block> {
    if d.text.len() == 0 {
        Seq::empty()
    } else {
        seq![
            Block { kind, text: text::trim_end(d.text), markdown: text::trim_end(d.markdown), call: None },
        ]
    }
}

/// Where a reading of the lines has got to.
pub struct Reading {
    pub done: Seq<Block>,
    pub kind: Seq<char>,
    pub draft: Draft,
    pub fenced: bool,
}

pub open spec fn unread() -> Reading {
    Reading { done: Seq::empty(), kind: "text"@, draft: nothing(), fenced: false }
}

/// The reading with the block at hand finished: nothing of it enters the next one.
pub open spec fn closed_off(r: Reading, kind: Seq<char>) -> Reading {
    Reading { done: r.done + finished(r.draft, kind), draft: nothing(), ..r }
}

/// The reading after one line.
pub open spec fn after_line(r: Reading, line: Seq<char>, is: Line) -> Reading {
    match is {
        Line::Fence => if r.fenced {
            Reading { fenced: false, ..closed_off(r, "code"@) }
        } else {
            Reading { kind: "text"@, fenced: true, ..closed_off(r, r.kind) }
        },
        Line::Verbatim => Reading { draft: gathered(r.draft, '\n', line, line), ..r },
        Line::Tool { call, took } => {
            let c = closed_off(r, r.kind);
            let text = trail::one_line(call);
            Reading {
                done: c.done.push(
                    Block { kind: "tool"@, text, markdown: text, call: Some(call) },
                ),
                kind: "text"@,
                ..c
            }
        },
        Line::Blank => Reading { kind: "text"@, ..closed_off(r, r.kind) },
        Line::Heading { text } => {
            let c = closed_off(r, r.kind);
            Reading {
                done: c.done.push(
                    Block { kind: "heading"@, text: plain(text), markdown: text, call: None },
                ),
                kind: "text"@,
                ..c
            }
        },
        Line::Item { text, markdown } => {
            let c = if r.kind != "bullet"@ {
                closed_off(r, r.kind)
            } else {
                r
            };
            Reading { kind: "bullet"@, draft: gathered(c.draft, '\n', text, markdown), ..c }
        },
        Line::Prose { text, markdown } => {
            let c = if r.kind != "text"@ {
                closed_off(r, r.kind)
            } else {
                r
            };
            Reading { kind: "text"@, draft: gathered(c.draft, ' ', text, markdown), ..c }
        },
    }
}

pub open spec fn nth(lines: Seq<Seq<char>>, i: int) -> Option<Seq<char>> {
    if 0 <= i < lines.len() {
        Some(lines[i])
    } else {
        None
    }
}

/// The blocks of the lines from `i` on, after what was read before them.
pub open spec fn read_from(lines: Seq<Seq<char>>, i: int, r: Reading) -> Seq<Block>
    decreases lines.len() - i,
{
    if i < 0 || i >= lines.len() {
        r.done + finished(
            r.draft,
            if r.fenced {
                "code"@
            } else {
                r.kind
            },
        )
    } else {
        let is = line_is(lines[i], nth(lines, i + 1), r.fenced);
        let took = is matches Line::Tool { took, .. } && took;
        read_from(
            lines,
            if took {
                i + 2
            } else {
                i + 1
            },
            after_line(r, lines[i], is),
        )
    }
}

/// The blocks of an answer. Where nothing in it makes one, the whole is one paragraph.
pub open spec fn blocks_of(content: Seq<char>) -> Seq<Block> {
    let found = read_from(text::lines(content), 0, unread());
    if found.len() == 0 && !text::blank(content) {
        seq![
            Block {
                kind: "text"@,
                text: plain(text::trim(content)),
                markdown: text::trim(content),
                call: None,
            },
        ]
    } else {
        found
    }
}

struct Gathering {
    text: String,
    markdown: String,
}

impl Gathering {
    spec fn draft(self) -> Draft {
        Draft { text: self.text@, markdown: self.markdown@ }
    }

    fn push(&mut self, separator: char, text: &str, markdown: &str)
        ensures
            final(self).draft() == gathered(old(self).draft(), separator, text@, markdown@),
    {
        if !self.text.as_str().is_empty() {
            self.text.push(separator);
        }
        let ghost was = self.text@;
        self.text.append(text);
        assert(old(self).text@.len() == 0 ==> self.text@ =~= text@);
        if !self.markdown.as_str().is_empty() {
            self.markdown.push(separator);
        }
        self.markdown.append(markdown);
        assert(old(self).markdown@.len() == 0 ==> self.markdown@ =~= markdown@);
    }
}

fn flush(out: &mut Vec<ParsedBlock>, current: &mut Gathering, block_type: &'static str)
    ensures
        blocks(final(out)@) == blocks(old(out)@) + finished(old(current).draft(), block_type@),
        final(current).draft() == nothing(),
{
    let ghost was = blocks(out@);
    if current.text.as_str().is_empty() {
        assert(was + Seq::<Block>::empty() =~= was);
    } else {
        let block = ParsedBlock {
            block_type,
            text: trim_end_of(current.text.as_str()),
            markdown: trim_end_of(current.markdown.as_str()),
            call: None,
        };
        let ghost b = block@;
        out.push(block);
        assert(blocks(out@) =~= was.push(b));
        assert(was.push(b) =~= was + seq![b]);
    }
    current.text = String::new();
    current.markdown = String::new();
    assert(current.draft() == nothing());
}

/// Parse markdown content into renderable blocks.
pub fn parse_blocks(content: &str) -> (r: Vec<ParsedBlock>)
    ensures
        blocks(r@) == blocks_of(content@),
{
    let all = lines_of(content);
    let ghost ls = text::lines(content@);
    let mut out: Vec<ParsedBlock> = Vec::new();
    let mut current_type: &'static str = "text";
    let mut current = Gathering { text: String::new(), markdown: String::new() };
    let mut in_code_block = false;
    let mut i: usize = 0;
    let ghost mut at = unread();
    assert(blocks(out@) =~= Seq::<Block>::empty());
    while i < all.len()
        invariant
            i <= all@.len(),
            text::strs(all@) == ls,
            ls == text::lines(content@),
            at == (Reading {
                done: blocks(out@),
                kind: current_type@,
                draft: current.draft(),
                fenced: in_code_block,
            }),
            read_from(ls, 0, unread()) == read_from(ls, i as int, at),
        decreases all@.len() - i,
    {
        let line = all[i].as_str();
        assert(line@ == ls[i as int]);
        let next: Option<&str> = if i + 1 < all.len() {
            Some(all[i + 1].as_str())
        } else {
            None
        };
        let ghost follows = nth(ls, i + 1);
        assert(follows == match next {
            Some(n) => Some(n@),
            None => None,
        });
        let ghost is = line_is(line@, follows, in_code_block);
        let ghost before = at;
        let mut took_next = false;
        if opens_fence(line) {
            if in_code_block {
                flush(&mut out, &mut current, "code");
                in_code_block = false;
            } else {
                flush(&mut out, &mut current, current_type);
                current_type = "text";
                in_code_block = true;
            }
        } else if in_code_block {
            current.push('\n', line, line);
        } else if let Some((call, took)) = trail::parse(line, next) {
            took_next = took;
            flush(&mut out, &mut current, current_type);
            current_type = "text";
            let summary = call.summary();
            let ghost was = blocks(out@);
            let block = ParsedBlock {
                block_type: "tool",
                markdown: summary.clone(),
                text: summary,
                call: Some(call),
            };
            let ghost b = block@;
            out.push(block);
            assert(blocks(out@) =~= was.push(b));
        } else {
            let trimmed_line = trimmed(line);
            let t = trimmed_line.as_str();
            if t.is_empty() {
                flush(&mut out, &mut current, current_type);
                current_type = "text";
            } else if let Some(heading) = strip_heading(t) {
                flush(&mut out, &mut current, current_type);
                current_type = "text";
                let ghost was = blocks(out@);
                let block = ParsedBlock {
                    block_type: "heading",
                    text: strip_inline(heading.as_str()),
                    markdown: heading,
                    call: None,
                };
                let ghost b = block@;
                out.push(block);
                assert(blocks(out@) =~= was.push(b));
            } else if let Some(item) = strip_bullet(t) {
                if !same(current_type, "bullet") {
                    flush(&mut out, &mut current, current_type);
                }
                current_type = "bullet";
                let mut text = "\u{2022} ".to_owned();
                text.append(strip_inline(item.as_str()).as_str());
                let mut markdown = "\u{2022} ".to_owned();
                markdown.append(item.as_str());
                current.push('\n', text.as_str(), markdown.as_str());
            } else if let Some((number, item)) = strip_numbered(t) {
                if !same(current_type, "bullet") {
                    flush(&mut out, &mut current, current_type);
                }
                current_type = "bullet";
                let mut text = number.clone();
                text.append(". ");
                text.append(strip_inline(item.as_str()).as_str());
                let mut markdown = number;
                markdown.append(". ");
                markdown.append(item.as_str());
                current.push('\n', text.as_str(), markdown.as_str());
            } else {
                if !same(current_type, "text") {
                    flush(&mut out, &mut current, current_type);
                }
                current_type = "text";
                current.push(' ', strip_inline(t).as_str(), t);
            }
        }
        proof {
            at = after_line(before, line@, is);
            if took_next {
                lemma_took_a_line(line@, follows);
            }
        }
        i = if took_next {
            i + 2
        } else {
            i + 1
        };
    }
    flush(
        &mut out,
        &mut current,
        if in_code_block {
            "code"
        } else {
            current_type
        },
    );
    if out.len() == 0 && !is_blank(content) {
        let t = trimmed(content);
        let block = ParsedBlock {
            block_type: "text",
            text: strip_inline(t.as_str()),
            markdown: t,
            call: None,
        };
        let ghost b = block@;
        out.push(block);
        assert(blocks(out@) =~= seq![b]);
    }
    out
}

/// A call that took the next line had one to take.
proof fn lemma_took_a_line(line: Seq<char>, next: Option<Seq<char>>)
    requires
        trail::call_on(line, next) matches Some(c) && c.1,
    ensures
        next is Some,
{
}

// ── Drawing ─────────────────────────────────────────────────────────

/// Text that Slint draws with its styles.
#[verifier::external_type_specification]
#[verifier::external_body]
pub struct ExStyledText(slint::StyledText);

/// Why Slint could not read a text as markdown.
#[verifier::external_type_specification]
#[verifier::external_body]
pub struct ExStyledTextFromMarkdownError(slint::StyledTextFromMarkdownError);

/// What Slint makes of a text as markdown, where it can read it.
pub uninterp spec fn drawn(markdown: Seq<char>) -> Option<slint::StyledText>;

/// What Slint makes of a text as it stands.
pub uninterp spec fn undrawn(text: Seq<char>) -> slint::StyledText;

/// `StyledText::from_markdown` of Slint: what it makes of a text, and whether it can read it,
/// depends on the text alone.
#[verifier::external_body]
fn from_markdown(markdown: &str) -> (r: Result<
    slint::StyledText,
    slint::StyledTextFromMarkdownError,
>)
    ensures
        r is Ok <==> drawn(markdown@) is Some,
        r matches Ok(t) ==> drawn(markdown@) == Some(t),
{
    slint::StyledText::from_markdown(markdown)
}

/// `StyledText::from_plain_text` of Slint: what it makes of a text depends on the text alone.
#[verifier::external_body]
fn from_plain_text(text: &str) -> (r: slint::StyledText)
    ensures
        r == undrawn(text@),
{
    slint::StyledText::from_plain_text(text)
}

/// Whether a block's markdown is read: a paragraph's and a list's is, any other block is its plain
/// text.
pub open spec fn has_markup(b: Block) -> bool {
    b.kind == "text"@ || b.kind == "bullet"@
}

/// The reading of a block's markdown where there is one, its plain text where there is not.
pub fn read_or_plain(
    marked: Option<slint::StyledText>,
    plain_text: slint::StyledText,
) -> (r: slint::StyledText)
    ensures
        r == match marked {
            Some(t) => t,
            None => plain_text,
        },
{
    match marked {
        Some(t) => t,
        None => plain_text,
    }
}

/// A block's inline markdown as Slint's `StyledText`. What it does not take falls back to the
/// block's plain text, so no block is lost to a parse error.
pub fn styled(block: &ParsedBlock) -> (r: slint::StyledText)
    ensures
        r == if has_markup(block@) && drawn(block@.markdown) is Some {
            drawn(block@.markdown)->0
        } else {
            undrawn(block@.text)
        },
{
    let marked = if same(block.block_type, "text") || same(block.block_type, "bullet") {
        match from_markdown(block.markdown.as_str()) {
            Ok(t) => Some(t),
            Err(_) => None,
        }
    } else {
        None
    };
    read_or_plain(marked, from_plain_text(block.text.as_str()))
}

// ── Laws ────────────────────────────────────────────────────────────

/// Whether a block is of one of the five kinds, and carries a call exactly where it is a tool's.
pub open spec fn proper(b: Block) -> bool {
    &&& b.kind == "text"@ || b.kind == "code"@ || b.kind == "heading"@ || b.kind == "bullet"@
        || b.kind == "tool"@
    &&& b.call is Some <==> b.kind == "tool"@
}

spec fn reads_well(r: Reading) -> bool {
    &&& r.kind == "text"@ || r.kind == "bullet"@
    &&& forall|i: int| 0 <= i < r.done.len() ==> proper(#[trigger] r.done[i])
}

proof fn lemma_kinds_differ()
    ensures
        "tool"@ != "text"@,
        "tool"@ != "code"@,
        "tool"@ != "heading"@,
        "tool"@ != "bullet"@,
{
    reveal_strlit("tool");
    reveal_strlit("text");
    reveal_strlit("code");
    reveal_strlit("heading");
    reveal_strlit("bullet");
    assert("tool"@[1] == 'o' && "text"@[1] == 'e');
    assert("tool"@[0] == 't' && "code"@[0] == 'c');
}

proof fn lemma_reads_well(lines: Seq<Seq<char>>, i: int, r: Reading)
    requires
        reads_well(r),
    ensures
        forall|k: int|
            0 <= k < read_from(lines, i, r).len() ==> proper(#[trigger] read_from(lines, i, r)[k]),
    decreases lines.len() - i,
{
    lemma_kinds_differ();
    if 0 <= i < lines.len() {
        let is = line_is(lines[i], nth(lines, i + 1), r.fenced);
        let took = is matches Line::Tool { took, .. } && took;
        let next = after_line(r, lines[i], is);
        let j = if took {
            i + 2
        } else {
            i + 1
        };
        assert(reads_well(next));
        lemma_reads_well(lines, j, next);
        assert(read_from(lines, i, r) == read_from(lines, j, next));
    } else {
        let kind = if r.fenced {
            "code"@
        } else {
            r.kind
        };
        let all = read_from(lines, i, r);
        assert forall|k: int| 0 <= k < all.len() implies proper(#[trigger] all[k]) by {
            if k < r.done.len() {
                assert(all[k] == r.done[k]);
            } else {
                assert(all[k] == finished(r.draft, kind)[k - r.done.len()]);
            }
        }
    }
}

/// Every block of every answer is of one of the five kinds, and a block carries a call exactly
/// where it is a tool's.
pub proof fn law_only_a_tool_block_carries_a_call(content: Seq<char>, i: int)
    requires
        0 <= i < blocks_of(content).len(),
    ensures
        proper(blocks_of(content)[i]),
{
    lemma_kinds_differ();
    lemma_reads_well(text::lines(content), 0, unread());
}

/// Whether a block is what it was written as, where nothing in it is markup: in code and in a tool
/// call.
pub open spec fn verbatim(b: Block) -> bool {
    b.kind == "code"@ || b.kind == "tool"@ ==> b.markdown == b.text
}

spec fn codes_well(r: Reading) -> bool {
    &&& r.kind == "text"@ || r.kind == "bullet"@
    &&& r.fenced ==> r.draft.text == r.draft.markdown
    &&& forall|i: int| 0 <= i < r.done.len() ==> verbatim(#[trigger] r.done[i])
}

proof fn lemma_code_is_apart()
    ensures
        "code"@ != "text"@,
        "code"@ != "heading"@,
        "code"@ != "bullet"@,
        "code"@ != "tool"@,
{
    reveal_strlit("code");
    reveal_strlit("text");
    reveal_strlit("heading");
    reveal_strlit("bullet");
    reveal_strlit("tool");
    assert("code"@[0] == 'c');
}

proof fn lemma_codes_well(lines: Seq<Seq<char>>, i: int, r: Reading)
    requires
        codes_well(r),
    ensures
        forall|k: int|
            0 <= k < read_from(lines, i, r).len() ==> verbatim(#[trigger] read_from(lines, i, r)[k]),
    decreases lines.len() - i,
{
    lemma_code_is_apart();
    lemma_kinds_differ();
    if 0 <= i < lines.len() {
        let is = line_is(lines[i], nth(lines, i + 1), r.fenced);
        let took = is matches Line::Tool { took, .. } && took;
        let next = after_line(r, lines[i], is);
        let j = if took {
            i + 2
        } else {
            i + 1
        };
        assert(codes_well(next));
        lemma_codes_well(lines, j, next);
        assert(read_from(lines, i, r) == read_from(lines, j, next));
    } else {
        let kind = if r.fenced {
            "code"@
        } else {
            r.kind
        };
        let all = read_from(lines, i, r);
        assert forall|k: int| 0 <= k < all.len() implies verbatim(#[trigger] all[k]) by {
            if k < r.done.len() {
                assert(all[k] == r.done[k]);
            } else {
                assert(all[k] == finished(r.draft, kind)[k - r.done.len()]);
            }
        }
    }
}

/// Nothing in a code block or a tool block is markup: in every answer, the markdown of every such
/// block is its text.
pub proof fn law_code_is_no_markup(content: Seq<char>, i: int)
    requires
        0 <= i < blocks_of(content).len(),
        blocks_of(content)[i].kind == "code"@ || blocks_of(content)[i].kind == "tool"@,
    ensures
        blocks_of(content)[i].markdown == blocks_of(content)[i].text,
{
    lemma_code_is_apart();
    lemma_kinds_differ();
    lemma_codes_well(text::lines(content), 0, unread());
    assert(verbatim(blocks_of(content)[i]));
}

/// A gear inside a code fence stays code: while a fence is open no line makes a block.
pub proof fn law_a_fence_makes_no_blocks(line: Seq<char>, next: Option<Seq<char>>, r: Reading)
    requires
        r.fenced,
        !is_fence(line),
    ensures
        after_line(r, line, line_is(line, next, true)).done == r.done,
        after_line(r, line, line_is(line, next, true)).fenced,
{
}

/// Text without a marker in it is plain already.
pub proof fn law_text_without_markers_is_plain(s: Seq<char>)
    requires
        !s.contains('*'),
        !s.contains('`'),
    ensures
        plain(s) == s,
{
    reveal_strlit("**");
    reveal_strlit("*");
    reveal_strlit("`");
    lemma_not_found(s, "**"@);
    lemma_not_found(s, "*"@);
    lemma_not_found(s, "`"@);
}

proof fn lemma_not_found(s: Seq<char>, mark: Seq<char>)
    requires
        mark.len() > 0,
        !s.contains(mark[0]),
    ensures
        text::find(s, mark, 0) is None,
{
    text::lemma_find_is_contains(s, mark, 0);
    if let Some(i) = text::find(s, mark, 0) {
        assert(s.subrange(i, i + mark.len())[0] == s[i]);
        assert(s.contains(mark[0]));
    }
}

spec fn within(done: Seq<Block>, code: Seq<char>) -> Reading {
    Reading {
        done,
        kind: "text"@,
        draft: Draft { text: code, markdown: code },
        fenced: true,
    }
}

proof fn lemma_code_gathers(lines: Seq<Seq<char>>, i: int, end: int, code: Seq<Seq<char>>)
    requires
        0 < i <= end < lines.len(),
        end == lines.len() - 1,
        is_fence(lines[end]),
        forall|k: int| i <= k < end ==> !is_fence(#[trigger] lines[k]),
        code.len() == i - 1,
        code.len() > 0 ==> code[0].len() > 0,
        code.len() == 0 ==> lines[i].len() > 0,
        i < end || code.len() > 0,
    ensures
        read_from(lines, i, within(Seq::empty(), text::join(code, "\n"@))) == {
            let whole = text::join(code + lines.subrange(i, end), "\n"@);
            seq![
                Block {
                    kind: "code"@,
                    text: text::trim_end(whole),
                    markdown: text::trim_end(whole),
                    call: None,
                },
            ]
        },
    decreases end - i,
{
    let so_far = text::join(code, "\n"@);
    let r = within(Seq::empty(), so_far);
    reveal_strlit("\n");
    lemma_join_nonempty(code, "\n"@);
    if i == end {
        assert(code + lines.subrange(i, end) =~= code);
        let b = Block {
            kind: "code"@,
            text: text::trim_end(so_far),
            markdown: text::trim_end(so_far),
            call: None,
        };
        let next = after_line(r, lines[i], Line::Fence);
        assert(so_far.len() > 0);
        assert(next.done =~= seq![b]);
        assert(read_from(lines, i, r) == read_from(lines, i + 1, next));
        assert(finished(next.draft, "text"@) =~= Seq::<Block>::empty());
        assert(next.done + finished(next.draft, "text"@) =~= seq![b]);
    } else {
        let more = code.push(lines[i]);
        assert(more.drop_last() =~= code);
        assert(so_far.push('\n') =~= so_far + "\n"@);
        assert(text::join(more, "\n"@) =~= beside(so_far, '\n', lines[i]));
        let next = after_line(r, lines[i], Line::Verbatim);
        assert(next == within(Seq::empty(), text::join(more, "\n"@)));
        assert(read_from(lines, i, r) == read_from(lines, i + 1, next));
        lemma_code_gathers(lines, i + 1, end, more);
        assert(more + lines.subrange(i + 1, end) =~= code + lines.subrange(i, end));
    }
}

proof fn lemma_join_nonempty(parts: Seq<Seq<char>>, sep: Seq<char>)
    ensures
        parts.len() > 0 && parts[0].len() > 0 ==> text::join(parts, sep).len() > 0,
        parts.len() == 0 ==> text::join(parts, sep).len() == 0,
    decreases parts.len(),
{
    if parts.len() > 1 {
        lemma_join_nonempty(parts.drop_last(), sep);
    }
}

/// What stands in a code fence is kept as it was written, line by line, markers and all; only the
/// white space at its end goes.
pub proof fn law_code_is_kept(lines: Seq<Seq<char>>)
    requires
        lines.len() >= 3,
        is_fence(lines[0]),
        is_fence(lines.last()),
        forall|k: int| 0 < k < lines.len() - 1 ==> !is_fence(#[trigger] lines[k]),
        lines[1].len() > 0,
    ensures
        read_from(lines, 0, unread()) == {
            let whole = text::join(lines.subrange(1, lines.len() - 1), "\n"@);
            seq![
                Block {
                    kind: "code"@,
                    text: text::trim_end(whole),
                    markdown: text::trim_end(whole),
                    call: None,
                },
            ]
        },
{
    let none = Seq::<Seq<char>>::empty();
    let next = after_line(unread(), lines[0], Line::Fence);
    assert(next.done =~= Seq::<Block>::empty());
    assert(text::join(none, "\n"@) =~= Seq::<char>::empty());
    assert(next == within(Seq::empty(), text::join(none, "\n"@)));
    assert(read_from(lines, 0, unread()) == read_from(lines, 1, next));
    lemma_code_gathers(lines, 1, lines.len() - 1, none);
    assert(none + lines.subrange(1, lines.len() - 1) =~= lines.subrange(1, lines.len() - 1));
}

// ── What each kind of line comes to ─────────────────────────────────

/// So many marks of a heading.
pub open spec fn hashes(k: nat) -> Seq<char> {
    Seq::new(k, |i: int| '#')
}

/// A line that starts with something printed that is neither a gear nor a backtick is neither a
/// call nor a fence, however far it is indented.
proof fn lemma_ordinary(before: Seq<char>, t: Seq<char>, behind: Seq<char>, next: Option<Seq<char>>)
    requires
        text::all_white(before),
        text::all_white(behind),
        text::neat(t),
        t[0] != '`',
        t[0] != '\u{2699}',
    ensures
        ({
            let line = before + t + behind;
            &&& text::trim(line) == t
            &&& !is_fence(line)
            &&& trail::call_on(line, next) is None
        }),
{
    let line = before + t + behind;
    text::law_trimming_takes_the_white_space_off(before, t, behind);
    assert(text::trim_start(line) == t + behind);
    assert((t + behind)[0] == t[0]);
    reveal_strlit("```");
    if is_fence(line) {
        assert("```"@[0] == (t + behind).subrange(0, 3)[0]);
    }
}

proof fn lemma_starts(t: Seq<char>, mark: Seq<char>)
    requires
        mark.len() == 2,
    ensures
        mark.is_prefix_of(t) <==> t.len() >= 2 && t[0] == mark[0] && t[1] == mark[1],
{
    if t.len() >= 2 && t[0] == mark[0] && t[1] == mark[1] {
        assert(mark =~= t.subrange(0, 2));
    }
    if mark.is_prefix_of(t) {
        assert(mark[0] == t.subrange(0, 2)[0]);
        assert(mark[1] == t.subrange(0, 2)[1]);
    }
}

proof fn lemma_no_number(t: Seq<char>)
    requires
        t.len() > 0,
        !('0' <= t[0] <= '9'),
        t[0] != '.',
    ensures
        numbered_in(t) is None,
{
    reveal_strlit(". ");
    text::lemma_find_is_contains(t, ". "@, 0);
    if let Some(i) = text::find(t, ". "@, 0) {
        if i == 0 {
            assert(t.subrange(0, 2)[0] == t[0]);
        } else {
            assert(t.take(i)[0] == t[0]);
        }
    }
}

/// One, two or three marks, a blank and a title make a heading of that title, however the line is
/// indented. More marks than that, or no blank behind them, make no heading: the line is prose.
pub proof fn law_three_depths_of_headings(
    before: Seq<char>,
    k: nat,
    title: Seq<char>,
    behind: Seq<char>,
    next: Option<Seq<char>>,
)
    requires
        text::all_white(before),
        text::all_white(behind),
        text::neat(title),
        k >= 1,
    ensures
        1 <= k <= 3 ==> line_is(before + (hashes(k).push(' ') + title) + behind, next, false) == (
        Line::Heading { text: title }),
        k > 3 ==> line_is(before + (hashes(k).push(' ') + title) + behind, next, false) == (
        Line::Prose {
            text: plain(hashes(k).push(' ') + title),
            markdown: hashes(k).push(' ') + title,
        }),
        title[0] != '#' ==> line_is(before + (hashes(k) + title) + behind, next, false) == (
        Line::Prose { text: plain(hashes(k) + title), markdown: hashes(k) + title }),
{
    reveal_strlit("### ");
    reveal_strlit("## ");
    reveal_strlit("# ");
    reveal_strlit("- ");
    reveal_strlit("* ");
    reveal_strlit("\u{2022} ");
    let t = hashes(k).push(' ') + title;
    assert(t[0] == '#' && t.last() == title.last());
    text::law_what_is_white('#');
    lemma_ordinary(before, t, behind, next);
    text::lemma_neat(title);
    lemma_starts(t, "- "@);
    lemma_starts(t, "* "@);
    lemma_starts(t, "\u{2022} "@);
    lemma_starts(t, "# "@);
    lemma_no_number(t);
    if "### "@.is_prefix_of(t) {
        assert("### "@[3] == t.subrange(0, 4)[3]);
        assert("### "@[2] == t.subrange(0, 4)[2]);
        assert("### "@[1] == t.subrange(0, 4)[1]);
    }
    if "## "@.is_prefix_of(t) {
        assert("## "@[2] == t.subrange(0, 3)[2]);
        assert("## "@[1] == t.subrange(0, 3)[1]);
    }
    if k == 3 {
        assert("### "@ =~= t.subrange(0, 4));
        assert(t.skip(4) =~= title);
    }
    if k == 2 {
        assert("## "@ =~= t.subrange(0, 3));
        assert(t.skip(3) =~= title);
    }
    if k == 1 {
        assert(t.skip(2) =~= title);
    }
    if title[0] != '#' {
        let u = hashes(k) + title;
        assert(u[0] == '#' && u.last() == title.last());
        lemma_ordinary(before, u, behind, next);
        lemma_starts(u, "- "@);
        lemma_starts(u, "* "@);
        lemma_starts(u, "\u{2022} "@);
        lemma_starts(u, "# "@);
        lemma_no_number(u);
        assert(u[k as int] == title[0]);
        text::law_what_is_white(' ');
        assert(forall|i: int| 0 <= i < k ==> u[i] == '#');
        if "### "@.is_prefix_of(u) {
            assert("### "@[3] == u.subrange(0, 4)[3]);
            assert("### "@[2] == u.subrange(0, 4)[2]);
            assert("### "@[1] == u.subrange(0, 4)[1]);
        }
        if "## "@.is_prefix_of(u) {
            assert("## "@[2] == u.subrange(0, 3)[2]);
            assert("## "@[1] == u.subrange(0, 3)[1]);
        }
    }
}

/// A heading is a block of its own: it ends whatever was being gathered, and nothing of it enters
/// what follows.
pub proof fn law_a_heading_stands_alone(r: Reading, line: Seq<char>, title: Seq<char>)
    ensures
        ({
            let now = after_line(r, line, Line::Heading { text: title });
            let own = Block { kind: "heading"@, text: plain(title), markdown: title, call: None };
            &&& now.done == (r.done + finished(r.draft, r.kind)).push(own)
            &&& now.draft.text.len() == 0 && now.draft.markdown.len() == 0
            &&& now.kind == "text"@
            &&& now.fenced == r.fenced
        }),
{
}

/// An answer that is one heading is that one block.
pub proof fn law_a_heading_is_read_as_one(k: nat, title: Seq<char>)
    requires
        1 <= k <= 3,
        text::neat(title),
        !title.contains('\n'),
    ensures
        blocks_of(hashes(k).push(' ') + title) == seq![
            Block { kind: "heading"@, text: plain(title), markdown: title, call: None },
        ],
{
    let s = hashes(k).push(' ') + title;
    let none = Seq::<char>::empty();
    law_three_depths_of_headings(none, k, title, none, None);
    assert(none + s + none =~= s);
    if s.contains('\n') {
        let i = choose|i: int| 0 <= i < s.len() && s[i] == '\n';
        assert(title[i - k - 1] == '\n');
    }
    text::law_what_is_white('\r');
    text::law_lines_are_read_as_written(s, none);
    let ls = text::lines(s);
    let own = Block { kind: "heading"@, text: plain(title), markdown: title, call: None };
    let is = line_is(ls[0], nth(ls, 1), false);
    let now = after_line(unread(), ls[0], is);
    assert(now.done =~= seq![own]);
    assert(read_from(ls, 0, unread()) == read_from(ls, 1, now));
    assert(now.done + finished(now.draft, now.kind) =~= seq![own]);
}

/// A dash, a star or a bullet, a blank and something behind it make a list item, shown with a
/// bullet, however the line is indented.
pub proof fn law_three_bullets(
    before: Seq<char>,
    mark: char,
    item: Seq<char>,
    behind: Seq<char>,
    next: Option<Seq<char>>,
)
    requires
        text::all_white(before),
        text::all_white(behind),
        item.len() > 0,
        !text::is_white(item.last()),
        mark == '-' || mark == '*' || mark == '\u{2022}',
    ensures
        line_is(before + (seq![mark, ' '] + item) + behind, next, false) == (Line::Item {
            text: "\u{2022} "@ + plain(item),
            markdown: "\u{2022} "@ + item,
        }),
{
    reveal_strlit("### ");
    reveal_strlit("## ");
    reveal_strlit("# ");
    reveal_strlit("- ");
    reveal_strlit("* ");
    reveal_strlit("\u{2022} ");
    let t = seq![mark, ' '] + item;
    assert(t[0] == mark && t[1] == ' ' && t.last() == item.last());
    text::law_what_is_white('-');
    text::law_what_is_white('*');
    lemma_ordinary(before, t, behind, next);
    lemma_starts(t, "- "@);
    lemma_starts(t, "* "@);
    lemma_starts(t, "\u{2022} "@);
    lemma_starts(t, "# "@);
    if "### "@.is_prefix_of(t) {
        assert("### "@[0] == t.subrange(0, 4)[0]);
    }
    if "## "@.is_prefix_of(t) {
        assert("## "@[0] == t.subrange(0, 3)[0]);
    }
    assert(t.skip(2) =~= item);
}

/// One to three digits, a dot, a blank and something behind it make a numbered item, which keeps
/// its number. With more digits the line is prose.
pub proof fn law_numbers_of_three_digits(
    before: Seq<char>,
    number: Seq<char>,
    item: Seq<char>,
    behind: Seq<char>,
    next: Option<Seq<char>>,
)
    requires
        text::all_white(before),
        text::all_white(behind),
        item.len() > 0,
        !text::is_white(item.last()),
        number.len() > 0,
        all_digits(number),
    ensures
        number.len() <= 3 ==> line_is(before + (number + ". "@ + item) + behind, next, false) == (
        Line::Item { text: number + ". "@ + plain(item), markdown: number + ". "@ + item }),
        number.len() > 3 ==> line_is(before + (number + ". "@ + item) + behind, next, false) == (
        Line::Prose {
            text: plain(number + ". "@ + item),
            markdown: number + ". "@ + item,
        }),
{
    reveal_strlit("### ");
    reveal_strlit("## ");
    reveal_strlit("# ");
    reveal_strlit("- ");
    reveal_strlit("* ");
    reveal_strlit("\u{2022} ");
    reveal_strlit(". ");
    let t = number + ". "@ + item;
    let n = number.len() as int;
    assert(t[0] == number[0] && t.last() == item.last());
    text::law_what_is_white(t[0]);
    lemma_ordinary(before, t, behind, next);
    lemma_starts(t, "- "@);
    lemma_starts(t, "* "@);
    lemma_starts(t, "\u{2022} "@);
    lemma_starts(t, "# "@);
    if "### "@.is_prefix_of(t) {
        assert("### "@[0] == t.subrange(0, 4)[0]);
    }
    if "## "@.is_prefix_of(t) {
        assert("## "@[0] == t.subrange(0, 3)[0]);
    }
    text::lemma_find_is_contains(t, ". "@, 0);
    assert(t.subrange(n, n + 2) =~= ". "@);
    assert(text::at(t, n, ". "@));
    let i = text::find(t, ". "@, 0)->0;
    assert(i == n) by {
        if i < n {
            assert(t.subrange(i, i + 2)[0] == t[i]);
            assert(t[i] == number[i]);
        }
    }
    assert(t.take(n) =~= number);
    assert(t.skip(n + 2) =~= item);
}

/// A line that starts with none of the marks is prose, as it is written.
pub proof fn law_anything_else_is_prose(
    before: Seq<char>,
    t: Seq<char>,
    behind: Seq<char>,
    next: Option<Seq<char>>,
)
    requires
        text::all_white(before),
        text::all_white(behind),
        text::neat(t),
        t[0] != '#' && t[0] != '-' && t[0] != '*' && t[0] != '\u{2022}' && t[0] != '`' && t[0]
            != '\u{2699}' && t[0] != '.' && !('0' <= t[0] <= '9'),
    ensures
        line_is(before + t + behind, next, false) == (Line::Prose { text: plain(t), markdown: t }),
{
    reveal_strlit("### ");
    reveal_strlit("## ");
    reveal_strlit("# ");
    reveal_strlit("- ");
    reveal_strlit("* ");
    reveal_strlit("\u{2022} ");
    lemma_ordinary(before, t, behind, next);
    lemma_starts(t, "- "@);
    lemma_starts(t, "* "@);
    lemma_starts(t, "\u{2022} "@);
    lemma_starts(t, "# "@);
    if "### "@.is_prefix_of(t) {
        assert("### "@[0] == t.subrange(0, 4)[0]);
    }
    if "## "@.is_prefix_of(t) {
        assert("## "@[0] == t.subrange(0, 3)[0]);
    }
    lemma_no_number(t);
}

/// A line of white space is blank, and three backticks make a fence, however far they are indented
/// and whatever stands behind them, inside a fence and outside.
pub proof fn law_blanks_and_fences(before: Seq<char>, behind: Seq<char>, next: Option<Seq<char>>, fenced: bool)
    requires
        text::all_white(before),
    ensures
        line_is(before, next, false) is Blank,
        line_is(before + "```"@ + behind, next, fenced) is Fence,
{
    reveal_strlit("```");
    let none = Seq::<char>::empty();
    text::law_trimming_takes_the_white_space_off(before, none, none);
    assert(before + none + none =~= before);
    text::lemma_trim_start(before);
    if text::trim_start(before).len() > 0 {
        let s = text::trim_start(before);
        assert(s[0] == before[before.len() - s.len()]);
    }
    let mark = "```"@;
    let line = before + mark + behind;
    text::lemma_trim_start(line);
    lemma_indented(before, mark + behind);
    assert(line =~= before + (mark + behind));
    assert((mark + behind)[0] == '`');
    text::law_what_is_white('`');
    assert(mark =~= (mark + behind).subrange(0, 3));
}

proof fn lemma_indented(before: Seq<char>, s: Seq<char>)
    requires
        text::all_white(before),
    ensures
        text::trim_start(before + s) == text::trim_start(s),
    decreases before.len(),
{
    if before.len() == 0 {
        assert(before + s =~= s);
    } else {
        assert((before + s)[0] == before[0]);
        assert((before + s).drop_first() =~= before.drop_first() + s);
        assert forall|i: int| 0 <= i < before.drop_first().len() implies text::is_white(
            #[trigger] before.drop_first()[i],
        ) by {
            assert(text::is_white(before[i + 1]));
        }
        lemma_indented(before.drop_first(), s);
    }
}

/// Lines of prose run on into one paragraph, a blank between them; items of a list stay lines of
/// one list; and going from one to the other, or over a blank line, ends what was being gathered.
pub proof fn law_how_lines_run_on(r: Reading, line: Seq<char>, text: Seq<char>, markdown: Seq<char>)
    requires
        r.draft.text.len() > 0,
        r.draft.markdown.len() > 0,
    ensures
        ({
            let prose = after_line(r, line, Line::Prose { text, markdown });
            let item = after_line(r, line, Line::Item { text, markdown });
            let gap = after_line(r, line, Line::Blank);
            let so_far = Block {
                kind: r.kind,
                text: text::trim_end(r.draft.text),
                markdown: text::trim_end(r.draft.markdown),
                call: None,
            };
            &&& r.kind == "text"@ ==> {
                &&& prose.done == r.done
                &&& prose.draft.text == r.draft.text + seq![' '] + text
                &&& prose.draft.markdown == r.draft.markdown + seq![' '] + markdown
                &&& item.done == r.done.push(so_far)
                &&& item.draft.text == text && item.draft.markdown == markdown
            }
            &&& r.kind == "bullet"@ ==> {
                &&& item.done == r.done
                &&& item.draft.text == r.draft.text + seq!['\n'] + text
                &&& item.draft.markdown == r.draft.markdown + seq!['\n'] + markdown
                &&& prose.done == r.done.push(so_far)
                &&& prose.draft.text == text && prose.draft.markdown == markdown
            }
            &&& prose.kind == "text"@ && item.kind == "bullet"@ && gap.kind == "text"@
            &&& gap.done == r.done.push(so_far)
            &&& gap.draft.text.len() == 0
        }),
{
    reveal_strlit("text");
    reveal_strlit("bullet");
    assert("text"@.len() == 4 && "bullet"@.len() == 6);
    let so_far = finished(r.draft, r.kind);
    assert(r.done + so_far =~= r.done.push(so_far[0]));
    assert(r.draft.text.push(' ') + text =~= r.draft.text + seq![' '] + text);
    assert(r.draft.text.push('\n') + text =~= r.draft.text + seq!['\n'] + text);
    assert(r.draft.markdown.push(' ') + markdown =~= r.draft.markdown + seq![' '] + markdown);
    assert(r.draft.markdown.push('\n') + markdown =~= r.draft.markdown + seq!['\n'] + markdown);
}

/// What is gathered at the end is a block too, and an open fence at the end is code to the end.
pub proof fn law_the_end_closes_what_is_open(lines: Seq<Seq<char>>, r: Reading)
    requires
        r.draft.text.len() > 0,
    ensures
        read_from(lines, lines.len() as int, r) == r.done.push(
            Block {
                kind: if r.fenced {
                    "code"@
                } else {
                    r.kind
                },
                text: text::trim_end(r.draft.text),
                markdown: text::trim_end(r.draft.markdown),
                call: None,
            },
        ),
{
}

// ── Markers ─────────────────────────────────────────────────────────

/// Where a mark first stands behind a text that has none of it.
proof fn lemma_first_mark(a: Seq<char>, mark: Seq<char>, rest: Seq<char>, s: Seq<char>, from: int)
    requires
        mark.len() > 0,
        !a.contains(mark[0]),
        0 <= from,
        s.skip(from) == a + mark + rest,
        from <= s.len(),
    ensures
        text::find(s, mark, from) == Some(from + a.len()),
{
    let m = mark.len() as int;
    let i = from + a.len();
    let t = a + mark + rest;
    assert(t.len() == s.len() - from);
    assert(s.subrange(i, i + m) =~= mark) by {
        assert forall|k: int| 0 <= k < m implies s.subrange(i, i + m)[k] == mark[k] by {
            assert(s[i + k] == s.skip(from)[a.len() + k]);
        }
    }
    assert(text::at(s, i, mark));
    text::lemma_find_is_contains(s, mark, from);
    let x = text::find(s, mark, from)->0;
    if x < i {
        assert(s.subrange(x, x + m)[0] == s[x]);
        assert(s[x] == s.skip(from)[x - from]);
        assert(a[x - from] == mark[0]);
        assert(a.contains(mark[0]));
    }
}

/// A pair of marks round a text is taken out, and the text stays.
proof fn lemma_one_pair(a: Seq<char>, b: Seq<char>, c: Seq<char>, mark: Seq<char>, empty: bool)
    requires
        mark.len() > 0,
        !a.contains(mark[0]),
        !b.contains(mark[0]),
        !c.contains(mark[0]),
        b.len() > 0,
    ensures
        unpaired(a + mark + b + mark + c, mark, empty) == a + b + c,
{
    let s = a + mark + b + mark + c;
    let m = mark.len() as int;
    let i = a.len() as int;
    let j = a.len() + m + b.len();
    assert(s.skip(0) =~= a + mark + (b + mark + c));
    lemma_first_mark(a, mark, b + mark + c, s, 0);
    assert(s.skip(i + m) =~= b + mark + c);
    lemma_first_mark(b, mark, c, s, i + m);
    let t = s.take(i) + s.subrange(i + m, j) + s.skip(j + m);
    assert(t =~= a + b + c);
    lemma_none_of(a, b, c, mark[0]);
    lemma_not_found(t, mark);
    assert(unpaired(t, mark, empty) == t);
    assert(text::find(s, mark, 0) == Some(i));
    assert(text::find(s, mark, i + m) == Some(j));
    assert(unpaired(s, mark, empty) == unpaired(t, mark, empty));
}

proof fn lemma_none_of(a: Seq<char>, b: Seq<char>, c: Seq<char>, mark: char)
    requires
        !a.contains(mark),
        !b.contains(mark),
        !c.contains(mark),
    ensures
        !(a + b + c).contains(mark),
{
    let t = a + b + c;
    if t.contains(mark) {
        let k = choose|k: int| 0 <= k < t.len() && t[k] == mark;
        if k < a.len() {
            assert(a[k] == mark);
        } else if k < a.len() + b.len() {
            assert(b[k - a.len()] == mark);
        } else {
            assert(c[k - a.len() - b.len()] == mark);
        }
    }
}

/// Bold, italic and code lose their marks and keep their words, wherever in a text they stand.
pub proof fn law_markers_go_and_words_stay(a: Seq<char>, b: Seq<char>, c: Seq<char>)
    requires
        !a.contains('*') && !a.contains('`'),
        !b.contains('*') && !b.contains('`'),
        !c.contains('*') && !c.contains('`'),
        b.len() > 0,
    ensures
        plain(a + "**"@ + b + "**"@ + c) == a + b + c,
        plain(a + "*"@ + b + "*"@ + c) == a + b + c,
        plain(a + "`"@ + b + "`"@ + c) == a + b + c,
{
    reveal_strlit("**");
    reveal_strlit("*");
    reveal_strlit("`");
    let whole = a + b + c;
    lemma_none_of(a, b, c, '*');
    lemma_none_of(a, b, c, '`');
    lemma_not_found(whole, "**"@);
    lemma_not_found(whole, "*"@);
    lemma_not_found(whole, "`"@);
    lemma_one_pair(a, b, c, "**"@, true);
    lemma_one_pair(a, b, c, "*"@, false);
    lemma_one_pair(a, b, c, "`"@, true);
    let s = a + "*"@ + b + "*"@ + c;
    assert(text::find(s, "**"@, 0) is None) by {
        text::lemma_find_is_contains(s, "**"@, 0);
        if let Some(i) = text::find(s, "**"@, 0) {
            assert(s.subrange(i, i + 2)[0] == s[i]);
            assert(s.subrange(i, i + 2)[1] == s[i + 1]);
            lemma_stars(a, b, c, i);
            lemma_stars(a, b, c, i + 1);
        }
    }
    let t = a + "`"@ + b + "`"@ + c;
    assert(!t.contains('*')) by {
        assert forall|k: int| 0 <= k < t.len() implies t[k] != '*' by {
            if k < a.len() {
                assert(a.contains(a[k]));
            } else if a.len() < k < a.len() + 1 + b.len() {
                assert(b.contains(b[k - a.len() - 1]));
            } else if k > a.len() + 1 + b.len() {
                assert(c.contains(c[k - a.len() - b.len() - 2]));
            }
        }
    }
    lemma_not_found(t, "**"@);
    lemma_not_found(t, "*"@);
}

proof fn lemma_stars(a: Seq<char>, b: Seq<char>, c: Seq<char>, i: int)
    requires
        !a.contains('*'),
        !b.contains('*'),
        !c.contains('*'),
        0 <= i < a.len() + b.len() + c.len() + 2,
        (a + "*"@ + b + "*"@ + c)[i] == '*',
    ensures
        i == a.len() || i == a.len() + 1 + b.len(),
{
    reveal_strlit("*");
    if i < a.len() {
        assert(a.contains(a[i]));
    } else if a.len() < i < a.len() + 1 + b.len() {
        assert(b.contains(b[i - a.len() - 1]));
    } else if i > a.len() + 1 + b.len() {
        assert(c.contains(c[i - a.len() - b.len() - 2]));
    }
}

/// A mark without its other half is a character like any other.
pub proof fn law_a_lone_marker_stays(a: Seq<char>, b: Seq<char>)
    requires
        !a.contains('*') && !a.contains('`'),
        !b.contains('*') && !b.contains('`'),
    ensures
        plain(a + "*"@ + b) == a + "*"@ + b,
        plain(a + "`"@ + b) == a + "`"@ + b,
{
    reveal_strlit("**");
    reveal_strlit("*");
    reveal_strlit("`");
    lemma_lone(a, b, '*');
    lemma_lone(a, b, '`');
    assert(a + "*"@ + b =~= a.push('*') + b);
    assert(a + "`"@ + b =~= a.push('`') + b);
    let s = a.push('*') + b;
    let t = a.push('`') + b;
    assert("*"@ =~= seq!['*']);
    assert("`"@ =~= seq!['`']);
    assert(!s.contains('`')) by {
        assert forall|k: int| 0 <= k < s.len() implies s[k] != '`' by {
            if k < a.len() {
                assert(a.contains(a[k]));
            } else if k > a.len() {
                assert(b.contains(b[k - a.len() - 1]));
            }
        }
    }
    assert(!t.contains('*')) by {
        assert forall|k: int| 0 <= k < t.len() implies t[k] != '*' by {
            if k < a.len() {
                assert(a.contains(a[k]));
            } else if k > a.len() {
                assert(b.contains(b[k - a.len() - 1]));
            }
        }
    }
    lemma_not_found(s, "`"@);
    lemma_not_found(t, "**"@);
    lemma_not_found(t, "*"@);
    assert(text::find(s, "**"@, 0) is None) by {
        text::lemma_find_is_contains(s, "**"@, 0);
        if let Some(i) = text::find(s, "**"@, 0) {
            assert(s.subrange(i, i + 2)[0] == s[i]);
            assert(s.subrange(i, i + 2)[1] == s[i + 1]);
            if i < a.len() {
                assert(a.contains(a[i]));
            } else {
                assert(b.contains(b[i - a.len()]));
            }
        }
    }
}

proof fn lemma_lone(a: Seq<char>, b: Seq<char>, c: char)
    requires
        !a.contains(c),
        !b.contains(c),
    ensures
        forall|empty: bool|
            #[trigger] unpaired(a.push(c) + b, seq![c], empty) == a.push(c) + b,
{
    let s = a.push(c) + b;
    text::lemma_find_is_contains(s, seq![c], 0);
    if let Some(i) = text::find(s, seq![c], 0) {
        text::lemma_find_is_contains(s, seq![c], i + 1);
        assert(s.subrange(i, i + 1)[0] == s[i]);
        if i < a.len() {
            assert(a.contains(a[i]));
        } else if i > a.len() {
            assert(b.contains(b[i - a.len() - 1]));
        }
        if let Some(j) = text::find(s, seq![c], i + 1) {
            assert(s.subrange(j, j + 1)[0] == s[j]);
            assert(b.contains(b[j - a.len() - 1]));
        }
    }
}

/// A heading of each of the three depths is one block, with its marks taken off.
pub proof fn law_a_heading_is_parsed_as_one(k: nat, title: Seq<char>, content: &str, r: Vec<ParsedBlock>)
    requires
        call_ensures(parse_blocks, (content,), r),
        1 <= k <= 3,
        text::neat(title),
        !title.contains('\n'),
        content@ == hashes(k).push(' ') + title,
    ensures
        r@.len() == 1,
        r@[0].block_type@ == "heading"@,
        r@[0].markdown@ == title,
        r@[0].text@ == plain(title),
        r@[0].call is None,
{
    law_a_heading_is_read_as_one(k, title);
    let all = blocks(r@);
    assert(all.len() == 1);
    assert(all[0] == r@[0]@);
}

/// A block of prose or a bullet is drawn with its markup where that can be read, and every other
/// block is drawn as its text stands.
pub proof fn law_how_a_block_is_drawn(block: ParsedBlock, r: slint::StyledText)
    requires
        call_ensures(styled, (&block,), r),
    ensures
        (block@.kind == "text"@ || block@.kind == "bullet"@) && drawn(block@.markdown) is Some ==> r
            == drawn(block@.markdown)->0,
        drawn(block@.markdown) is None ==> r == undrawn(block@.text),
        block@.kind != "text"@ && block@.kind != "bullet"@ ==> r == undrawn(block@.text),
{
}

} // verus!
