//! The conversation a person was in, put back when the Lens opens empty.
//!
//! The last turns of the answering mind's conversation become bubbles: the request in one of its
//! own, the reply with its text as markdown blocks and each tool call as the card it was.
use crate::markdown;
use crate::markdown::{parse_blocks, Block, ParsedBlock};
use crate::text;
use crate::text::{is_blank, joined};
use crate::trail;
use crate::trail::{Call, ToolCall};
use vstd::prelude::*;

verus! {

/// How many of the latest turns are put back.
pub const RESTORED_TURNS: usize = 12;

/// A piece of a turn, as it was saved.
pub enum Item {
    Text(String),
    /// A tool call, and what became of it.
    Card { call: ToolCall, status: String },
    /// What the shell noted.
    Note(String),
    /// An approval: what it was for, and what is on record of it.
    Approval { what: String, record: String },
    Thinking,
}

/// A turn, as it was saved.
pub struct Turn {
    pub prompt: String,
    pub items: Vec<Item>,
    /// Whether it had not ended.
    pub open: bool,
}

/// A block of a bubble.
#[derive(Debug)]
pub struct ContentBlock {
    pub block_type: &'static str,
    pub text: String,
    /// The call a card shows.
    pub call: Option<ToolCall>,
    /// What became of the call, where it is known.
    pub status: String,
}

/// What a [`ContentBlock`] says.
pub struct Piece {
    pub kind: Seq<char>,
    pub text: Seq<char>,
    pub call: Option<Call>,
    pub status: Seq<char>,
}

pub open spec fn call_in(c: Option<ToolCall>) -> Option<Call> {
    match c {
        Some(call) => Some(call@),
        None => None,
    }
}

impl View for ContentBlock {
    type V = Piece;

    open spec fn view(&self) -> Piece {
        Piece {
            kind: self.block_type@,
            text: self.text@,
            call: call_in(self.call),
            status: self.status@,
        }
    }
}

/// What blocks say, one by one.
pub open spec fn pieces(s: Seq<ContentBlock>) -> Seq<Piece> {
    Seq::new(s.len(), |i: int| s[i]@)
}

/// A bubble.
#[derive(Debug)]
pub struct MessageData {
    pub role: &'static str,
    pub content: String,
    pub is_streaming: bool,
    pub blocks: Vec<ContentBlock>,
}

/// What a bubble says.
pub struct Bubble {
    pub role: Seq<char>,
    pub content: Seq<char>,
    pub is_streaming: bool,
    pub blocks: Seq<Piece>,
}

impl View for MessageData {
    type V = Bubble;

    open spec fn view(&self) -> Bubble {
        Bubble {
            role: self.role@,
            content: self.content@,
            is_streaming: self.is_streaming,
            blocks: pieces(self.blocks@),
        }
    }
}

/// What bubbles say, one by one.
pub open spec fn bubbled(s: Seq<MessageData>) -> Seq<Bubble> {
    Seq::new(s.len(), |i: int| s[i]@)
}

/// A line of text.
pub open spec fn plain_line(s: Seq<char>) -> Piece {
    Piece { kind: "text"@, text: s, call: None, status: ""@ }
}

/// A block of markdown, as a bubble draws it.
pub open spec fn piece_of(b: Block) -> Piece {
    Piece { kind: b.kind, text: b.text, call: b.call, status: ""@ }
}

/// What a piece of a turn becomes. Thinking is no part of what was said.
pub open spec fn item_pieces(item: Item) -> Seq<Piece> {
    match item {
        Item::Text(said) => if text::blank(said@) {
            Seq::empty()
        } else {
            markdown::blocks_of(said@).map_values(|b: Block| piece_of(b))
        },
        Item::Card { call, status } => seq![
            Piece {
                kind: "tool"@,
                text: trail::one_line(call@),
                call: Some(call@),
                status: status@,
            },
        ],
        Item::Note(note) => seq![plain_line(note@)],
        Item::Approval { what, record } => seq![
            plain_line(
                if text::blank(record@) {
                    what@
                } else {
                    record@
                },
            ),
        ],
        Item::Thinking => Seq::empty(),
    }
}

/// What the first pieces of a turn become.
pub open spec fn pieces_to(items: Seq<Item>, n: int) -> Seq<Piece>
    decreases n,
{
    if n <= 0 {
        Seq::empty()
    } else {
        pieces_to(items, n - 1) + item_pieces(items[n - 1])
    }
}

/// The texts among the first pieces of a turn.
pub open spec fn texts_to(items: Seq<Item>, n: int) -> Seq<Seq<char>>
    decreases n,
{
    if n <= 0 {
        Seq::empty()
    } else {
        let before = texts_to(items, n - 1);
        match items[n - 1] {
            Item::Text(said) => if text::blank(said@) {
                before
            } else {
                before.push(said@)
            },
            _ => before,
        }
    }
}

/// What is said of a turn that had not ended.
pub open spec fn cut_off() -> Seq<char> {
    "This had not finished when the desktop last stopped; what came of it is in Agents."@
}

/// The blocks of a turn's reply.
pub open spec fn reply_pieces(t: Turn) -> Seq<Piece> {
    let all = pieces_to(t.items@, t.items@.len() as int);
    if t.open && !text::blank(t.prompt@) {
        all.push(plain_line(cut_off()))
    } else {
        all
    }
}

/// The text of a turn's reply.
pub open spec fn reply_text(t: Turn) -> Seq<char> {
    text::join(texts_to(t.items@, t.items@.len() as int), "\n\n"@)
}

/// The bubbles of a turn: the request, where there was one, and the reply, where there was one.
pub open spec fn turn_bubbles(t: Turn) -> Seq<Bubble> {
    let asked = if text::blank(t.prompt@) {
        Seq::empty()
    } else {
        seq![
            Bubble {
                role: "user"@,
                content: t.prompt@,
                is_streaming: false,
                blocks: Seq::empty(),
            },
        ]
    };
    if reply_pieces(t).len() == 0 {
        asked
    } else {
        asked.push(
            Bubble {
                role: "assistant"@,
                content: reply_text(t),
                is_streaming: false,
                blocks: reply_pieces(t),
            },
        )
    }
}

/// The bubbles of turns, one turn after the other.
pub open spec fn all_bubbles(turns: Seq<Turn>) -> Seq<Bubble>
    decreases turns.len(),
{
    if turns.len() == 0 {
        Seq::empty()
    } else {
        all_bubbles(turns.drop_last()) + turn_bubbles(turns.last())
    }
}

/// The last so many of the turns.
pub open spec fn latest(turns: Seq<Turn>, limit: nat) -> Seq<Turn> {
    if turns.len() <= limit {
        turns
    } else {
        turns.skip(turns.len() - limit)
    }
}

/// A line of text, as a block.
pub fn line(said: &str) -> (r: ContentBlock)
    ensures
        r@ == plain_line(said@),
{
    ContentBlock {
        block_type: "text",
        text: said.to_owned(),
        call: None,
        status: "".to_owned(),
    }
}

fn put(out: &mut Vec<ContentBlock>, block: ContentBlock)
    ensures
        pieces(final(out)@) == pieces(old(out)@) + seq![block@],
{
    let ghost was = pieces(out@);
    let ghost b = block@;
    out.push(block);
    assert(pieces(out@) =~= was + seq![b]);
}

fn put_markdown(out: &mut Vec<ContentBlock>, said: &str)
    ensures
        pieces(final(out)@) == pieces(old(out)@) + markdown::blocks_of(said@).map_values(
            |b: Block| piece_of(b),
        ),
{
    let parsed = parse_blocks(said);
    let ghost was = pieces(out@);
    let ghost all = markdown::blocks_of(said@).map_values(|b: Block| piece_of(b));
    let mut i: usize = 0;
    assert(was =~= was + all.take(0));
    while i < parsed.len()
        invariant
            i <= parsed@.len(),
            all.len() == parsed@.len(),
            forall|k: int| 0 <= k < all.len() ==> #[trigger] all[k] == piece_of(parsed@[k]@),
            pieces(out@) == was + all.take(i as int),
        decreases parsed@.len() - i,
    {
        let b: &ParsedBlock = &parsed[i];
        let call = match &b.call {
            Some(c) => Some(c.copy()),
            None => None,
        };
        let block = ContentBlock {
            block_type: b.block_type,
            text: b.text.clone(),
            call,
            status: "".to_owned(),
        };
        assert(block@ == all[i as int]);
        put(out, block);
        i += 1;
        assert(was + all.take(i as int) =~= was + all.take(i - 1) + seq![all[i - 1]]);
    }
    assert(all.take(i as int) =~= all);
}

/// A turn's reply: its text, and the blocks the bubble draws.
pub fn reply(turn: &Turn) -> (r: (String, Vec<ContentBlock>))
    ensures
        r.0@ == reply_text(*turn),
        pieces(r.1@) == reply_pieces(*turn),
{
    let mut texts: Vec<String> = Vec::new();
    let mut blocks: Vec<ContentBlock> = Vec::new();
    let mut i: usize = 0;
    assert(pieces(blocks@) =~= Seq::<Piece>::empty());
    assert(text::strs(texts@) =~= Seq::<Seq<char>>::empty());
    while i < turn.items.len()
        invariant
            i <= turn.items@.len(),
            pieces(blocks@) == pieces_to(turn.items@, i as int),
            text::strs(texts@) == texts_to(turn.items@, i as int),
        decreases turn.items@.len() - i,
    {
        let ghost was = pieces(blocks@);
        let ghost told = text::strs(texts@);
        match &turn.items[i] {
            Item::Text(said) => {
                if !is_blank(said.as_str()) {
                    put_markdown(&mut blocks, said.as_str());
                    texts.push(said.clone());
                    assert(text::strs(texts@) =~= told.push(said@));
                } else {
                    assert(was + Seq::<Piece>::empty() =~= was);
                }
            },
            Item::Card { call, status } => {
                let card = ContentBlock {
                    block_type: "tool",
                    text: call.summary(),
                    call: Some(call.copy()),
                    status: status.clone(),
                };
                put(&mut blocks, card);
            },
            Item::Note(note) => put(&mut blocks, line(note.as_str())),
            Item::Approval { what, record } => {
                if is_blank(record.as_str()) {
                    put(&mut blocks, line(what.as_str()));
                } else {
                    put(&mut blocks, line(record.as_str()));
                }
            },
            Item::Thinking => {
                assert(was + Seq::<Piece>::empty() =~= was);
            },
        }
        i += 1;
    }
    if turn.open && !is_blank(turn.prompt.as_str()) {
        let ghost was = pieces(blocks@);
        put(
            &mut blocks,
            line(
                "This had not finished when the desktop last stopped; what came of it is in Agents.",
            ),
        );
        assert(pieces(blocks@) =~= was.push(plain_line(cut_off())));
    }
    (joined(texts.as_slice(), "\n\n"), blocks)
}

fn put_turn(out: &mut Vec<MessageData>, turn: &Turn)
    ensures
        bubbled(final(out)@) == bubbled(old(out)@) + turn_bubbles(*turn),
{
    let ghost was = bubbled(out@);
    if !is_blank(turn.prompt.as_str()) {
        let asked = MessageData {
            role: "user",
            content: turn.prompt.clone(),
            is_streaming: false,
            blocks: Vec::new(),
        };
        assert(asked@.blocks =~= Seq::<Piece>::empty());
        out.push(asked);
    }
    let (content, blocks) = reply(turn);
    assert(pieces(blocks@).len() == blocks@.len());
    if blocks.len() > 0 {
        out.push(MessageData { role: "assistant", content, is_streaming: false, blocks });
    }
    assert(bubbled(out@) =~= was + turn_bubbles(*turn));
}

/// The bubbles for the last turns of a conversation, oldest first.
pub fn bubbles(turns: &[Turn], limit: usize) -> (r: Vec<MessageData>)
    ensures
        bubbled(r@) == all_bubbles(latest(turns@, limit as nat)),
{
    let start: usize = if turns.len() > limit {
        turns.len() - limit
    } else {
        0
    };
    let ghost last = latest(turns@, limit as nat);
    let mut out: Vec<MessageData> = Vec::new();
    let mut i: usize = start;
    proof {
        assert(last =~= turns@.skip(start as int));
        assert(last.take(0) =~= Seq::<Turn>::empty());
        assert(bubbled(out@) =~= Seq::<Bubble>::empty());
    }
    while i < turns.len()
        invariant
            start <= i <= turns@.len(),
            last == turns@.skip(start as int),
            bubbled(out@) == all_bubbles(last.take(i - start)),
        decreases turns@.len() - i,
    {
        proof {
            assert(last.take(i + 1 - start).drop_last() =~= last.take(i - start));
            assert(last.take(i + 1 - start).last() == turns@[i as int]);
        }
        put_turn(&mut out, &turns[i]);
        i += 1;
    }
    assert(last.take(i - start) =~= last);
    out
}

/// What an opening Lens is filled with: nothing where it already holds a conversation, and nothing
/// where the mind that answers has none.
pub fn restore_if_empty(held: usize, conversation: Option<&[Turn]>) -> (r: Vec<MessageData>)
    ensures
        bubbled(r@) == match conversation {
            Some(turns) => if held == 0 {
                all_bubbles(latest(turns@, RESTORED_TURNS as nat))
            } else {
                Seq::empty()
            },
            None => Seq::empty(),
        },
{
    if held == 0 {
        if let Some(turns) = conversation {
            return bubbles(turns, RESTORED_TURNS);
        }
    }
    let out: Vec<MessageData> = Vec::new();
    assert(bubbled(out@) =~= Seq::<Bubble>::empty());
    out
}

// ── Laws ────────────────────────────────────────────────────────────

/// No bubble is empty: a request has words in it, and a reply has a block. None is still being
/// written.
pub proof fn law_no_bubble_is_empty(turns: Seq<Turn>)
    ensures
        forall|i: int|
            0 <= i < all_bubbles(turns).len() ==> {
                let b = #[trigger] all_bubbles(turns)[i];
                &&& !b.is_streaming
                &&& (b.role == "user"@ && !text::blank(b.content)) || (b.role == "assistant"@
                    && b.blocks.len() > 0)
            },
    decreases turns.len(),
{
    if turns.len() > 0 {
        let t = turns.drop_last();
        law_no_bubble_is_empty(t);
        let before = all_bubbles(t);
        assert forall|i: int| 0 <= i < all_bubbles(turns).len() implies {
            let b = #[trigger] all_bubbles(turns)[i];
            &&& !b.is_streaming
            &&& (b.role == "user"@ && !text::blank(b.content)) || (b.role == "assistant"@
                && b.blocks.len() > 0)
        } by {
            if i < before.len() {
                assert(all_bubbles(turns)[i] == before[i]);
            } else {
                assert(all_bubbles(turns)[i] == turn_bubbles(turns.last())[i - before.len()]);
            }
        }
    }
}

/// What came before the latest turns does not show.
pub proof fn law_only_the_latest_come_back(older: Seq<Turn>, turns: Seq<Turn>, limit: nat)
    requires
        turns.len() == limit,
    ensures
        latest(older + turns, limit) == turns,
{
    assert(latest(older + turns, limit) =~= turns);
}

/// A turn comes back as what was asked and what was answered: what was asked as it was written, the
/// answer in its blocks, and neither where there was nothing.
pub proof fn law_a_turn_comes_back_as_two_bubbles(t: Turn)
    requires
        !text::blank(t.prompt@),
        !t.open,
    ensures
        ({
            let n = t.items@.len() as int;
            let asked = Bubble {
                role: "user"@,
                content: t.prompt@,
                is_streaming: false,
                blocks: Seq::empty(),
            };
            let answered = Bubble {
                role: "assistant"@,
                content: text::join(texts_to(t.items@, n), "\n\n"@),
                is_streaming: false,
                blocks: pieces_to(t.items@, n),
            };
            &&& pieces_to(t.items@, n).len() > 0 ==> turn_bubbles(t) == seq![asked, answered]
            &&& pieces_to(t.items@, n).len() == 0 ==> turn_bubbles(t) == seq![asked]
        }),
{
    let n = t.items@.len() as int;
    let asked = Bubble {
        role: "user"@,
        content: t.prompt@,
        is_streaming: false,
        blocks: Seq::empty(),
    };
    let answered = Bubble {
        role: "assistant"@,
        content: text::join(texts_to(t.items@, n), "\n\n"@),
        is_streaming: false,
        blocks: pieces_to(t.items@, n),
    };
    assert(seq![asked].push(answered) =~= seq![asked, answered]);
}

/// A turn that had not finished says so at its end, where it was asked for anything.
pub proof fn law_an_unfinished_turn_says_so(t: Turn)
    requires
        t.open,
    ensures
        ({
            let all = pieces_to(t.items@, t.items@.len() as int);
            &&& !text::blank(t.prompt@) ==> reply_pieces(t) == all.push(
                Piece {
                    kind: "text"@,
                    text: "This had not finished when the desktop last stopped; what came of it is in Agents."@,
                    call: None,
                    status: ""@,
                },
            )
            &&& text::blank(t.prompt@) ==> reply_pieces(t) == all
        }),
{
}

/// An answer comes back piece by piece in the order it came in: text as its blocks, a call as its
/// card with how it went, a note as a line, an approval as what was decided, or what was asked where
/// nothing was, and what was only thought not at all.
pub proof fn law_an_answer_comes_back_in_order(items: Seq<Item>, one: Item)
    ensures
        ({
            let n = items.len() as int;
            let line = |s: Seq<char>| Piece { kind: "text"@, text: s, call: None, status: ""@ };
            let more = match one {
                Item::Text(said) => if text::blank(said@) {
                    Seq::empty()
                } else {
                    markdown::blocks_of(said@).map_values(
                        |b: Block| Piece { kind: b.kind, text: b.text, call: b.call, status: ""@ },
                    )
                },
                Item::Card { call, status } => seq![
                    Piece {
                        kind: "tool"@,
                        text: trail::one_line(call@),
                        call: Some(call@),
                        status: status@,
                    },
                ],
                Item::Note(note) => seq![line(note@)],
                Item::Approval { what, record } => seq![
                    line(
                        if text::blank(record@) {
                            what@
                        } else {
                            record@
                        },
                    ),
                ],
                Item::Thinking => Seq::empty(),
            };
            pieces_to(items.push(one), n + 1) == pieces_to(items, n) + more
        }),
{
    lemma_earlier_pieces(items, one, items.len() as int);
    assert(items.push(one)[items.len() as int] == one);
    if let Item::Text(said) = one {
        let f = |b: Block| piece_of(b);
        let g = |b: Block| Piece { kind: b.kind, text: b.text, call: b.call, status: ""@ };
        assert(markdown::blocks_of(said@).map_values(f) =~= markdown::blocks_of(said@).map_values(g));
    }
}

proof fn lemma_earlier_pieces(items: Seq<Item>, one: Item, n: int)
    requires
        0 <= n <= items.len(),
    ensures
        pieces_to(items.push(one), n) == pieces_to(items, n),
        texts_to(items.push(one), n) == texts_to(items, n),
    decreases n,
{
    if n > 0 {
        lemma_earlier_pieces(items, one, n - 1);
        assert(items.push(one)[n - 1] == items[n - 1]);
    }
}

/// The words of an answer are its texts, the blank ones aside, and nothing else.
pub proof fn law_the_words_of_an_answer(items: Seq<Item>, one: Item)
    ensures
        ({
            let n = items.len() as int;
            let before = texts_to(items, n);
            let all = texts_to(items.push(one), n + 1);
            &&& one matches Item::Text(said) ==> all == if text::blank(said@) {
                before
            } else {
                before.push(said@)
            }
            &&& !(one is Text) ==> all == before
        }),
{
    lemma_earlier_pieces(items, one, items.len() as int);
    assert(items.push(one)[items.len() as int] == one);
}

/// A Lens that opens empty is filled with the last twelve turns of its conversation, and one that
/// holds anything is left alone.
pub proof fn law_twelve_turns_come_back(held: usize, turns: &[Turn], r: Vec<MessageData>, none: Vec<MessageData>)
    requires
        call_ensures(restore_if_empty, (held, Some(turns)), r),
        call_ensures(restore_if_empty, (held, None::<&[Turn]>), none),
    ensures
        held > 0 ==> r@.len() == 0,
        held == 0 && turns@.len() <= 12 ==> bubbled(r@) == all_bubbles(turns@),
        held == 0 && turns@.len() > 12 ==> bubbled(r@) == all_bubbles(
            turns@.skip(turns@.len() - 12),
        ),
        none@.len() == 0,
{
    assert(bubbled(r@).len() == r@.len());
    assert(bubbled(none@).len() == none@.len());
}

} // verus!
