//! Markdown blocks, and how they are drawn.
use yantrik_ui::markdown::{opens_fence, parse_blocks, strip_inline, styled};

#[test]
fn a_tool_call_in_an_answer_is_its_own_block_with_its_arguments_on_it() {
    let blocks = parse_blocks(
        "Making it now.\n⚙️ os_act studio.generate {\"args\":{\"prompt\":\"a red kite\"}}\n\nDone: one picture.",
    );
    let kinds: Vec<&str> = blocks.iter().map(|b| b.block_type).collect();
    assert_eq!(kinds, vec!["text", "tool", "text"], "{kinds:?}");
    assert_eq!(blocks[1].text, "os_act studio.generate prompt=\"a red kite\"");
    assert_eq!(blocks[2].text, "Done: one picture.");
}

#[test]
fn a_tool_calls_whole_arguments_ride_with_the_block_and_prose_has_none() {
    let blocks = parse_blocks("⚙️ os_act notes.new_note {\"args\":{\"body\":\"the whole body\"}}\n\nSaved.");
    let call = blocks[0].call.as_ref().expect("a tool block carries its call");
    assert!(call.detail().contains("\"body\": \"the whole body\""));
    assert!(blocks[1].call.is_none());
}

/// Hermes' verbose form puts the arguments on the line after the call. They belong to the
/// call, not to the paragraph.
#[test]
fn arguments_on_the_next_line_are_not_shown_as_a_paragraph_of_json() {
    let blocks = parse_blocks(
        "⚙️ mcp_yantrik_os_os_act(['app', 'action', 'args'])\n{\"app\": \"studio\", \"action\": \"generate\", \"args\": {\"prompt\": \"a red kite\"}}\nDone.",
    );
    let kinds: Vec<&str> = blocks.iter().map(|b| b.block_type).collect();
    assert_eq!(kinds, vec!["tool", "text"], "{kinds:?}");
    assert_eq!(blocks[0].text, "mcp_yantrik_os_os_act studio.generate prompt=\"a red kite\"");
}

#[test]
fn a_gear_inside_a_code_fence_stays_code() {
    let blocks = parse_blocks("```\n⚙️ os_apps\n```");
    assert_eq!(blocks.len(), 1);
    assert_eq!(blocks[0].block_type, "code");
}

#[test]
fn each_block_keeps_its_markdown_beside_its_plain_text() {
    let blocks = parse_blocks(
        "## Strongest **point**\n\nThe **How:** is *slow* and `cargo test`\nruns it.\n\n\
         - one **bold** item\n- two\n1. first\n\n```\nlet x = **y**;\n```",
    );
    let kinds: Vec<&str> = blocks.iter().map(|b| b.block_type).collect();
    assert_eq!(kinds, vec!["heading", "text", "bullet", "code"], "{kinds:?}");
    assert_eq!((blocks[0].text.as_str(), blocks[0].markdown.as_str()), ("Strongest point", "Strongest **point**"));
    assert_eq!(blocks[1].text, "The How: is slow and cargo test runs it.");
    assert_eq!(blocks[1].markdown, "The **How:** is *slow* and `cargo test` runs it.");
    assert_eq!(blocks[2].text, "\u{2022} one bold item\n\u{2022} two\n1. first");
    assert_eq!(blocks[2].markdown, "\u{2022} one **bold** item\n\u{2022} two\n1. first");
    assert_eq!((blocks[3].text.as_str(), blocks[3].markdown.as_str()), ("let x = **y**;", "let x = **y**;"));
}

/// What `StyledText` holds, as far as a test can see it: its Debug form names each span's style.
fn styles(text: &slint::StyledText) -> String {
    format!("{text:?}")
}

#[test]
fn a_paragraph_and_a_list_are_drawn_with_their_bold_italic_and_code() {
    let blocks = parse_blocks("The **How:** is *slow* and `cargo` runs.\n\n- one **bold**\n- two");
    let prose = styled(&blocks[0]);
    for style in ["Strong", "Emphasis", "Code"] {
        assert!(styles(&prose).contains(style), "{style} missing: {prose:?}");
    }
    assert_ne!(prose, slint::StyledText::from_plain_text(&blocks[0].text), "it is not the plain text");
    let list = styled(&blocks[1]);
    assert!(styles(&list).contains("Strong"), "{list:?}");
    assert!(styles(&list).contains("\u{2022} two"), "each item is its own line: {list:?}");
}

/// Mid-stream a paragraph can end inside a marker. The unclosed `**` is text — the layout is the
/// text's, nothing is held back — and the chunk that closes it makes the run bold.
#[test]
fn an_unclosed_marker_mid_stream_is_text_until_it_closes() {
    let partial = parse_blocks("It is **very");
    assert_eq!(partial.len(), 1);
    let drawn = styled(&partial[0]);
    assert_eq!(drawn, slint::StyledText::from_plain_text("It is **very"), "{drawn:?}");
    let also = styled(&parse_blocks("Run `cargo")[0]);
    assert_eq!(also, slint::StyledText::from_plain_text("Run `cargo"), "{also:?}");
    let closed = styled(&parse_blocks("It is **very** slow")[0]);
    assert!(styles(&closed).contains("Strong"), "{closed:?}");
}

/// What `StyledText` refuses — raw HTML, a block quote — is still drawn: as the plain text the
/// Lens shows. And a heading or a code block is never read as markup.
#[test]
fn what_styled_text_cannot_take_falls_back_to_the_plain_text() {
    for source in ["a <div>b</div> **c**", "> quoted **here**"] {
        let block = &parse_blocks(source)[0];
        assert_eq!(styled(block), slint::StyledText::from_plain_text(&block.text), "{source}");
    }
    let code = &parse_blocks("```\n**not bold**\n```")[0];
    assert_eq!(styled(code), slint::StyledText::from_plain_text("**not bold**"));
    let heading = &parse_blocks("# A `title`")[0];
    assert_eq!(styled(heading), slint::StyledText::from_plain_text("A title"));
}

#[test]
fn inline_markers_come_out_in_pairs() {
    assert_eq!(strip_inline("a **b** *c* `d`"), "a b c d");
    assert_eq!(strip_inline("2 * 3"), "2 * 3");
    assert_eq!(strip_inline("**open"), "**open");
    assert!(opens_fence("  ```rust") && !opens_fence("`` x"));
}

/// Markers alone make no block, and nothing of them enters the code behind them.
#[test]
fn a_line_of_markers_before_a_fence_does_not_enter_the_code() {
    let blocks = parse_blocks("****\n```\na\n```");
    let last = blocks.last().unwrap();
    assert_eq!((last.block_type, last.text.as_str(), last.markdown.as_str()), ("code", "a", "a"));
    assert_eq!(blocks.len(), 1);
    let blocks = parse_blocks("****\n\nb **c**");
    assert_eq!((blocks[0].text.as_str(), blocks[0].markdown.as_str()), ("b c", "b **c**"));
    for source in ["``\n```\n**x**\n```\n\u{2699} os_apps", "```\n\n  y"] {
        for block in parse_blocks(source).iter().filter(|b| b.block_type == "code" || b.block_type == "tool") {
            assert_eq!(block.text, block.markdown, "{source}");
        }
    }
}
