//! The conversation the Lens opens on.
use yantrik_ui::json::{parse, Json};
use yantrik_ui::lens_history::{bubbles, reply, restore_if_empty, Item, MessageData, Turn, RESTORED_TURNS};
use yantrik_ui::trail::ToolCall;

/// The JSON a text spells.
fn j(text: &str) -> Json {
    parse(text).expect("a JSON text")
}

fn turn(prompt: &str, items: Vec<Item>, ended: bool) -> Turn {
    Turn { prompt: prompt.into(), items, open: !ended }
}

fn kinds(m: &MessageData) -> Vec<String> {
    m.blocks.iter().map(|b| b.block_type.to_string()).collect()
}

#[test]
fn a_turn_becomes_the_request_and_the_reply_with_its_calls_as_cards() {
    let card = Item::Card {
        call: ToolCall {
            name: "os_act".into(),
            target: "notes.create".into(),
            args: Some(j(r#"{"app": "notes", "action": "create", "title": "Market status"}"#)),
        },
        status: "done".into(),
    };
    let turns = vec![turn(
        "Create a note for tomorrow's market status meeting",
        vec![card, Item::Text("Done. **Market status** is in Notes:\n\n- agenda\n- owners".into())],
        true,
    )];
    let b = bubbles(&turns, RESTORED_TURNS);
    assert_eq!(b.len(), 2, "the request and the reply");
    assert_eq!(b[0].role, "user");
    assert_eq!(b[0].content, "Create a note for tomorrow's market status meeting");
    assert_eq!(b[1].role, "assistant");
    assert!(!b[1].is_streaming, "a restored reply is finished, not streaming");
    assert_eq!(kinds(&b[1]), vec!["tool", "text", "bullet"], "the call as a card, then the text as markdown");
    let call = &b[1].blocks[0];
    assert_eq!(call.call.as_ref().unwrap().name, "os_act");
    assert!(call.text.contains("notes.create"), "the card's line names what it touched: {}", call.text);
    assert_eq!(call.status, "done");
}

#[test]
fn only_the_latest_turns_come_back_oldest_first() {
    let turns: Vec<Turn> =
        (1..=20).map(|n| turn(&format!("question {n}"), vec![Item::Text("answer".into())], true)).collect();
    let b = bubbles(&turns, 3);
    let asked: Vec<String> = b.iter().filter(|m| m.role == "user").map(|m| m.content.to_string()).collect();
    assert_eq!(asked, vec!["question 18", "question 19", "question 20"]);
}

#[test]
fn a_turn_the_shell_stopped_in_the_middle_of_says_so() {
    let turns = vec![turn("create a small town model", vec![Item::Text("Starting on the terrain.".into())], false)];
    let b = bubbles(&turns, RESTORED_TURNS);
    let last = b[1].blocks.last().unwrap();
    assert!(last.text.contains("had not finished"), "the reply ends by saying it was cut off: {}", last.text);
}

#[test]
fn a_turn_with_nothing_said_draws_no_empty_reply() {
    let turns = vec![turn("hello", vec![Item::Thinking], true)];
    let b = bubbles(&turns, RESTORED_TURNS);
    assert_eq!(b.len(), 1, "the request alone; thinking is not a reply");
}

#[test]
fn notes_and_approvals_are_lines_and_texts_are_one_text() {
    let items = vec![
        Item::Text("one".into()),
        Item::Text("  ".into()),
        Item::Note("noted".into()),
        Item::Approval { what: "files.move".into(), record: " ".into() },
        Item::Approval { what: "files.move".into(), record: "Allowed once: files.move".into() },
        Item::Text("two".into()),
    ];
    let (text, blocks) = reply(&turn("x", items, true));
    assert_eq!(text, "one\n\ntwo");
    let lines: Vec<&str> = blocks.iter().map(|b| b.text.as_str()).collect();
    assert_eq!(lines, ["one", "noted", "files.move", "Allowed once: files.move", "two"]);
    assert!(blocks.iter().all(|b| b.block_type == "text" && b.call.is_none()));
}

/// A Lens that already holds a conversation keeps it.
#[test]
fn a_lens_in_use_is_left_alone() {
    let turns = vec![turn("hello", vec![], true)];
    assert_eq!(restore_if_empty(0, Some(&turns)).len(), 1);
    assert_eq!(restore_if_empty(2, Some(&turns)).len(), 0);
    assert_eq!(restore_if_empty(0, None).len(), 0);
}
