//! Asking the person: what is asked, on which grade, and what a card shows.
use yantrik_ui::approvals::{canonical, unrecoverable, Status};
use yantrik_ui::clock::SECOND;
use yantrik_ui::control_approvals::{args_value, grade_note, row_for, Card, Verified, NOTE_CHARS};
use yantrik_ui::json::{parse, Json};
use yantrik_ui::mind_mode::{Decision, Mode, Modes};

/// Some moment, in nanoseconds.
const NOW: u64 = 1_000_000 * SECOND;

/// The JSON a text spells.
fn j(text: &str) -> Json {
    parse(text).expect("a JSON text")
}

/// The grade a caller declares is checked against the one the app publishes.
#[test]
fn approvals_an_understated_grade_is_corrected_and_said_out_loud() {
    let said = grade_note("standard", "dangerous");
    assert!(said.contains("standard"), "{said}");
    assert!(said.contains("dangerous"), "{said}");
    assert!(said.chars().count() <= NOTE_CHARS + 1, "{said}");
    assert!(!said.contains('\n'), "one card row: {said}");

    // Over-declaring is said too — the card is about to show a grade the caller did not name
    // and a person comparing the two should not have to wonder which is which.
    assert!(!grade_note("dangerous", "standard").is_empty());

    // Agreement is silent, in either spelling. The bridge sends the app's own grade, so this
    // is the ordinary path and it must add nothing to the card.
    assert_eq!(grade_note("sensitive", "sensitive"), "");
    assert_eq!(grade_note(" Sensitive ", "sensitive"), "");
}

#[test]
fn approvals_the_shell_asks_only_what_the_decision_table_says_to_ask() {
    // Every outcome the shared vectors name,
    // at least once each: what the mode decides, and what this handler does about it.
    let cases: [(&str, Mode, &str, &str, &str); 6] = [
        // outcome         mode         ceiling      published grade  what the shell does
        ("run", Mode::Auto, "dangerous", "standard", "no card"),
        // `auto` runs a `sensitive` action without asking, and `ask` mode would have raised
        // a card for it — which is exactly what `run_logged` means and what the audit is
        // for. Not driven through `bypass` here because `Modes::new` refuses to construct
        // one: a machine must never come up in bypass, so only a person's click enters it.
        ("run_logged", Mode::Auto, "dangerous", "sensitive", "no card"),
        ("ask", Mode::Ask, "dangerous", "sensitive", "card"),
        ("refuse_grade", Mode::Ask, "dangerous", "catastrophic", "refused"),
        ("refuse_ceiling", Mode::Auto, "standard", "dangerous", "refused"),
        ("refuse_mode", Mode::Plan, "dangerous", "standard", "refused"),
    ];

    for (outcome, mode, ceiling, published, expected) in cases {
        let modes = Modes::new(mode);
        let decision =
            modes.decide_knowing(published, "calendar", "delete_event", false, ceiling, NOW);

        // The shape `request_approval` branches on. Kept beside the table it is derived from
        // so a fourth outcome cannot be added to `decide` without this failing to classify.
        let did = match &decision {
            Decision::Refuse { .. } => "refused",
            Decision::Run { .. } => "no card",
            Decision::Ask => "card",
        };
        assert_eq!(
            did, expected,
            "`{outcome}` (mode {mode:?}, ceiling {ceiling}, graded {published}) must be \
             {expected}, and the handler branches on exactly these three variants"
        );

        // And a refusal is relayed word for word, never reworded into something a mind
        // would read as a transport failure worth retrying.
        if let Decision::Refuse { why } = &decision {
            assert!(!why.is_empty());
            assert!(
                why.contains("not a level this OS defines")
                    || why.contains("tool_permission")
                    || why.contains("plan mode"),
                "a refusal this handler relays has to be one of the three the table makes: \
                 {why}"
            );
        }
    }

    // The whole point of looking the grade up: a `dangerous` action declared `standard` is
    // decided as `dangerous`. Declared, it would have been run without a card in auto mode;
    // published, the same machine refuses it outright under a `standard` ceiling.
    let auto = Modes::new(Mode::Auto);
    let claimed = auto.decide_knowing("standard", "files", "delete", false, "standard", NOW);
    let published =
        auto.decide_knowing("dangerous", "files", "delete", false, "standard", NOW);
    assert!(matches!(claimed, Decision::Run { .. }), "what the lie would have bought");
    assert!(
        matches!(&published, Decision::Refuse { why } if why.contains("tool_permission")),
        "and what the published grade actually decides: {published:?}"
    );
    assert!(!grade_note("standard", "dangerous").is_empty(), "and the card says so");

    let unsaid = auto.decide_knowing("sensitive", "calendar", "delete_event", false, "dangerous", NOW);
    let published = auto.decide_knowing("sensitive", "calendar", "delete_event", true, "dangerous", NOW);
    assert!(matches!(unsaid, Decision::Run { .. }), "what saying nothing would have bought");
    assert_eq!(published, Decision::Ask, "and what the app's own sentence decides");
    assert!(
        unrecoverable("Take an event off the calendar. It is not recoverable"),
        "which is the sentence Calendar actually publishes today"
    );
}

#[test]
fn approvals_an_unidentified_caller_never_renders_a_blank_row() {
    let card = |verified: Verified| Card {
        id: "appr-1".into(),
        requester: "an unnamed caller".into(),
        verified,
        app: "files".into(),
        action: "delete".into(),
        grade: "dangerous".into(),
        purpose: "Delete a file. It is not recoverable.".into(),
        args: vec!["name: taxes.pdf".into()],
        warning: "The app says this cannot be undone.".into(),
        can_session: false,
        status: Status::Pending,
        record: String::new(),
        age_secs: 3,
    };

    let nothing = row_for(&card(Verified::default()));
    assert_eq!(nothing.verified, "could not be identified");
    assert_eq!(nothing.discrepancies.len(), 0);

    let known = row_for(&card(Verified {
        line: "hermes_cli gateway (pid 696) \u{b7} the attached mind".into(),
        exe: "/home/pranab/hermes-agent/venv/bin/python".into(),
        pid: 696,
        attached_mind: "Hermes Agent".into(),
        discrepancies: vec![
            "\u{201c}Hermes Agent\u{201d} is attached here \u{2014} this is not it.".into(),
            "The caller called this `standard`; the app publishes `dangerous`.".into(),
        ],
    }));
    assert!(known.verified.contains("pid 696"), "{}", known.verified);
    // Both disagreements survive. Concatenating them into one elided row would have shown
    // the first and silently dropped the one that changes what the machine does.
    assert_eq!(known.discrepancies.len(), 2);
    // Every row is one line: the card's height is arithmetic, not a measurement.
    assert!(!known.verified.contains('\n'));
    for i in 0..known.discrepancies.len() {
        let row = &known.discrepancies[i];
        assert!(!row.contains('\n'), "{row}");
    }
}

/// The arguments a grant binds to survive both ways they can arrive.
#[test]
fn approvals_args_json_is_accepted_as_object_or_string() {
    let as_object = j(r#"{"id": "evt-3", "confirm": true}"#);
    let as_string = Json::Str(r#"{"confirm":true,"id":"evt-3"}"#.into());

    let from_object = args_value(Some(&as_object)).expect("an object is what yos act sends");
    let from_string = args_value(Some(&as_string)).expect("a string is what raw JSON-RPC sends");
    assert_eq!(
        canonical(&from_object),
        canonical(&from_string),
        "the two transports have to bind to the same grant"
    );

    assert_eq!(args_value(None).unwrap(), j(r#"{}"#));
    assert_eq!(
        args_value(Some(&Json::Str(String::new()))).unwrap(),
        j(r#"{}"#)
    );

    let err = args_value(Some(&Json::Str("[1,2]".into())))
        .expect_err("a list is not a set of named arguments");
    assert!(err.contains("not an object"), "{err}");

    let err = args_value(Some(&Json::Str("id=evt-3".into())))
        .expect_err("key=value is not JSON");
    assert!(err.contains("not JSON"), "{err}");
}
