//! Asking the person: what a caller may ask, what the person is shown, and what their answer does.
use yantrik_ui::approvals::{Status, Store, GRANT_TTL, REQUEST_TTL};
use yantrik_ui::caller_identity::{identify, Mind, ProcessFacts};
use yantrik_ui::clock::SECOND;
use yantrik_ui::control_approvals::{
    allow_for_session, app_key, args_of_text, audit_rows, bypass_chosen, card_for, consumed_answer, fingerprint, kind_of,
    mode_chosen, mode_fingerprint, pending_for_describe, publish, published_detail, recorded_answer, requested_answer, required, respond,
    rule_rows, set_mind_mode, settle_grade, show_mind_audit, spending, status_answer, surface_for, surface_of_key, text_of,
    unasked, wanted, who_is_asking, window_in_front, with_note, Card, Inquiry, Response, ScreenOwed, Shown, Verified,
};
use yantrik_ui::json::{number, parse, render, Json};
use yantrik_ui::mind_mode::{record, Bypass, Decision, Mode, Modes};

/// The JSON a text spells.
fn j(text: &str) -> Json {
    parse(text).expect("a JSON text")
}

fn card(id: &str, status: Status, age_secs: u64) -> Card {
    Card {
        id: id.into(),
        requester: "hermes".into(),
        verified: Verified::default(),
        app: "calendar".into(),
        action: "delete_event".into(),
        grade: "standard".into(),
        purpose: String::new(),
        args: vec!["id: evt-3".into()],
        warning: String::new(),
        can_session: true,
        status,
        record: String::new(),
        age_secs,
    }
}

#[test]
fn an_argument_is_read_in_whatever_shape_it_came() {
    assert_eq!(text_of(None), "");
    assert_eq!(text_of(Some(&Json::Null)), "");
    assert_eq!(text_of(Some(&Json::Str("  a ".into()))), "a");
    assert_eq!(text_of(Some(&number(15))), "15");
    assert_eq!(text_of(Some(&Json::Bool(true))), "true");
    assert_eq!(required(&j(r#"{"app": 7}"#), "app"), Ok("7".to_string()));
    assert_eq!(required(&j(r#"{"app": " "}"#), "app").unwrap_err(), "`app` is required and was empty");
    for (value, word) in [
        ("null", "null"),
        ("true", "a boolean"),
        ("1", "a number"),
        ("\"x\"", "a string"),
        ("[]", "an array"),
        ("{}", "an object"),
    ] {
        assert_eq!(kind_of(&j(value)), word);
    }
    assert_eq!(
        args_of_text(Err("no".into())).unwrap_err(),
        "`args_json` is not JSON: no. Send the action's arguments as an object, e.g. {\"id\": \"evt-3\"}."
    );
    assert!(args_of_text(Ok(j("[]"))).unwrap_err().starts_with("`args_json` parsed as an array, not an object."));
    assert_eq!(args_of_text(Ok(j(r#"{"a": 1}"#))), Ok(j(r#"{"a": 1}"#)));
}

/// A grade nobody published is not acted on, whatever the reason it is not known.
#[test]
fn a_grade_is_the_apps_own_or_none() {
    let reply = j(
        r#"{"actions": [{"name": "a", "permission": "safe"}, {"name": "b", "permission": "dangerous", "description": "Erase it"}]}"#,
    );
    let found = settle_grade("cal", "b", "standard", &Inquiry::Described(reply)).unwrap();
    assert_eq!((found.grade.as_str(), found.purpose.as_str()), ("dangerous", "Erase it"));
    assert_eq!(found.note, "Caller said `standard`; the app publishes `dangerous`.");
    let own = settle_grade("shell", "lock", "Sensitive", &Inquiry::Shell(Some("sensitive".into()))).unwrap();
    assert_eq!((own.note.as_str(), own.purpose.as_str()), ("", ""));
    let refusals = [
        (Inquiry::NoApp, "there is no app called `cal` on this desktop"),
        (Inquiry::Shell(None), "`shell` publishes no action called `b`"),
        (Inquiry::Down, "`cal` is not running"),
        (Inquiry::NoAnswer("timeout".into()), "`cal` did not say what `b` is graded (timeout)"),
        (Inquiry::Described(j("{}")), "`cal` publishes no action called `b`"),
        (Inquiry::Described(j(r#"{"actions": [{"name": "b"}]}"#)), "`cal` publishes no action called `b`"),
    ];
    for (inquiry, why) in refusals {
        let err = published_detail("cal", "b", &inquiry).unwrap_err();
        assert!(err.starts_with(why), "{err}");
    }
}

#[test]
fn an_app_answers_where_it_is_routed_or_runs() {
    let running = vec!["notes".to_string()];
    assert_eq!(app_key("  NOTES "), "notes");
    assert_eq!(surface_for(" ", None, &running), None);
    assert_eq!(surface_for("Yantrik", Some("x".into()), &running), Some("shell".to_string()));
    assert_eq!(surface_for("mail", Some("email".into()), &running), Some("email".to_string()));
    assert_eq!(surface_for("Notes", None, &running), Some("notes".to_string()));
    assert_eq!(surface_of_key("Notes", None, &running), None, "a key is in small letters");
}

#[test]
fn a_caller_is_who_the_machine_says() {
    let nobody = who_is_asking("hermes", None, &[]);
    assert_eq!((nobody.line.as_str(), nobody.pid), ("could not be identified", 0));
    let minds = vec![Mind { id: "hermes".into(), name: "Hermes Agent".into() }];
    let stranger = ProcessFacts { pid: 42, exe: "/usr/bin/curl".into(), short_cmdline: "curl".into(), started: 1 };
    let id = identify(vec![stranger], &minds);
    let v = who_is_asking("Hermes Agent", Some(&id), &minds);
    assert_eq!((v.exe.as_str(), v.pid), ("/usr/bin/curl", 42));
    assert_eq!(v.discrepancies.len(), 1, "it borrowed an attached mind's name");
    let noted = with_note(v, "and the grade is wrong");
    assert_eq!(noted.discrepancies[1], "and the grade is wrong");
    assert_eq!(with_note(Verified::default(), "").discrepancies.len(), 0);
}

/// The published grade is what counts, and only what the table says to ask is asked.
#[test]
fn a_request_is_answered_as_the_table_says() {
    for (args, why) in [
        (r#"{}"#, "`app` is required and was empty"),
        (r#"{"app": "cal"}"#, "`action` is required and was empty"),
        (r#"{"app": "cal", "action": "b"}"#, "`grade` is required and was empty"),
        (
            r#"{"app": "cal", "action": "b", "grade": "safe", "args_json": 3}"#,
            "`args_json` arrived as a number, not an object or a JSON string.",
        ),
    ] {
        assert_eq!(wanted(&j(args)).unwrap_err(), why);
    }
    let w = wanted(&j(r#"{"app": "cal", "action": "b", "grade": "safe"}"#)).unwrap();
    assert_eq!((w.requester.as_str(), w.args), ("an unnamed caller", j("{}")));
    let w = wanted(&j(r#"{"app": "cal", "action": "b", "grade": "safe"}"#)).unwrap();
    let ask = Modes::new(Mode::Ask);
    match respond(&w, "sensitive", "Delete it", &ask, "dangerous", 0) {
        Response::Ask { purpose } => assert_eq!(purpose, "Delete it"),
        _ => panic!("a sensitive action is asked about"),
    }
    match respond(&w, "safe", "", &ask, "dangerous", 0) {
        Response::NotNeeded(answer) => {
            assert_eq!(answer.get("status"), Some(&Json::Str("not_needed".into())));
            assert_eq!(answer.get("mode"), Some(&Json::Str("ask".into())));
        }
        _ => panic!("a safe action is not"),
    }
    match respond(&w, "sensitive", "", &ask, "standard", 0) {
        Response::Refused(why) => assert!(why.contains("does not allow callers like this past standard"), "{why}"),
        _ => panic!("the ceiling is above every mode"),
    }
}

#[test]
fn a_request_is_polled_and_its_grant_spent() {
    assert_eq!(REQUEST_TTL / SECOND, 120);
    let asked = requested_answer("appr-1", Status::Pending);
    assert_eq!(asked.get("expires_in_secs"), Some(&number(120)));
    let waiting = status_answer("appr-1", Some(Status::Pending), Some(20)).unwrap();
    assert_eq!(render(&waiting), r#"{"age_secs":20,"expires_in_secs":100,"request_id":"appr-1","status":"pending"}"#);
    let late = status_answer("appr-1", Some(Status::Pending), Some(500)).unwrap();
    assert_eq!(late.get("expires_in_secs"), Some(&number(0)));
    let denied = status_answer("appr-1", Some(Status::Denied), Some(20)).unwrap();
    assert_eq!(denied.get("expires_in_secs"), None);
    assert!(status_answer("appr-9", None, None).unwrap_err().starts_with("no approval request `appr-9`"));
    assert_eq!(spending(&j("{}")).unwrap_err(), "`request_id` is required and was empty");
    assert_eq!(spending(&j(r#"{"request_id": "appr-1"}"#)).unwrap_err(), "`app` is required and was empty");
    assert_eq!(
        spending(&j(r#"{"request_id": "appr-1", "app": "cal"}"#)).unwrap_err(),
        "`action` is required and was empty"
    );
    let s = spending(&j(r#"{"request_id": "appr-1", "app": "cal", "action": "b", "args_json": "{\"id\": 1}"}"#)).unwrap();
    assert_eq!(s.args, j(r#"{"id": 1}"#));
    assert_eq!(consumed_answer("appr-1", "cal", "b").get("authorises"), Some(&Json::Str("cal.b".into())));
}

#[test]
fn a_caller_may_only_tighten() {
    let mut modes = Modes::new(Mode::Ask);
    assert_eq!(set_mind_mode(&j("{}"), &mut modes, 0).unwrap_err(), "`mode` is required and was empty");
    assert!(set_mind_mode(&j(r#"{"mode": "loud"}"#), &mut modes, 0).is_err());
    assert!(set_mind_mode(&j(r#"{"mode": "bypass"}"#), &mut modes, 0).is_err());
    assert!(set_mind_mode(&j(r#"{"mode": "auto"}"#), &mut modes, 0).is_err());
    assert_eq!(modes.mode(0), Mode::Ask);
    let down = set_mind_mode(&j(r#"{"mode": "plan"}"#), &mut modes, 0).unwrap();
    assert_eq!(down.get("mode"), Some(&Json::Str("plan".into())));
    assert_eq!(modes.mode(0), Mode::Plan);
}

#[test]
fn what_ran_unasked_is_named_and_withheld_from_a_locked_screen() {
    let u = unasked(&j(r#"{"app": "cal", "action": "b", "grade": "safe"}"#), Mode::Auto).unwrap();
    assert_eq!((u.mode.as_str(), u.requester.as_str(), u.outcome.as_str()), ("auto", "an unnamed caller", "not reported"));
    assert!(unasked(&j("{}"), Mode::Auto).is_err());
    let entry = record(&mut Vec::new(), "12:03", 1, &u.mode, &u.requester, &u.app, &u.action, &u.args, &u.grade, &u.outcome);
    assert_eq!(render(&recorded_answer(&entry)), "{\"recorded\":\"12:03 \u{b7} cal.b \u{2014} not reported\"}");
    for shut in [0, 2, 3, 32] {
        assert!(show_mind_audit(shut, 4).is_err());
    }
    assert_eq!(show_mind_audit(1, 4).unwrap().get("entries"), Some(&number(4)));
}

/// Exactly one line, and not the shell's, or nothing is known.
#[test]
fn a_window_is_given_the_screen_back_once() {
    assert_eq!(window_in_front(": Notes\n\n", "Yantrik OS"), Some("Notes".to_string()));
    assert_eq!(window_in_front("Notes\n", "Yantrik OS"), Some("Notes".to_string()));
    assert_eq!(window_in_front("a: Notes\nb: Files\n", "Yantrik OS"), None);
    assert_eq!(window_in_front("", "Yantrik OS"), None);
    assert_eq!(window_in_front("x: Yantrik OS", "Yantrik OS"), None);
    let mut owed = ScreenOwed::new();
    assert_eq!(owed.give_back(), None);
    owed.take(Some("Notes".into()));
    owed.take(Some("Yantrik OS".into()));
    assert_eq!(owed.give_back(), Some("Notes".to_string()));
    assert_eq!(owed.give_back(), None);
    owed.take(None);
    owed.take(Some("Files".into()));
    assert_eq!(owed.give_back(), Some("Files".to_string()));
}

#[test]
fn one_card_waits_in_front_and_the_rest_behind_a_count() {
    let cards = vec![
        card("appr-1", Status::Denied, 60),
        card("appr-2", Status::Pending, 5),
        card("appr-3", Status::Pending, 3),
    ];
    let on = publish(&cards);
    let shown: Vec<&str> = on.shown.iter().map(|r| r.id.as_str()).collect();
    assert_eq!(shown, ["appr-1", "appr-2"]);
    assert_eq!((on.in_front.len(), on.in_front[0].id.as_str(), on.behind, on.give_back), (1, "appr-2", 1, false));
    let settled = publish(&cards[..1]);
    assert_eq!((settled.in_front.len(), settled.behind, settled.give_back), (0, 0, true));
    assert_eq!(fingerprint(&cards), "appr-1:denied:0|appr-2:pending:5|appr-3:pending:3");
    assert!(render(&pending_for_describe(&cards[1..])).contains("appr-3"));
    let mut shown = Shown::new();
    assert!(shown.changed(fingerprint(&cards)));
    assert!(!shown.changed(fingerprint(&cards)), "a tick that changes nothing repaints nothing");
    assert!(shown.changed(String::new()));
}

#[test]
fn the_menu_shows_the_rules_and_the_newest_first() {
    let mut modes = Modes::new(Mode::Auto);
    modes.person_add_rule("notes", "add", "standard", "Add a note").unwrap();
    let rows = rule_rows(&modes);
    assert_eq!((rows[0].label.as_str(), rows[0].app.as_str(), rows[0].action.as_str()), ("notes.add", "notes", "add"));
    let mut list = Vec::new();
    record(&mut list, "18:30", 1, "auto", "pi", "notes", "add", &j(r#"{"a": 1, "b": 2}"#), "safe", "ok");
    record(&mut list, "18:31", 2, "auto", "pi", "notes", "open", &j("{}"), "safe", "ok");
    let rows = audit_rows(&list);
    assert_eq!((rows[0].what.as_str(), rows[1].what.as_str()), ("notes.open", "notes.add"));
    assert_eq!(rows[1].args, "a: 1  b: 2");
    assert!(mode_fingerprint(&modes, &list, 0).ends_with("|notes.add|2"));
    assert_eq!(mode_chosen("plan"), Some(Mode::Plan));
    assert_eq!(mode_chosen("bypass"), None, "one press does not enter it");
    assert_eq!(bypass_chosen("1h"), Some(Bypass::Hour));
    assert_eq!(bypass_chosen("forever"), None);
}

/// The grant comes first, and a rule that is refused does not take it back.
#[test]
fn allowing_for_the_session_grants_once_and_makes_a_rule() {
    let mut store = Store::new();
    let mut modes = Modes::new(Mode::Ask);
    let args = j(r#"{"id": "evt-3"}"#);
    let ask = |store: &mut Store, action: &str, purpose: &str| {
        store.request("hermes", "cal", action, j(r#"{"id": "evt-3"}"#), "standard", purpose, 0, "18:30").unwrap().id
    };
    let id = ask(&mut store, "move", "Move it");
    assert_eq!(card_for(store.card(&id, 0).unwrap(), Verified::default()).args, ["id: evt-3"]);
    assert_eq!(allow_for_session(&mut store, &mut modes, &id, SECOND, "18:31"), Ok(None));
    assert_eq!(store.status(&id, SECOND), Some(Status::Granted));
    assert_eq!(modes.rules().len(), 1);
    assert_eq!(modes.decide("sensitive", "cal", "move", "dangerous", SECOND), Decision::Run { unasked: true });
    assert_eq!(modes.decide("sensitive", "cal", "erase", "dangerous", SECOND), Decision::Ask);
    assert!(allow_for_session(&mut store, &mut modes, &id, SECOND, "18:31").is_err(), "a decision is final");
    assert!(store.consume(&id, "cal", "move", &args, 2 * SECOND).is_ok());

    let last = ask(&mut store, "erase", "Erase it. This cannot be undone.");
    let no_rule = allow_for_session(&mut store, &mut modes, &last, SECOND, "18:31").unwrap().unwrap();
    assert!(no_rule.starts_with("`cal.erase` cannot be allowed for a whole session"), "{no_rule}");
    assert_eq!(store.status(&last, SECOND), Some(Status::Granted), "the one action is granted all the same");
    assert_eq!(store.status(&last, SECOND + GRANT_TTL), Some(Status::Expired));
    assert_eq!(modes.rules().len(), 1);
    assert!(allow_for_session(&mut store, &mut modes, "appr-99", SECOND, "18:31").is_err());
    assert_eq!(store.card("appr-99", 0).map(|c| c.id), None);
}
