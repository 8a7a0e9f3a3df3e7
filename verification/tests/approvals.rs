//! Requests, grants and refusals.
use yantrik_ui::approvals::{
    args_lines, args_rows, canonical, may_offer_session_rule, warning_for, Requested, Status, Store, DENIAL_QUIET, GRANT_TTL, MAX_PENDING, REQUEST_TTL,
};
use yantrik_ui::clock::SECOND;
use yantrik_ui::json::{parse, Json};

/// Some moment, in nanoseconds.
const NOW: u64 = 1_000_000 * SECOND;

/// The JSON a text spells.
fn j(text: &str) -> Json {
    parse(text).expect("a JSON text")
}

/// A fresh store per test. Nothing here touches the process-wide one, so the tests do not
/// have to run in any order and cannot interfere with each other.
fn ask(store: &mut Store, now: u64) -> String {
    store
        .request(
            "hermes",
            "calendar",
            "delete_event",
            j(r#"{"id": "evt-3", "confirm": true}"#),
            "sensitive",
            "Delete an event from the calendar. It is not recoverable.",
            now,
            "12:03",
        )
        .expect("a first request is accepted")
        .id
}

#[test]
fn approvals_a_grant_authorises_once_and_only_once() {
    let mut store = Store::new();
    let now = NOW;
    let id = ask(&mut store, now);
    let call = j(r#"{"id": "evt-3", "confirm": true}"#);

    assert_eq!(store.status(&id, now), Some(Status::Pending));
    store.grant(&id, now, "12:03").expect("a person pressed Allow");
    assert_eq!(store.status(&id, now), Some(Status::Granted));

    store
        .consume(&id, "calendar", "delete_event", &call, now)
        .expect("the grant covers exactly this call");

    assert_eq!(store.status(&id, now), Some(Status::Consumed));
    let again = store
        .consume(&id, "calendar", "delete_event", &call, now)
        .expect_err("a grant is single use");
    assert!(again.contains("already used"), "{again}");
}

#[test]
fn approvals_key_order_does_not_matter_but_any_value_does() {
    let mut store = Store::new();
    let now = NOW;
    let id = ask(&mut store, now);
    store.grant(&id, now, "12:03").unwrap();

    // The same arguments, written the other way round. JSON objects are unordered and the
    // transport does not promise an order, so a reshuffle must not invalidate a grant.
    let reordered = j(r#"{"confirm": true, "id": "evt-3"}"#);
    store
        .consume(&id, "calendar", "delete_event", &reordered, now)
        .expect("key order is not part of what the person approved");
}

#[test]
fn approvals_a_changed_argument_invalidates_the_grant() {
    for changed in [
        j(r#"{"id": "evt-4", "confirm": true}"#),
        j(r#"{"id": "evt-3", "confirm": false}"#),
        j(r#"{"id": "evt-3"}"#),
        j(r#"{"id": "evt-3", "confirm": true, "force": true}"#),
        // `"true"` is not `true`. A string that looks like a boolean is a different value
        // and the person approved the one they were shown.
        j(r#"{"id": "evt-3", "confirm": "true"}"#),
    ] {
        let mut store = Store::new();
        let now = NOW;
        let id = ask(&mut store, now);
        store.grant(&id, now, "12:03").unwrap();
        let err = store
            .consume(&id, "calendar", "delete_event", &changed, now)
            .expect_err("a different argument is a different action");
        assert!(err.contains("Nothing was authorised"), "{changed:?}: {err}");
        assert!(err.contains("arguments"), "the refusal names the part that moved: {err}");
        assert_eq!(
            store.status(&id, now),
            Some(Status::Granted),
            "a refused consume must not burn the grant"
        );
    }
}

#[test]
fn approvals_a_changed_app_or_action_invalidates_the_grant() {
    let mut store = Store::new();
    let now = NOW;
    let id = ask(&mut store, now);
    store.grant(&id, now, "12:03").unwrap();
    let call = j(r#"{"id": "evt-3", "confirm": true}"#);

    let wrong_app = store
        .consume(&id, "notes", "delete_event", &call, now)
        .expect_err("a grant is bound to one app");
    assert!(wrong_app.contains("app `calendar`"), "{wrong_app}");

    let wrong_action = store
        .consume(&id, "calendar", "delete_all_events", &call, now)
        .expect_err("a grant is bound to one action");
    assert!(wrong_action.contains("calendar.delete_event"), "{wrong_action}");
}

#[test]
fn approvals_denial_prevents_consumption() {
    let mut store = Store::new();
    let now = NOW;
    let id = ask(&mut store, now);
    store.deny(&id, now, "12:03").expect("a person pressed Deny");
    assert_eq!(store.status(&id, now), Some(Status::Denied));

    let err = store
        .consume(
            &id,
            "calendar",
            "delete_event",
            &j(r#"{"id": "evt-3", "confirm": true}"#),
            now,
        )
        .expect_err("a denial authorises nothing");
    assert!(err.contains("denied"), "{err}");

    // And granting afterwards is not a second chance at the same card.
    let flip = store.grant(&id, now, "12:04").expect_err("a decided card is decided");
    assert!(flip.contains("denied"), "{flip}");
}

#[test]
fn approvals_an_unanswered_request_expires() {
    let mut store = Store::new();
    let now = NOW;
    let id = ask(&mut store, now);
    let later = now + REQUEST_TTL + SECOND;

    assert_eq!(store.status(&id, later), Some(Status::Expired));
    let err = store.grant(&id, later, "12:06").expect_err("an expired card cannot be granted");
    assert!(err.contains("expired"), "{err}");
}

#[test]
fn approvals_a_grant_expires_unused() {
    let mut store = Store::new();
    let now = NOW;
    let id = ask(&mut store, now);
    store.grant(&id, now, "12:03").unwrap();

    let later = now + GRANT_TTL + SECOND;
    assert_eq!(store.status(&id, later), Some(Status::Expired));
    let err = store
        .consume(
            &id,
            "calendar",
            "delete_event",
            &j(r#"{"id": "evt-3", "confirm": true}"#),
            later,
        )
        .expect_err("an expired grant authorises nothing");
    assert!(err.contains("expired"), "{err}");
}

#[test]
fn approvals_flooding_is_refused() {
    let mut store = Store::new();
    let now = NOW;
    for n in 0..MAX_PENDING {
        store
            .request(
                "hermes",
                "calendar",
                "delete_event",
                j(&format!("{{\"id\": \"evt-{n}\"}}")),
                "sensitive",
                "Delete an event.",
                now,
                "12:03",
            )
            .unwrap_or_else(|e| panic!("request {n} should be accepted: {e}"));
    }
    let err = store
        .request(
            "hermes",
            "calendar",
            "delete_event",
            j(r#"{"id": "evt-99"}"#),
            "sensitive",
            "Delete an event.",
            now,
            "12:03",
        )
        .expect_err("a flood is refused");
    assert!(err.contains("already waiting"), "{err}");
    assert_eq!(store.pending(now).len(), MAX_PENDING);
}

#[test]
fn approvals_the_same_question_twice_is_one_card() {
    let mut store = Store::new();
    let now = NOW;
    let first = ask(&mut store, now);
    let second = ask(&mut store, now);
    assert_eq!(first, second, "a retry must not stack a second identical card");
    assert_eq!(store.pending(now).len(), 1);
}

#[test]
fn approvals_a_denial_silences_the_identical_request() {
    let mut store = Store::new();
    let now = NOW;
    let id = ask(&mut store, now);
    store.deny(&id, now, "12:03").unwrap();

    let err = store
        .request(
            "hermes",
            "calendar",
            "delete_event",
            j(r#"{"id": "evt-3", "confirm": true}"#),
            "sensitive",
            "Delete an event.",
            now + 5 * SECOND,
            "12:03",
        )
        .expect_err("asking again straight after a no is refused");
    assert!(err.contains("denied"), "{err}");

    // Different arguments are a different question, and always allowed through.
    store
        .request(
            "hermes",
            "calendar",
            "delete_event",
            j(r#"{"id": "evt-9"}"#),
            "sensitive",
            "Delete an event.",
            now + 5 * SECOND,
            "12:03",
        )
        .expect("a different question is not the denied one");

    // And once the quiet window has passed, the person may be asked again.
    store
        .request(
            "hermes",
            "calendar",
            "delete_event",
            j(r#"{"id": "evt-3", "confirm": true}"#),
            "sensitive",
            "Delete an event.",
            now + DENIAL_QUIET + SECOND,
            "12:03",
        )
        .expect("a denial is not permanent");
}

#[test]
fn approvals_an_unknown_id_is_not_an_expiry() {
    let store = Store::new();
    assert_eq!(store.status("appr-404", NOW), None);
}

#[test]
fn approvals_canonical_json_sorts_keys_and_keeps_array_order() {
    let a = j(r#"{"b": 1, "a": {"d": 4, "c": 3}}"#);
    let b = j(r#"{"a": {"c": 3, "d": 4}, "b": 1}"#);
    assert_eq!(canonical(&a), canonical(&b));
    assert_eq!(canonical(&a), r#"{"a":{"c":3,"d":4},"b":1}"#);

    let one = j(r#"{"to": ["ann", "bob"]}"#);
    let other = j(r#"{"to": ["bob", "ann"]}"#);
    assert_ne!(
        canonical(&one),
        canonical(&other),
        "array order is data — two recipients in the other order is a different send"
    );
}

#[test]
fn approvals_the_card_shows_what_the_grant_is_bound_to() {
    let mut store = Store::new();
    let now = NOW;
    let id = ask(&mut store, now);
    let cards = store.pending(now);
    assert_eq!(cards.len(), 1);
    let card = &cards[0];
    assert_eq!(card.id, id);
    assert_eq!(card.requester, "hermes");
    assert_eq!(card.grade, "sensitive");
    // Every argument the grant is bound to is on the card, in the same order.
    assert_eq!(card.args_lines, "confirm: true\nid: evt-3");
    assert_eq!(
        card.warning, "The app says this cannot be undone.",
        "the app's own sentence about recoverability has to reach the person"
    );
}

#[test]
fn approvals_a_dangerous_grade_always_warns() {
    assert!(warning_for("dangerous", "Kill a process.").contains("dangerous"));
    assert!(warning_for("dangerous", "Erase the disk. It is not recoverable.")
        .contains("cannot be undone"));
    assert!(warning_for("standard", "Open a note.").is_empty());
}

#[test]
fn approvals_a_decision_leaves_a_line_in_the_transcript() {
    let mut store = Store::new();
    let now = NOW;
    let id = ask(&mut store, now);
    store.grant(&id, now, "12:03").unwrap();
    let record = store.cards(now).into_iter().find(|c| c.id == id).unwrap().record;
    assert_eq!(record, "Allowed once: calendar.delete_event — 12:03");

    let mut store = Store::new();
    let id = ask(&mut store, now);
    store.deny(&id, now, "12:05").unwrap();
    let record = store.cards(now).into_iter().find(|c| c.id == id).unwrap().record;
    assert_eq!(record, "Denied: calendar.delete_event — 12:05");
}

#[test]
fn arguments_are_shown_one_row_each_in_the_order_they_are_bound_in() {
    assert_eq!(args_rows(&j(r#"{"b": 2, "a": "x"}"#)), ["a: x", "b: 2"]);
    let (one, other) = (j(r#"{"b": 2, "a": "x"}"#), j(r#"{"a": "x", "b": 2}"#));
    assert_eq!(canonical(&one), canonical(&other));
    assert_eq!(args_lines(&one), args_lines(&other));
    assert_eq!(args_lines(&j("{}")), "(no arguments)");
    assert!(Status::Consumed.is_final() && Status::Denied.is_final() && Status::Expired.is_final());
    assert!(!Status::Pending.is_final() && !Status::Granted.is_final());
    assert!(may_offer_session_rule("standard", "Move it") && !may_offer_session_rule("dangerous", "Move it"));
    assert!(!may_offer_session_rule("standard", "It cannot be undone."));
}

/// A request about `id`, `n` seconds in.
fn about(store: &mut Store, id: &str, n: u64) -> Result<Requested, String> {
    let args = j(&format!("{{\"id\": \"{id}\"}}"));
    store.request("hermes", "calendar", "delete_event", args, "sensitive", "Delete an event.", NOW + n * SECOND, "12:03")
}

/// The same card first, then the person's own no, then the bound on cards, and only then a card.
#[test]
fn a_request_is_answered_in_order() {
    let mut store = Store::new();
    let denied = about(&mut store, "a", 0).unwrap();
    store.deny(&denied.id, NOW, "12:03").unwrap();
    let first = about(&mut store, "b", 1).unwrap();
    assert_ne!(first, denied, "each card has a name of its own");
    about(&mut store, "c", 1).unwrap();
    about(&mut store, "d", 1).unwrap();
    assert_eq!(store.pending(NOW + SECOND).len(), MAX_PENDING);

    // Three wait. Asking for one of them again is that one, and no fourth card.
    assert_eq!(about(&mut store, "b", 2), Ok(first.clone()));
    assert_eq!(first.status, Status::Pending);
    // The denied one is refused for the denial, a new one for the flood.
    assert!(about(&mut store, "a", 2).unwrap_err().contains("denied"));
    assert!(about(&mut store, "e", 2).unwrap_err().contains("already waiting"));
    assert_eq!(store.pending(NOW + 2 * SECOND).len(), MAX_PENDING);

    // Once one is decided there is room for exactly one more, under a new name.
    store.grant(&first.id, NOW + 3 * SECOND, "12:03").unwrap();
    let fresh = about(&mut store, "e", 3).unwrap();
    assert!(fresh != first && fresh != denied);
    assert_eq!(store.pending(NOW + 3 * SECOND).len(), MAX_PENDING);
}

/// However long it is asked, never more than the bound wait.
#[test]
fn no_history_puts_up_too_many_cards() {
    let mut store = Store::new();
    for n in 0..600 {
        let _ = about(&mut store, &format!("{}", n % 7), n);
        let waiting = store.pending(NOW + n * SECOND);
        assert!(waiting.len() <= MAX_PENDING);
        match waiting.first() {
            Some(card) if n % 5 == 0 => store.deny(&card.id, NOW + n * SECOND, "12:03").unwrap(),
            _ => {}
        }
    }
}

/// Only a question whose card is not up is fresh, whatever order its arguments come in.
#[test]
fn a_question_that_is_up_is_not_fresh() {
    let mut store = Store::new();
    let args = j(r#"{"id": "evt-3", "confirm": true}"#);
    let turned = j(r#"{"confirm": true, "id": "evt-3"}"#);
    assert!(store.is_fresh("calendar", "delete_event", &args, NOW));
    let id = ask(&mut store, NOW);
    assert!(!store.is_fresh("calendar", "delete_event", &args, NOW));
    assert!(!store.is_fresh("calendar", "delete_event", &turned, NOW));
    assert!(store.is_fresh("calendar", "delete_event", &j("{}"), NOW));
    assert!(store.is_fresh("calendar", "move_event", &args, NOW) && store.is_fresh("mail", "delete_event", &args, NOW));
    assert!(store.is_fresh("calendar", "delete_event", &args, NOW + REQUEST_TTL), "an expired card is not up");
    store.grant(&id, NOW, "12:03").unwrap();
    assert!(store.is_fresh("calendar", "delete_event", &args, NOW));
}
