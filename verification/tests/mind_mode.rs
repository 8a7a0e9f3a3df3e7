//! What a mind may do without being asked.
use yantrik_ui::clock::SECOND;
use yantrik_ui::json::{render, Json};
use yantrik_ui::mind_mode::{
    chip_label, grade_rank, log_is_too_big, lower_from_socket, recent, recent_for_describe, record, rules_summary, snapshot, stored_mode,
    to_store, trimmed_log, AuditEntry, Bypass, Decision, Mode, Modes, AUDIT_FILE_KEEP, AUDIT_FILE_MAX, AUDIT_MEMORY,
};

/// Some moment, in nanoseconds.
const NOW: u64 = 1_000_000 * SECOND;

fn at(mode: Mode) -> Modes {
    Modes::new(mode)
}

fn ran(d: &Decision) -> bool {
    matches!(d, Decision::Run { .. })
}

/// The whole table, four modes by four grades, with the ceiling out of the way.
///
/// Written as a table rather than as sixteen assertions because the table IS the feature:
/// somebody changing one cell should have to change one line here and see the other fifteen
/// stay put.
#[test]
fn mind_mode_the_decision_table_is_what_the_doc_says() {
    let now = NOW;
    // (mode, grade, expected)
    let expect: &[(Mode, &str, Decision)] = &[
        (Mode::Plan, "safe", Decision::Run { unasked: false }),
        (Mode::Plan, "standard", Decision::Refuse { why: String::new() }),
        (Mode::Plan, "sensitive", Decision::Refuse { why: String::new() }),
        (Mode::Plan, "dangerous", Decision::Refuse { why: String::new() }),
        (Mode::Ask, "safe", Decision::Run { unasked: false }),
        (Mode::Ask, "standard", Decision::Run { unasked: false }),
        (Mode::Ask, "sensitive", Decision::Ask),
        (Mode::Ask, "dangerous", Decision::Ask),
        (Mode::Auto, "safe", Decision::Run { unasked: false }),
        (Mode::Auto, "standard", Decision::Run { unasked: false }),
        (Mode::Auto, "sensitive", Decision::Run { unasked: true }),
        (Mode::Auto, "dangerous", Decision::Ask),
        (Mode::Bypass, "safe", Decision::Run { unasked: false }),
        (Mode::Bypass, "standard", Decision::Run { unasked: false }),
        (Mode::Bypass, "sensitive", Decision::Run { unasked: true }),
        (Mode::Bypass, "dangerous", Decision::Run { unasked: true }),
    ];

    for (mode, grade, want) in expect {
        let mut modes = at(Mode::Ask);
        if *mode == Mode::Bypass {
            modes.person_set_mode(Mode::Bypass, Bypass::Hour, now);
        } else {
            modes.person_set_mode(*mode, Bypass::Hour, now);
        }
        let got = modes.decide(grade, "calendar", "delete_event", "dangerous", now);
        match (want, &got) {
            (Decision::Refuse { .. }, Decision::Refuse { why }) => {
                assert!(!why.is_empty(), "{mode:?}/{grade}: a refusal has to say why");
            }
            (a, b) => assert_eq!(a, b, "{mode:?} with a {grade} action"),
        }
    }
}

/// Plan mode says what it is, so the mind can relay it rather than reporting a fault.
#[test]
fn mind_mode_plan_refuses_in_words_a_person_can_read() {
    let now = NOW;
    let modes = at(Mode::Plan);
    let Decision::Refuse { why } = modes.decide("standard", "notes", "write", "dangerous", now)
    else {
        panic!("plan mode must refuse a write");
    };
    assert!(why.contains("plan mode"), "{why}");
    assert!(why.contains("nothing on this machine was changed"), "{why}");
    assert!(why.to_lowercase().contains("would do"), "it has to ask for the plan: {why}");
}

#[test]
fn mind_mode_the_machine_ceiling_is_above_every_mode() {
    let now = NOW;
    for mode in [Mode::Plan, Mode::Ask, Mode::Auto, Mode::Bypass] {
        let mut modes = at(Mode::Ask);
        modes.person_set_mode(mode, Bypass::UntilRestart, now);
        let got = modes.decide("dangerous", "system", "kill", "standard", now);
        let Decision::Refuse { why } = got else {
            panic!("{mode:?} let a dangerous action past a `standard` machine ceiling");
        };
        assert!(why.contains("tool_permission"), "{mode:?}: {why}");
        assert!(why.contains("NOT asked"), "{mode:?}: {why}");
    }

    // And at the ceiling, the mode decides again as normal.
    let modes = at(Mode::Ask);
    assert_eq!(
        modes.decide("standard", "notes", "write", "standard", now),
        Decision::Run { unasked: false }
    );
}

#[test]
fn mind_mode_an_undefined_grade_is_refused_in_every_mode() {
    let now = NOW;
    for mode in [Mode::Plan, Mode::Ask, Mode::Auto, Mode::Bypass] {
        let mut modes = at(Mode::Ask);
        modes.person_set_mode(mode, Bypass::Hour, now);
        let got = modes.decide("spicy", "notes", "write", "dangerous", now);
        assert!(
            matches!(got, Decision::Refuse { .. }),
            "{mode:?} ran an action whose grade this OS does not define"
        );
    }
}

#[test]
fn mind_mode_bypass_expires_back_to_what_it_was() {
    let now = NOW;
    let mut modes = at(Mode::Ask);
    modes.person_set_mode(Mode::Auto, Bypass::Hour, now);
    modes.person_set_mode(Mode::Bypass, Bypass::Minutes15, now);

    assert_eq!(modes.mode(now), Mode::Bypass);
    assert_eq!(modes.bypass_left(now).map(|d| d / SECOND), Some(15 * 60));
    assert_eq!(modes.previous(now), Mode::Auto, "it has to come back to where it was");

    let later = now + (15 * 60 + 1) * SECOND;
    assert_eq!(modes.mode(later), Mode::Auto, "a lapsed bypass is not still in force");
    assert_eq!(
        modes.decide("dangerous", "system", "kill", "dangerous", later),
        Decision::Ask,
        "and the mode it came back to is the one deciding"
    );
    assert!(modes.lapse(later), "the screen has something new to show");
    assert!(!modes.lapse(later), "and only once");
    assert_eq!(modes.mode(later), Mode::Auto);
}

/// Choosing bypass twice must not strand the machine there.
#[test]
fn mind_mode_bypass_twice_still_comes_back_to_the_real_mode() {
    let now = NOW;
    let mut modes = at(Mode::Ask);
    modes.person_set_mode(Mode::Bypass, Bypass::Minutes15, now);
    modes.person_set_mode(Mode::Bypass, Bypass::Hour, now + (60) * SECOND);
    assert_eq!(modes.previous(now), Mode::Ask, "not `bypass`");
    let later = now + (60 * 60 + 61) * SECOND;
    assert_eq!(modes.mode(later), Mode::Ask);
}

#[test]
fn mind_mode_bypass_until_restart_never_lapses_on_its_own() {
    let now = NOW;
    let mut modes = at(Mode::Ask);
    modes.person_set_mode(Mode::Bypass, Bypass::UntilRestart, now);
    let much_later = now + (48 * 60 * 60) * SECOND;
    assert_eq!(modes.mode(much_later), Mode::Bypass);
    assert!(modes.bypass_left(much_later).is_none());
    assert!(modes.bypass_until_restart(much_later));
}

#[test]
fn mind_mode_bypass_is_never_persisted_and_never_booted_into() {
    assert_eq!(to_store(Mode::Bypass, Mode::Auto).as_str(), "auto");
    assert_eq!(to_store(Mode::Bypass, Mode::Plan).as_str(), "plan");
    assert_eq!(to_store(Mode::Bypass, Mode::Bypass).as_str(), "ask");
    assert_eq!(to_store(Mode::Auto, Mode::Ask).as_str(), "auto");
    assert_ne!(
        to_store(Mode::Bypass, Mode::Ask),
        Mode::Bypass,
        "there is no path that writes `bypass` to the settings file"
    );

    assert_eq!(Modes::new(Mode::Bypass).mode(NOW), Mode::Ask);
    assert_eq!(Modes::new(Mode::Auto).mode(NOW), Mode::Auto);
    assert_eq!(
        Modes::default().mode(NOW).as_str(),
        "ask",
        "a machine that has never been told comes up asking, which is what shipped before"
    );
}

/// A rule covers any arguments for its own action, and nothing else at all.
#[test]
fn mind_mode_a_session_rule_covers_any_args_but_only_its_own_action() {
    let now = NOW;
    let mut modes = at(Mode::Ask);
    modes
        .person_add_rule("files", "move", "sensitive", "Move a file to another folder.")
        .expect("a recoverable sensitive action may have a rule");

    assert_eq!(
        modes.decide("sensitive", "files", "move", "dangerous", now),
        Decision::Run { unasked: true },
        "the rule is what stops the asking, and it is recorded as unasked"
    );
    // Same action, different arguments — a rule is deliberately not argument-bound.
    assert_eq!(
        modes.decide("sensitive", "files", "move", "dangerous", now),
        Decision::Run { unasked: true }
    );
    assert_eq!(
        modes.decide("sensitive", "files", "delete", "dangerous", now),
        Decision::Ask,
        "a rule for one action is not a rule for its neighbour"
    );
    assert_eq!(
        modes.decide("sensitive", "calendar", "move", "dangerous", now),
        Decision::Ask,
        "nor for the same word in another app"
    );

    modes.person_revoke_rule("files", "move");
    assert_eq!(modes.decide("sensitive", "files", "move", "dangerous", now), Decision::Ask);
}

/// The two kinds of action a session rule is never offered for.
#[test]
fn mind_mode_no_session_rule_for_dangerous_or_unrecoverable() {
    let mut modes = at(Mode::Ask);
    let err = modes
        .person_add_rule("system", "kill", "dangerous", "End a process.")
        .expect_err("dangerous is always a card");
    assert!(err.contains("Allow it once instead"), "{err}");

    let err = modes
        .person_add_rule(
            "calendar",
            "delete_event",
            "sensitive",
            "Delete an event from the calendar. It is not recoverable.",
        )
        .expect_err("the app's own sentence about recoverability decides too");
    assert!(err.contains("cannot be undone"), "{err}");

    assert!(modes.rules().is_empty(), "a refused rule must not be stored anyway");
}

/// A rule cannot reach past the ceiling or out of plan mode either.
#[test]
fn mind_mode_a_session_rule_is_not_a_way_around_anything() {
    let now = NOW;
    let mut modes = at(Mode::Ask);
    modes.person_add_rule("files", "move", "sensitive", "Move a file.").unwrap();

    let above = modes.decide("sensitive", "files", "move", "standard", now);
    assert!(
        matches!(above, Decision::Refuse { .. }),
        "a rule must not carry anything past the machine ceiling"
    );

    modes.person_set_mode(Mode::Plan, Bypass::Hour, now);
    let planned = modes.decide("sensitive", "files", "move", "dangerous", now);
    assert!(
        matches!(planned, Decision::Refuse { .. }),
        "and plan mode outranks a rule made before it"
    );
}

#[test]
fn mind_mode_the_socket_can_lower_and_cannot_raise() {
    let now = NOW;
    let mut modes = at(Mode::Auto);

    // Down is fine, and is a real change.
    assert_eq!(modes.lower_to(Mode::Plan, now).unwrap(), Mode::Plan);
    assert_eq!(modes.mode(now), Mode::Plan);

    // Up is not, in any of its shapes.
    for wanted in [Mode::Ask, Mode::Auto, Mode::Bypass] {
        let err = modes
            .lower_to(wanted, now)
            .expect_err("only a person raises the mode");
        assert!(err.contains("only the person at this machine"), "{err}");
        assert!(err.contains("status bar"), "the refusal says where: {err}");
        assert_eq!(modes.mode(now), Mode::Plan, "and nothing moved");
    }

    // Asking for the mode it is already in is not a raise.
    assert_eq!(modes.lower_to(Mode::Plan, now).unwrap(), Mode::Plan);
}

/// Lowering out of a bypass ends it, rather than leaving a deadline that would later
/// "lapse" the machine back into something looser than what was just chosen.
#[test]
fn mind_mode_lowering_out_of_bypass_does_not_leave_it_armed() {
    let now = NOW;
    let mut modes = at(Mode::Auto);
    modes.person_set_mode(Mode::Bypass, Bypass::Hour, now);
    modes.lower_to(Mode::Ask, now).expect("bypass → ask is a lowering");
    let later = now + (60 * 60 + 1) * SECOND;
    assert_eq!(modes.mode(later), Mode::Ask, "not back to auto an hour later");
    assert!(modes.bypass_left(later).is_none());
}

#[test]
fn mind_mode_the_ladder_is_the_one_the_os_publishes() {
    assert_eq!(grade_rank("safe"), Some(0));
    assert_eq!(grade_rank("dangerous"), Some(3));
    assert_eq!(grade_rank("Dangerous"), None, "grades arrive lowercase or not at all");
    assert!(Mode::Plan.permissiveness() < Mode::Ask.permissiveness());
    assert!(Mode::Ask.permissiveness() < Mode::Auto.permissiveness());
    assert!(Mode::Auto.permissiveness() < Mode::Bypass.permissiveness());
}

#[test]
fn mind_mode_the_chip_counts_down_and_never_rounds_up() {
    let now = NOW;
    let mut modes = at(Mode::Ask);
    modes.person_set_mode(Mode::Bypass, Bypass::Minutes15, now);
    // 59 seconds must not read as "1m": the chip answers "how long am I exposed for".
    let nearly = now + (15 * 60 - 59) * SECOND;
    let left = modes.bypass_left(nearly).unwrap() / SECOND;
    assert_eq!(left, 59);
    assert_eq!(format!("Bypass {left}s"), "Bypass 59s");
}

#[test]
fn mind_mode_an_audit_entry_reads_as_a_sentence() {
    let entry = AuditEntry {
        at: "12:03".into(),
        unix: 1_790_000_000,
        mode: "auto".into(),
        requester: "Hermes Agent 0.9.2".into(),
        app: "files".into(),
        action: "move".into(),
        args: vec!["from: /a".into(), "to: /b".into()],
        grade: "sensitive".into(),
        outcome: "ok".into(),
    };
    assert_eq!(entry.line(), "12:03 · files.move — ok");
    let json = entry.to_json();
    for key in
        ["at", "unix", "mode", "requester", "app", "action", "args", "grade", "outcome"]
    {
        assert!(json.get(key).is_some(), "the log is missing `{key}`");
    }
}

#[test]
fn a_caller_names_the_mode_it_wants() {
    let mut modes = at(Mode::Auto);
    assert_eq!(lower_from_socket(&mut modes, "plan", NOW), Ok(Mode::Plan));
    assert!(lower_from_socket(&mut modes, "ask", NOW).is_err());
    assert!(lower_from_socket(&mut modes, "wild", NOW).is_err());
    assert_eq!(modes.mode(NOW), Mode::Plan);
    assert_eq!((stored_mode("auto"), stored_mode("bypass"), stored_mode("junk")), (Mode::Auto, Mode::Ask, Mode::Ask));
}

#[test]
fn the_chip_and_the_snapshot_say_what_is_in_force() {
    let mut modes = at(Mode::Ask);
    assert_eq!(chip_label(&modes, NOW), "Ask");
    modes.person_set_mode(Mode::Bypass, Bypass::Minutes15, NOW);
    assert_eq!(chip_label(&modes, NOW + 14 * 60 * SECOND), "Bypass 1m");
    assert_eq!(chip_label(&modes, NOW + (14 * 60 + 1) * SECOND), "Bypass 59s");
    modes.person_add_rule("files", "move", "sensitive", "Move a file.").unwrap();
    assert!(rules_summary(&modes).contains("files.move"));
    assert!(render(&snapshot(&modes, "dangerous", NOW)).contains("bypass"));
}

/// What ran unasked is written down, the newest last, and no more is kept than fits.
#[test]
fn what_ran_unasked_is_kept_and_bounded() {
    let mut list: Vec<AuditEntry> = Vec::new();
    for n in 0..AUDIT_MEMORY as u64 + 5 {
        record(&mut list, "12:03", n, "auto", "hermes", "files", "move", &Json::Null, "sensitive", "ok");
    }
    assert_eq!(list.len(), AUDIT_MEMORY);
    let newest: Vec<u64> = recent(&list, 2).iter().map(|e| e.unix).collect();
    assert!(newest.contains(&(AUDIT_MEMORY as u64 + 4)), "{newest:?}");
    assert!(log_is_too_big(AUDIT_FILE_MAX + 1) && !log_is_too_big(AUDIT_FILE_MAX));
    let long: String = (0..AUDIT_FILE_KEEP + 3).map(|n| format!("line {n}\n")).collect();
    let kept = trimmed_log(&long);
    assert_eq!(kept.lines().count(), AUDIT_FILE_KEEP);
    assert!(kept.starts_with("line 3\n"));
}

#[test]
fn what_ran_unasked_is_described() {
    let mut list: Vec<AuditEntry> = Vec::new();
    assert_eq!(render(&recent_for_describe(&list)), "[]");
    record(&mut list, "18:31", 2, "auto", "pi", "notes", "add", &Json::Object(vec![]), "standard", "ok");
    let said = render(&recent_for_describe(&list));
    assert!(said.contains("\"outcome\":\"ok\"") && said.contains("\"at\":\"18:31\""), "{said}");
    assert_eq!(Mode::Plan.meaning(), "Look, don't touch. It can read anything and change nothing.");
}
