//! What the shell describes and does when it is asked.
use yantrik_ui::control::{
    answering, apps_refreshed, asked, check_launchable, clip, describe, focus_window, focused, launching, lens_answer,
    list_of, locked, open_app, open_lens, pin_app, pinned_answer, required_text, screen_for, screen_name, screen_table,
    send_message, service_started, set_do_not_disturb, settings_sections, show_screen, shutting_down, start_service, summary,
    use_harness, window_meant, Availability, Battery, Desktop, FileRow, Files, Lens, Message, MindRow, PinFacts,
    Service, ServiceStep, SettingsView, Shelf, Window,
};
use yantrik_ui::json::{number, parse, render, Json};

/// The JSON a text spells.
fn j(text: &str) -> Json {
    parse(text).expect("a JSON text")
}

fn shelved() -> Availability {
    Availability::Shelved(Shelf {
        name: "The music player".into(),
        reason: "nothing plays yet".into(),
        returns_when: "there is a player".into(),
    })
}

fn ids() -> Vec<String> {
    ["files", "notes"].iter().map(|s| s.to_string()).collect()
}

fn desktop() -> Desktop {
    Desktop {
        screen: 1,
        windows: vec![Window { title: "Notes".into(), app_id: "notes".into() }],
        services: vec![Service { id: "weather".into(), status: "running".into(), note: String::new() }],
        files: Files {
            path: "/home".into(),
            entries: (0..41)
                .map(|n| FileRow {
                    name: format!("f{n}"),
                    is_dir: false,
                    size: "1 KB".into(),
                    modified: "now".into(),
                    selected: false,
                })
                .collect(),
            selected_index: -1,
            selection_count: 0,
            loading: false,
            notice: String::new(),
            busy: false,
            operation: String::new(),
            progress: number(0),
            trash: false,
            can_undo: false,
            has_clipboard: false,
            preview_open: false,
            preview_name: String::new(),
            tabs: 1,
            free_space: "1 GB".into(),
        },
        installer: Json::Null,
        installer_summary: String::new(),
        editor: Json::Null,
        editor_summary: String::new(),
        failed: vec![],
        messages: (0..9)
            .map(|n| Message { role: "user".into(), content: format!("m{n}"), streaming: false })
            .collect(),
        pending_approvals: j("[]"),
        tool_permission: "sensitive".into(),
        mind_mode: Json::Null,
        mind_audit: j("[]"),
        pinned: vec!["notes".into()],
        apps: j("[]"),
        minds: vec![MindRow {
            id: "pi".into(),
            name: "Pi".into(),
            active: true,
            builtin: false,
            detail: Json::Null,
            tools: Json::Null,
        }],
        companion_online: true,
        companion_status: "ready".into(),
        thinking: false,
        pending_suggestions: 0,
        memories: 3,
        bond: "new".into(),
        bond_score: number(1),
        active_project: String::new(),
        clock: "18:31".into(),
        date: "Wed".into(),
        cpu_percent: 4,
        memory: "1/2 GB".into(),
        memory_percent: number(50),
        disk: "1/2 TB".into(),
        disk_percent: number(50),
        wifi: true,
        battery: Some(Battery { percent: number(80), charging: false }),
        do_not_disturb: false,
        notifications: Json::Null,
        lens: Lens { open: false, text: String::new(), chat: false },
        incognito: false,
        settings: SettingsView {
            category: 0,
            query: String::new(),
            dark: true,
            accent: "blue".into(),
            wallpaper: "aurora".into(),
            save_error: false,
            save_status: String::new(),
            auto_lock_secs: 300,
        },
    }
}

#[test]
fn a_screen_answers_to_exactly_one_name() {
    for (name, id) in &screen_table() {
        assert_eq!(
            screen_name(*id), *name,
            "screen {id} is offered as `{name}` but describe() calls it `{}`",
            screen_name(*id)
        );
    }

    let mut ids: Vec<i32> = screen_table().iter().map(|(_, id)| *id).collect();
    ids.sort_unstable();
    let before = ids.len();
    ids.dedup();
    assert_eq!(before, ids.len(), "two names in SCREENS map to the same screen id");

    let mut names: Vec<&str> = screen_table().iter().map(|(n, _)| *n).collect();
    names.sort_unstable();
    let before = names.len();
    names.dedup();
    assert_eq!(before, names.len(), "the same name appears twice in SCREENS");
}

/// The settings sections a caller can name are the ones the sidebar has.
#[test]
fn settings_sections_are_contiguous_from_zero() {
    let mut ids: Vec<i32> = settings_sections().iter().map(|(_, id)| *id).collect();
    ids.sort_unstable();
    let expected: Vec<i32> = (0..ids.len() as i32).collect();
    assert_eq!(
        ids, expected,
        "settings section ids are the sidebar's indices, so they run 0..n with no gaps"
    );
}

/// Asking to open a shelved app is refused, and the refusal says why and what would fix it.
///
/// The three refusals have to read differently, because they ask different things of the
/// caller. "Not installed" means install it. "No app by that name" means try another name.
/// "Not part of this build" means neither will help — the app is in the tree and nothing on
/// this machine will produce it — so the refusal carries the reason and what would have to be
/// built, and an agent reading it can stop instead of retrying four spellings.
#[test]
fn opening_a_shelved_app_is_refused_with_its_reason() {
    for name in ["music", "music-player", "Music Player", "spreadsheet", "ySheets"] {
        let err = check_launchable(name, &shelved(), &ids()).expect_err("a shelved app must not open");
        assert!(err.contains("not part of this build"), "{name}: {err}");
        assert!(err.contains("shelved"), "{name}: {err}");
        assert!(err.contains("It comes back when"), "{name}: {err}");
        assert!(err.contains("design/shelved-2026-09-20.md"), "{name}: {err}");
        // And the list it offers instead never names the app it has just refused.
        let offered = err.split("It can open: ").nth(1).unwrap_or("");
        assert!(
            !offered.split(", ").any(|id| ["music", "music-player", "spreadsheet"].contains(&id)),
            "{name} was refused and then offered something shelved: {offered}"
        );
    }
    assert!(check_launchable("files", &Availability::Ready, &ids()).is_ok(), "a shipped app still opens");
}

#[test]
fn a_missing_app_and_an_unknown_one_are_refused_differently() {
    let missing = check_launchable("email", &Availability::Missing("yantrik-email".into()), &ids()).unwrap_err();
    assert_eq!(
        missing,
        "`email` is not installed on this machine: yantrik-email was not found. It can open: files, notes"
    );
    let unknown = check_launchable("zzz", &Availability::Unknown, &ids()).unwrap_err();
    assert_eq!(unknown, "no app `zzz` on this machine; it can open: files, notes");
}

/// The conversation and the listing are cut to what is described.
#[test]
fn a_description_is_bounded() {
    let mut d = desktop();
    d.screen = 8;
    let described = describe(&d);
    assert_eq!(described.summary, summary(&d));
    let all = render(&described.state);
    assert!(all.contains("\"m8\"") && all.contains("\"m3\"") && !all.contains("\"m2\""), "{all}");
    assert!(all.contains("\"f39\"") && !all.contains("\"f40\""), "{all}");
    assert!(!shutting_down().summary.is_empty());
}

#[test]
fn long_text_is_cut_with_a_mark() {
    assert_eq!(clip("abc", 3), "abc");
    assert_eq!(clip("abcd", 3), "abc\u{2026} (4 characters total)");
    assert_eq!(list_of(&ids()), "files and notes");
}

#[test]
fn a_screen_is_shown_by_name() {
    let shown = show_screen(&j(r#"{"screen": "Settings", "section": "network"}"#));
    assert_eq!(shown.section, Some(3));
    let (id, _) = shown.shown.unwrap();
    assert_eq!(screen_name(id), "settings");
    let err = screen_for("nowhere", "").shown.unwrap_err();
    assert!(err.contains("nowhere") && err.contains("desktop"), "{err}");
    assert_eq!(screen_name(-7), "unknown");
}

#[test]
fn a_window_is_found_by_its_title_or_part_of_it() {
    let titles: Vec<String> = vec!["My Notes".into(), "Notes".into(), "Terminal".into()];
    let small: Vec<String> = titles.iter().map(|t| t.to_lowercase()).collect();
    assert_eq!(window_meant(&small, "notes"), Some(1), "the whole title wins");
    assert_eq!(window_meant(&small, "term"), Some(2));
    assert_eq!(window_meant(&small, "zzz"), None);
    assert_eq!(focus_window(&j(r#"{"title": "TERM"}"#), &titles), Ok("Terminal".to_string()));
    assert!(focus_window(&j(r#"{"title": "zzz"}"#), &titles).is_err());
    assert!(render(&focused("Terminal")).contains("Terminal"));
}

#[test]
fn an_app_is_pinned_once() {
    let facts = |availability: Availability, pinned: bool| PinFacts {
        availability,
        ids: ids(),
        known: true,
        pinned,
        pinnable: true,
    };
    let pin = pin_app(&j(r#"{"name": "notes", "pinned": true}"#), &facts(Availability::Ready, false)).unwrap();
    assert!(pin.want && pin.toggle);
    let again = pin_app(&j(r#"{"name": "notes", "pinned": true}"#), &facts(Availability::Ready, true)).unwrap();
    assert!(!again.toggle, "it is pinned already");
    assert!(pin_app(&j(r#"{"name": "music", "pinned": true}"#), &facts(shelved(), false)).is_err());
    assert!(pin_app(&j(r#"{"name": "notes"}"#), &facts(Availability::Ready, false)).is_err());
    assert!(render(&pinned_answer("notes", true, &ids())).contains("notes"));
}

#[test]
fn services_lenses_minds_and_quiet() {
    assert!(matches!(start_service(&j(r#"{"name": "weather"}"#), true), Ok(ServiceStep::Up(_))));
    assert!(matches!(start_service(&j(r#"{"name": "weather"}"#), false), Ok(ServiceStep::Start(n)) if n == "weather"));
    assert!(start_service(&j("{}"), false).is_err());
    assert!(open_lens(&j(r#"{"text": "hi"}"#), 8).prefill.is_some());
    assert_eq!(use_harness(&j(r#"{"id": "pi"}"#), true), Ok("pi".to_string()));
    assert!(use_harness(&j(r#"{"id": "pi"}"#), false).is_err());
    let quiet = set_do_not_disturb(&j(r#"{"on": true}"#), false).unwrap();
    assert!(quiet.toggle);
    assert!(!set_do_not_disturb(&j(r#"{"on": true}"#), true).unwrap().toggle);
    assert!(set_do_not_disturb(&j("{}"), true).is_err());
    assert!(required_text(&j(r#"{"text": " "}"#), "text").is_err());
    for said in [
        launching("notes"),
        service_started("weather"),
        apps_refreshed(3),
        asked("hi", Some("pi"), "companion"),
        lens_answer(true, 1, ""),
        answering("pi", &Json::Null),
        locked(),
    ] {
        assert!(render(&said).starts_with('{'));
    }
}

/// An app is launched where it is named and will open, and the desktop is asked something or
/// nothing at all.
#[test]
fn an_empty_name_is_refused_before_anything_else() {
    let ids = vec!["files".to_string(), "notes".to_string()];
    assert_eq!(open_app(&j(r#"{"name": " notes "}"#), &Availability::Ready, &ids), Ok("notes".to_string()));
    assert_eq!(open_app(&j(r#"{"name": "  "}"#), &Availability::Unknown, &ids).unwrap_err(), "`name` is empty");
    assert_eq!(open_app(&j("{}"), &Availability::Ready, &ids).unwrap_err(), "`name` is empty");
    assert_eq!(
        open_app(&j(r#"{"name": "zzz"}"#), &Availability::Unknown, &ids).unwrap_err(),
        "no app `zzz` on this machine; it can open: files, notes"
    );
    assert_eq!(send_message(&j(r#"{"text": " hello "}"#)), Ok("hello".to_string()));
    assert_eq!(send_message(&j(r#"{"text": 4}"#)).unwrap_err(), "`text` is empty");
}
