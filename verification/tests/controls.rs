//! The updater, the file browser, the editor and the installer, when they are asked.
use yantrik_ui::control_editor::{
    appended, edited, ensure_editor_screen, save_as, save_target, saved, saved_to, Document, CONTENT_PREVIEW,
};
use yantrik_ui::control_files::{
    done, ensure_files_screen, entry_arg, new_name_arg, opened, path_arg, went_up, Deed, Whereabouts,
};
use yantrik_ui::control_installer::{
    blocked_by, disks, install, installer_set, installing_answer, reboot, set_answer, set_field, state, step_arg, step_for,
    step_name, summary, went_to, AiTest, Check, Disk, Hardware, Wizard,
};
use yantrik_ui::control_update::{apply_command, applying_answer, check_command, check_outcome, no_updater, plain};
use yantrik_ui::json::{parse, render, Json, Row};

/// The JSON a text spells.
fn j(text: &str) -> Json {
    parse(text).expect("a JSON text")
}

#[test]
fn an_updaters_report_is_read_without_its_colours() {
    assert_eq!(plain("\u{1b}[32mok\u{1b}[0m\n\n  new build  \n"), ["ok", "new build"]);
    let found = check_outcome(10, "new build", "").unwrap();
    assert_eq!(render(&found), r#"{"detail":["new build"],"up_to_date":false,"update_available":true}"#);
    assert_eq!(render(&check_outcome(0, "", "").unwrap()), r#"{"detail":[],"up_to_date":true,"update_available":false}"#);
    assert_eq!(check_outcome(2, "", "one\ntwo").unwrap_err(), "update check failed: two");
    assert_eq!(check_command(&j("{}")).last().unwrap(), "check");
    assert!(check_command(&j(r#"{"channel": "beta"}"#)).contains(&"beta".to_string()));
    assert!(apply_command(&j(r#"{"force": true}"#)).iter().any(|a| a.contains("force")));
    assert_eq!(no_updater("/u", true), "no updater at /u \u{2014} this machine cannot update itself");
    assert!(render(&applying_answer(&j("{}"))).contains("watch"));
}

#[test]
fn the_browser_does_what_it_is_asked() {
    let names: Vec<String> = vec!["a.txt".into(), "docs".into()];
    assert_eq!(entry_arg(&j(r#"{"name": " docs "}"#), &names, "/home"), Ok("docs".to_string()));
    assert_eq!(entry_arg(&j(r#"{"name": "x"}"#), &names, "/home").unwrap_err(), "nothing called `x` in /home");
    assert!(path_arg(&j(r#"{"path": " "}"#)).is_err());
    assert_eq!(path_arg(&j(r#"{"path": "/tmp"}"#)), Ok("/tmp".to_string()));
    assert!(new_name_arg(&j("{}")).is_err());
    assert!(ensure_files_screen(1) && !ensure_files_screen(8));
    let now = Whereabouts { path: "/home".into(), entries: 2, free_space: "1 GB".into() };
    assert!(render(&done(Deed::Entered, "docs", &now)).contains(r#""entered":"docs""#));
    assert_eq!(render(&went_up(&now)), format!(r#"{{"now":{}}}"#, render(&now.to_json())));
    assert!(render(&opened("a.txt", 12)).contains("editor"));
}

#[test]
fn the_editor_saves_where_it_is_told() {
    let doc = |content: &str| Document { name: "a.txt".into(), content: content.into(), modified: true, readonly: false };
    assert_eq!(appended(&doc("one"), &j(r#"{"text": "two"}"#)), "onetwo");
    let long = doc(&"x".repeat(CONTENT_PREVIEW + 1)).to_json();
    assert_eq!(long.get("content_truncated"), Some(&Json::Bool(true)));
    assert_eq!(long.get("content").and_then(|c| c.as_str()).unwrap().len(), CONTENT_PREVIEW);
    assert!(render(&edited(&doc("x"))).contains("a.txt"));
    assert_eq!(saved(&doc("x"), "disk full", false).unwrap_err(), "disk full");
    assert!(saved(&doc("x"), "", true).unwrap_err().contains("editor_save_as"));
    assert!(saved(&doc("x"), "", false).is_ok());
    let t = save_target("/home/me//notes.txt").unwrap();
    assert_eq!((t.dir.as_str(), t.name.as_str()), ("/home/me", "notes.txt"));
    assert!(save_target("/").is_none() && save_target("/a/..").is_none());
    assert!(save_as(&j(r#"{"path": "/"}"#)).is_err() && save_as(&j("{}")).is_err());
    assert!(saved_to("/a/b", &doc("x"), "denied").is_err());
    assert!(ensure_editor_screen(1));
}

fn check(ok: bool) -> Check {
    Check { ok, detail: "fine".into() }
}

fn wizard() -> Wizard {
    let disk = |name: &str| Disk { name: name.into(), size: "1 TB".into(), model: "M".into() };
    Wizard {
        installer_mode: true,
        phase: 3,
        full_name: "Ann".into(),
        username: "ann".into(),
        password: "hunter2".into(),
        password_confirm: "hunter2".into(),
        hostname: "box".into(),
        companion: String::new(),
        location: String::new(),
        slots: vec![disk("sda"), disk(""), disk("nvme0n1")],
        selected_disk: "sda".into(),
        hardware: Hardware {
            cpu: check(true),
            ram: check(true),
            gpu: check(false),
            disk: check(true),
            network_ok: true,
            runtime_ok: true,
            recommends: "local".into(),
        },
        ai_test: AiTest { status: "ok".into(), model: "m".into(), latency_ms: 12, privacy: "local".into() },
        installing: false,
        progress: 0,
        status: String::new(),
        error: String::new(),
    }
}

/// What is in the way is said in the order a person would learn it.
#[test]
fn an_install_waits_for_what_is_missing() {
    assert_eq!(blocked_by(&wizard()), None);
    let why = |change: fn(&mut Wizard)| {
        let mut w = wizard();
        change(&mut w);
        blocked_by(&w).unwrap()
    };
    assert!(why(|w| w.installer_mode = false).contains("already installed"));
    assert_eq!(why(|w| w.username = " ".into()), "username is required");
    assert_eq!(why(|w| w.password = String::new()), "password is required");
    assert_eq!(why(|w| w.password_confirm = "x".into()), "passwords do not match");
    assert_eq!(why(|w| w.selected_disk = String::new()), "no disk chosen; this machine has: sda, nvme0n1");
    assert_eq!(
        why(|w| {
            w.selected_disk = String::new();
            w.slots.clear();
        }),
        "no disk to install to was found"
    );
    let go = install(&wizard(), "Yantrik").unwrap();
    assert_eq!((go.disk.as_str(), go.companion.as_str(), go.username.as_str()), ("sda", "Yantrik", "ann"));
    let mut busy = wizard();
    busy.installing = true;
    assert_eq!(install(&busy, "Yantrik").map(|_| ()).unwrap_err(), "an install is already running");
}

/// A password goes in as text and comes out as a flag.
#[test]
fn a_password_is_never_shown() {
    let shown = render(&state(&wizard()));
    assert!(!shown.contains("hunter2"), "{shown}");
    assert!(shown.contains(r#""password_set":true"#) && shown.contains(r#""passwords_match":true"#), "{shown}");
    let answer = render(&set_answer("password", "hunter2", &wizard()));
    assert!(!answer.contains("hunter2") && answer.contains(r#""value":true"#), "{answer}");
    assert!(render(&disks(&wizard())).contains("nvme0n1"));
}

#[test]
fn a_field_goes_by_more_than_one_name() {
    let set = |field: &str, value: &str| {
        installer_set(&j(&format!(r#"{{"field": "{field}", "value": "{value}"}}"#)), &wizard()).map(|w| (w.field, w.value))
    };
    assert_eq!(set("Computer_Name", "box2"), Ok(("hostname".to_string(), "box2".to_string())));
    assert_eq!(set("target", " /dev/nvme0n1 "), Ok(("disk".to_string(), "nvme0n1".to_string())));
    assert!(set("disk", "sdz").unwrap_err().contains("no disk `sdz` here; it found: sda, nvme0n1"));
    assert!(set("shoe_size", "9").unwrap_err().starts_with("no field `shoe_size` in the wizard; it takes: full_name"));
    let mut bare = wizard();
    bare.slots.clear();
    assert!(set_field("disk", "sda", &bare).map(|_| ()).unwrap_err().contains("found no disks"));
}

#[test]
fn the_wizard_moves_by_name_and_reboots_when_it_is_done() {
    assert_eq!(step_for(&step_arg(&j(r#"{"step": "Location"}"#)), false), Ok(5));
    assert!(step_for("location", true).unwrap_err().contains("cannot be moved"));
    assert!(step_for("nowhere", false).unwrap_err().contains("identity"));
    assert_eq!([0, 2, 3, 11, 12, 40].map(step_name), ["waking", "greeting", "identity", "installing", "installed", "unknown"]);
    assert!(reboot(12).is_ok());
    assert!(reboot(10).unwrap_err().contains("on the summary step"));
    assert_eq!(summary(&wizard()), "Yantrik installer \u{2014} on the identity step, ready to install to sda");
    let mut done = wizard();
    done.phase = 12;
    done.installing = true;
    assert_eq!(summary(&done), "Yantrik installer \u{2014} installed, waiting to reboot");
    assert!(render(&installing_answer("sda")).contains(r#""installing_to":"sda""#));
    assert_eq!(render(&went_to("location")), r#"{"step":"location"}"#);
}
