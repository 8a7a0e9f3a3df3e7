//! The mirror of the notification store, and how it is listed.
use yantrik_ui::json::render;
use yantrik_ui::json::Json;
use yantrik_ui::notifications::{
    elapsed, first_letter, list, seconds_since, to_slint_data, urgency_int, Action, Notification, NotificationMirror,
    Since, Urgency, MAX_MIRRORED,
};

/// A moment in 2026, in seconds since 1970.
const NOW: i64 = 1_790_000_000;

fn note(id: &str, app: &str, created_at: &str) -> Notification {
    Notification {
        id: id.into(),
        app: app.into(),
        title: format!("from {app}"),
        body: String::new(),
        urgency: Urgency::Normal,
        created_at: created_at.into(),
        read: false,
        dismissed: false,
        actions: Vec::new(),
        source: "yantrik".into(),
        replaces_id: None,
        revision: 1,
    }
}

#[test]
fn the_first_poll_raises_no_toasts() {
    // Otherwise every boot opens with a wall of toasts for everything that happened while
    // the machine was off — which is how a notification system gets turned off.
    let mut mirror = NotificationMirror::new();
    let applied = mirror.apply(Since {
        revision: 3,
        changed: vec![
            note("1", "Downloads", "2026-09-21T09:00:00Z"),
            note("2", "Calendar", "2026-09-21T09:01:00Z"),
        ],
    });
    assert!(applied.fresh.is_empty());
    assert_eq!(mirror.unread_count(), 2);
    assert_eq!(mirror.revision(), 3);
}

#[test]
fn a_new_notification_after_that_is_a_toast() {
    let mut mirror = NotificationMirror::new();
    mirror.apply(Since { revision: 1, changed: vec![note("1", "A", "2026-09-21T09:00:00Z")] });
    let applied = mirror.apply(Since {
        revision: 2,
        changed: vec![note("2", "B", "2026-09-21T09:05:00Z")],
    });
    assert_eq!(applied.fresh.len(), 1);
    assert_eq!(applied.fresh[0].id, "2");
}

#[test]
fn being_read_or_dismissed_does_not_re_raise_a_toast() {
    let mut mirror = NotificationMirror::new();
    mirror.apply(Since { revision: 1, changed: vec![note("1", "A", "2026-09-21T09:00:00Z")] });
    let mut read = note("1", "A", "2026-09-21T09:00:00Z");
    read.read = true;
    let applied = mirror.apply(Since { revision: 2, changed: vec![read] });
    assert!(applied.fresh.is_empty());
    assert!(applied.gone.is_empty(), "reading a notification does not take its toast down");
    let mut gone = note("1", "A", "2026-09-21T09:00:00Z");
    gone.dismissed = true;
    let applied = mirror.apply(Since { revision: 3, changed: vec![gone] });
    assert!(applied.fresh.is_empty());
    assert_eq!(applied.gone, vec!["1".to_string()], "`dismiss(id)` takes the toast with it");
    assert_eq!(mirror.unread_count(), 0);
    assert!(mirror.showing().is_empty());
}

#[test]
fn dismiss_all_from_outside_the_shell_takes_every_toast_down() {
    let mut mirror = NotificationMirror::new();
    mirror.apply(Since { revision: 1, changed: vec![] });
    let mut first = note("1", "Yantrik", "2026-09-22T18:00:00Z");
    first.urgency = Urgency::Critical;
    let mut second = note("2", "Yantrik", "2026-09-22T18:01:00Z");
    second.urgency = Urgency::Critical;
    let applied = mirror.apply(Since {
        revision: 2,
        changed: vec![first.clone(), second.clone()],
    });
    assert_eq!(applied.fresh.len(), 2, "both are raised");
    assert!(applied.gone.is_empty());

    // `dismiss_all` marks both in one revision, and the next poll carries both back.
    for n in [&mut first, &mut second] {
        n.dismissed = true;
        n.read = true;
        n.revision = 3;
    }
    let applied = mirror.apply(Since { revision: 3, changed: vec![first, second] });
    assert!(applied.fresh.is_empty(), "a dismissal is not news");
    assert_eq!(applied.gone, vec!["1".to_string(), "2".to_string()]);
    assert!(mirror.showing().is_empty(), "the centre and the toasts agree");
}

#[test]
fn a_replaced_notification_is_raised_again() {
    // "debian.iso — 40%" becoming "debian.iso — finished" is news, and it keeps the same id.
    let mut mirror = NotificationMirror::new();
    mirror.apply(Since {
        revision: 1,
        changed: vec![note("1", "Downloads", "2026-09-21T09:00:00Z")],
    });
    let applied = mirror.apply(Since {
        revision: 2,
        changed: vec![note("1", "Downloads", "2026-09-21T09:07:00Z")],
    });
    assert_eq!(applied.fresh.len(), 1);
    assert_eq!(mirror.showing().len(), 1, "it replaced, it did not add");
}

#[test]
fn a_service_that_did_not_answer_is_not_an_empty_list() {
    let mut mirror = NotificationMirror::new();
    assert!(mirror.service_up(), "nothing has been asked yet");
    mirror.unreachable("the notifications service is unreachable".into());
    assert!(!mirror.service_up());
    assert!(mirror.notice().is_some());
    // And a successful poll clears it without anyone having to remember to.
    mirror.apply(Since { revision: 1, changed: vec![] });
    assert!(mirror.service_up());
}

#[test]
fn the_mirror_is_bounded() {
    let mut mirror = NotificationMirror::new();
    mirror.apply(Since { revision: 1, changed: vec![] });
    for i in 0..(MAX_MIRRORED + 20) {
        mirror.apply(Since {
            revision: i as u64 + 2,
            changed: vec![note(&i.to_string(), "Flood", "2026-09-21T09:00:00Z")],
        });
    }
    assert_eq!(mirror.showing().len(), MAX_MIRRORED);
}

#[test]
fn an_unparseable_timestamp_reads_as_just_now_not_as_a_wild_number() {
    assert_eq!(seconds_since("not a timestamp", NOW), 0);
    assert!(seconds_since("2020-01-01T00:00:00Z", NOW) > 0);
}

/// Grouped by app, the app that spoke last first, the newest of each first.
#[test]
fn the_list_is_grouped_by_app_newest_first() {
    let mut mirror = NotificationMirror::new();
    mirror.apply(Since {
        revision: 1,
        changed: vec![
            note("1", "Mail", "2026-09-21T09:00:00Z"),
            note("2", "zoom", "2026-09-21T09:01:00Z"),
            note("3", "mail", "2026-09-21T09:02:00Z"),
        ],
    });
    let rows = list(&mirror, NOW);
    let shape: Vec<String> = rows
        .iter()
        .map(|r| if r.is_group_header { format!("{} {} {}", r.group_name, r.group_icon, r.group_count) } else { r.id.clone() })
        .collect();
    assert_eq!(shape, ["mail M 2", "3", "1", "zoom Z 1", "2"]);
    assert_eq!(rows[0].age, None);
    assert!(list(&NotificationMirror::new(), NOW).is_empty());
}

#[test]
fn a_row_draws_every_button_but_the_row_itself() {
    let mut n = note("1", "Mail", "1970-01-01T00:01:40Z");
    n.actions = vec![
        Action { id: "default".into(), label: "Open".into() },
        Action { id: "reply".into(), label: "Reply".into() },
    ];
    n.urgency = Urgency::Critical;
    let row = to_slint_data(&n, 160);
    assert_eq!(row.actions, vec![Action { id: "reply".into(), label: "Reply".into() }]);
    assert_eq!((row.urgency, row.age), (2, Some(60)));
    assert_eq!(first_letter(""), "?");
    assert_eq!(first_letter("\u{e9}tude"), "\u{c9}");
    assert_eq!([Urgency::Low, Urgency::Normal, Urgency::Critical].map(urgency_int), [0, 1, 2]);
}

#[test]
fn a_click_moves_the_badge_at_once() {
    let mut mirror = NotificationMirror::new();
    mirror.apply(Since {
        revision: 1,
        changed: vec![note("1", "A", "2026-09-21T09:00:00Z"), note("2", "B", "2026-09-21T09:00:00Z")],
    });
    assert_eq!(mirror.unread_count(), 2);
    mirror.mark_read_locally("1");
    assert_eq!(mirror.unread_count(), 1);
    assert!(mirror.get("1").unwrap().read);
    mirror.dismiss_locally("2");
    assert_eq!(mirror.unread_count(), 0);
    assert_eq!(mirror.showing().len(), 1);
    assert!(mirror.get("9").is_none());
    let described = Json::Array(mirror.latest_for_describe(3));
    assert_eq!(
        render(&described),
        r#"[{"app":"A","at":"2026-09-21T09:00:00Z","id":"1","read":true,"title":"from A","urgency":"normal"}]"#
    );
}

/// An age is never below nothing, and spans the whole of time.
#[test]
fn an_age_is_never_negative() {
    assert_eq!(elapsed(Some(200), 100), 0);
    assert_eq!(elapsed(Some(i64::MIN), i64::MAX), u64::MAX);
    assert_eq!(elapsed(None, 100), 0);
    assert_eq!(seconds_since("1970-01-01T01:00:00+01:00", 5), 5);
}

/// One poll may name a notification twice: the second naming replaces the first, and the first
/// poll is quiet all the same.
#[test]
fn a_notification_named_twice_in_one_poll_is_replaced() {
    let twice = || vec![note("1", "A", "2026-09-21T09:00:00Z"), note("1", "A", "2026-09-21T09:05:00Z")];
    let mut mirror = NotificationMirror::new();
    let applied = mirror.apply(Since { revision: 1, changed: twice() });
    assert!(applied.fresh.is_empty());
    assert_eq!(mirror.showing().len(), 1);
    assert_eq!(mirror.get("1").unwrap().created_at, "2026-09-21T09:05:00Z");
    let applied = mirror.apply(Since { revision: 2, changed: twice() });
    assert_eq!(applied.fresh.len(), 2, "each naming moved the time");
}

/// The list is in the order in which things were last said: a replaced notification is the newest
/// there is, and reading or dismissing one moves nothing.
#[test]
fn what_was_said_last_stands_first() {
    let ids = |mirror: &NotificationMirror| mirror.showing().iter().map(|n| n.id.clone()).collect::<Vec<_>>();
    let mut mirror = NotificationMirror::new();
    mirror.apply(Since {
        revision: 1,
        changed: vec![
            note("1", "Downloads", "2026-09-21T09:00:00Z"),
            note("2", "Mail", "2026-09-21T09:01:00Z"),
            note("3", "Zoom", "2026-09-21T09:02:00Z"),
        ],
    });
    assert_eq!(ids(&mirror), ["3", "2", "1"]);
    mirror.apply(Since { revision: 2, changed: vec![note("1", "Downloads", "2026-09-21T09:07:00Z")] });
    assert_eq!(ids(&mirror), ["1", "3", "2"]);
    let mut read = note("2", "Mail", "2026-09-21T09:01:00Z");
    read.read = true;
    mirror.apply(Since { revision: 3, changed: vec![read] });
    assert_eq!(ids(&mirror), ["1", "3", "2"]);
    assert_eq!(list(&mirror, NOW)[0].group_name, "Downloads");
}
