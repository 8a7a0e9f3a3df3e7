//! Which apps are open.
use yantrik_ui::running::{Failures, Running};

/// A second copy of a single-instance app does not take the record from the window that is
/// open, and does not take it away when it exits a moment later.
#[test]
fn a_second_copy_does_not_evict_the_window_that_is_open() {
    let app = "notes-test-second-copy";
    let open = 4711;
    let live = [open];
    let mut apps = Running::new();
    assert!(apps.mark_launched(app, open, "yantrik-notes", &live, 1));
    let second = u32::MAX; // never a live pid
    assert!(!apps.mark_launched(app, second, "yantrik-notes", &live, 2), "the open window keeps the record");
    apps.mark_exited(app, second);
    assert!(apps.is_running(app, &live), "the window is still open");
    apps.mark_exited(app, open);
    assert!(!apps.is_running(app, &live));
}

/// A record left behind by a process that has gone is replaced, not honoured.
#[test]
fn a_dead_record_does_not_block_a_relaunch() {
    let app = "notes-test-dead-record";
    let live = [4711];
    let mut apps = Running::new();
    assert!(apps.mark_launched(app, u32::MAX, "yantrik-notes", &live, 1));
    assert!(apps.mark_launched(app, 4711, "yantrik-notes", &live, 2));
    assert!(apps.is_running(app, &live));
    apps.mark_exited(app, 4711);
}

#[test]
fn what_is_open_is_listed_by_id_and_only_while_it_lives() {
    let mut apps = Running::new();
    for (n, app) in ["terminal", "notes", "files"].iter().enumerate() {
        assert!(apps.mark_launched(app, n as u32, "bin", &[0, 1, 2], 10));
    }
    let open: Vec<String> = apps.running(&[0, 2]).into_iter().map(|a| a.app_id).collect();
    assert_eq!(open, ["files", "terminal"]);
}

#[test]
fn failures_are_listed_newest_first_and_forgotten() {
    let mut failed = Failures::new();
    failed.mark_launch_failed("notes", "yantrik-notes", "exit status: 1", 20, 5);
    failed.mark_launch_failed("files", "yantrik-files", "exit status: 2", 30, 9);
    let ids: Vec<String> = failed.launch_failures().into_iter().map(|f| f.app_id).collect();
    assert_eq!(ids, ["files", "notes"]);
    assert_eq!(failed.last_launch_failure("notes").unwrap().lived_ms, 20);
    failed.clear_launch_failure("notes");
    assert!(failed.last_launch_failure("notes").is_none());
    assert_eq!(failed.launch_failures().len(), 1);
}
