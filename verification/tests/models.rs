//! Publishing a list only when it changes.
use yantrik_ui::models::changed;

fn rows(values: &[&str]) -> Vec<String> {
    values.iter().map(|s| s.to_string()).collect()
}

#[test]
fn unchanged_polls_keep_the_existing_model() {
    assert!(changed(&rows(&["Terminal", "Notes"]), rows(&["Terminal", "Notes"])).is_none());
    assert!(changed(&rows(&[]), vec![]).is_none());
}

#[test]
fn additions_removals_updates_and_order_changes_still_publish() {
    for values in [
        &["Terminal", "Notes", "Editor"][..],
        &["Terminal"],
        &["Notes", "Terminal"],
        &["Terminal", "Notes \u{2014} unsaved"],
        &[],
    ] {
        let updated = changed(&rows(&["Terminal", "Notes"]), rows(values)).unwrap();
        assert_eq!(updated, rows(values));
    }
}
