//! Preferences: what is read, what is written, and what is never overwritten.
use yantrik_ui::config_store::{
    categories_for, may_hold, may_read, search_categories, OnDisk, PreferenceFile, Preferences, Publish, LIMIT,
};

fn file(text: Option<&str>) -> PreferenceFile {
    PreferenceFile::open("/p.yaml".into(), Ok(text.map(|t| t.to_string()))).unwrap()
}

fn now(text: Option<&str>) -> Result<Option<String>, String> {
    Ok(text.map(|t| t.to_string()))
}

const PLAIN: OnDisk = OnDisk { is_file: true, links: 1, writable: true };

/// A save changes the keys it names and keeps the others, also those it does not know.
#[test]
fn a_save_keeps_what_it_does_not_name() {
    let held = Some("theme: dark\nfuture: 1\n");
    let f = file(held);
    let text = f.save("theme: light\n", now(held), Some(PLAIN)).unwrap();
    assert_eq!(text, "theme: light\nfuture: 1\n");
    assert_eq!(file(None).save("theme: light\n", now(None), None).unwrap(), "theme: light\n");
}

#[test]
fn a_save_that_would_lose_something_is_refused() {
    let held = Some("theme: dark\n");
    let f = file(held);
    let err = |r: Result<String, String>| r.unwrap_err();
    assert!(err(f.save("theme: light\n", now(Some("theme: blue\n")), Some(PLAIN))).contains("changed on disk"));
    assert!(err(f.save("theme: light\n", Err("denied".into()), Some(PLAIN))).contains("denied"));
    assert!(err(f.save(&format!("a: {}\n", "x".repeat(LIMIT)), now(held), Some(PLAIN))).contains("256 KiB"));
    assert!(err(f.save("- a\n", now(held), Some(PLAIN))).contains("Cannot serialize"));
    for disk in [
        OnDisk { is_file: false, ..PLAIN },
        OnDisk { links: 2, ..PLAIN },
        OnDisk { writable: false, ..PLAIN },
    ] {
        assert!(err(f.save("theme: light\n", now(held), Some(disk))).contains("linked or read-only"));
    }
    let broken = Some(": : :\n- x");
    assert!(err(file(broken).save("theme: light\n", now(broken), Some(PLAIN))).contains("invalid YAML"));
}

#[test]
fn what_was_staged_becomes_the_file_only_where_it_is_still_the_same() {
    let held = Some("theme: dark\n");
    let mut f = file(held);
    assert_eq!(f.publish(now(held)), Ok(Publish::Rename));
    assert!(f.publish(now(None)).unwrap_err().contains("changed while saving"));
    assert_eq!(f.publish(Err("denied".into())), Err("denied".to_string()));
    assert_eq!(file(None).publish(now(None)), Ok(Publish::Link));
    f.published("theme: light\n".into());
    assert_eq!((f.content(), f.path()), (Some("theme: light\n"), "/p.yaml"));
    assert!(PreferenceFile::open("/p.yaml".into(), Err("no".into())).is_err());
}

#[test]
fn a_file_is_read_once() {
    let mut all = Preferences::new();
    assert!(!all.knows("/p.yaml"));
    assert_eq!(all.load("/p.yaml", now(Some("a: 1\n"))), Ok(Some("a: 1\n".to_string())));
    assert_eq!(all.load("/p.yaml", now(Some("a: 2\n"))), Ok(Some("a: 1\n".to_string())));
    assert!(all.knows("/p.yaml") && all.file("/p.yaml").is_some() && all.file("/q.yaml").is_none());
    all.published("/p.yaml", "a: 3\n".into());
    assert_eq!(all.file("/p.yaml").unwrap().content(), Some("a: 3\n"));
    assert!(all.load("/q.yaml", Err("no".into())).is_err());
}

#[test]
fn too_much_or_the_wrong_thing_is_not_read() {
    assert!(may_read(true, LIMIT as u64).is_ok());
    assert!(may_read(true, LIMIT as u64 + 1).is_err());
    assert!(may_read(false, 1).is_err());
    assert!(may_hold("a: 1\n").is_ok());
    assert!(may_hold(&"x".repeat(LIMIT + 1)).is_err());
}

#[test]
fn a_search_finds_the_pages_that_answer() {
    assert_eq!(categories_for("dark"), vec![0]);
    assert_eq!(search_categories("  WALLPAPER "), vec![0]);
    assert_eq!(search_categories(""), (0..9).collect::<Vec<i32>>());
    assert!(search_categories("zzzz").is_empty());
}

/// Two parts find what both find, and capitals are as good as small letters.
#[test]
fn a_search_of_two_parts_finds_what_both_find() {
    assert_eq!(search_categories("privacy"), vec![1, 5]);
    assert_eq!(search_categories("   "), (0..9).collect::<Vec<i32>>());
    for (a, b) in [("privacy", "local"), ("local", "privacy"), ("privacy", ""), ("lock", "zzzz"), ("a", "PRIV  lo")] {
        let (first, second) = (search_categories(a), search_categories(b));
        let both: Vec<i32> = first.into_iter().filter(|p| second.contains(p)).collect();
        assert_eq!(search_categories(&format!("{a} {b}")), both, "{a} {b}");
    }
    assert_eq!(search_categories("privacy local"), vec![1]);
    assert_eq!(search_categories("PriVacy"), vec![1, 5]);
}
