//! The catalogue of installed apps.
use yantrik_ui::apps::{Catalogue, DesktopEntry, Scanned};

fn scanned(name: &str, launchable: bool) -> Scanned {
    Scanned {
        entry: DesktopEntry { app_id: name.to_lowercase(), name: name.into(), command: format!("yantrik-{name}") },
        launchable,
    }
}

#[test]
fn only_what_can_open_is_kept() {
    let mut c = Catalogue::new();
    let done = c.refresh(&[scanned("Notes", true), scanned("Music", false), scanned("Files", true)]);
    assert_eq!(done.count, 2);
    assert_eq!(done.dropped, ["Music (yantrik-Music)"]);
    let ids: Vec<&str> = c.get().iter().map(|e| e.app_id.as_str()).collect();
    assert_eq!(ids, ["notes", "files"]);
    let gone = c.refresh(&[]);
    assert_eq!((gone.count, c.get().len()), (0, 0), "a rescan replaces the whole list");
}

/// A shelved app never reaches the catalogue, so no surface that reads it can offer one.
#[test]
fn the_catalogue_leaves_shelved_apps_out() {
    let shelved = ["music", "podcasts"];
    let shelved_exec = |command: &str| shelved.iter().any(|s| command.to_lowercase() == format!("yantrik-{s}"));
    let scan: Vec<Scanned> = ["Notes", "Music", "Files", "Podcasts"]
        .iter()
        .map(|name| scanned(name, !shelved.contains(&name.to_lowercase().as_str())))
        .collect();
    let mut c = Catalogue::new();
    c.refresh(&scan);
    for entry in c.get().iter() {
        assert!(
            !shelved.contains(&entry.app_id.as_str()) && !shelved_exec(&entry.command),
            "the catalogue lists `{}` ({}), which this build has shelved",
            entry.name,
            entry.command
        );
    }
    assert_eq!(c.get().len(), 2);
}
