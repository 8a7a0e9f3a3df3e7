//! Copying, moving, trashing and restoring.
use yantrik_ui::fileops::{
    cancelled, copy_outcome, e_path, error, may_copy_from, name, new_entry, record_left, rename_refused, restore, stage,
    stored_path, target, transfer, trash, trash_item, trash_items, trash_root, unique, Copying, Found, Kind, Lookup, Make,
    Order,
};
use yantrik_ui::paths::{file_name, in_a_folder, is_absolute, is_same, is_within, join_path, parts_of};

fn look(kind: Kind) -> Lookup {
    Lookup {
        destination: Ok(b"/home/me/to".to_vec()),
        kind: Ok(kind),
        source_parent: Ok(b"/home/me".to_vec()),
        taken: false,
        source: Ok(b"/home/me/a".to_vec()),
    }
}

#[test]
fn a_name_is_one_part_of_a_path() {
    assert_eq!(name("notes.txt"), Ok("notes.txt"));
    for bad in ["", ".", "..", "a/b", "a\0b"] {
        assert!(name(bad).is_err(), "{bad:?}");
    }
    assert_eq!(new_entry(b"/home/me", "x").unwrap(), b"/home/me/x".to_vec());
    assert_eq!(unique(7, 8, 9), "7-8-9");
    assert_eq!(error(b"/tmp/x", "gone"), "/tmp/x: gone");
    assert_eq!(rename_refused(b"/tmp/x", false, "busy"), "/tmp/x: busy");
    assert!(rename_refused(b"/tmp/x", true, "busy").starts_with("Cross-filesystem moves"));
    assert!(cancelled(true).is_err() && cancelled(false).is_ok());
}

#[test]
fn a_path_is_read_part_by_part() {
    assert_eq!(parts_of(b"/a//b/./c/"), vec![b"/".to_vec(), b"a".to_vec(), b"b".to_vec(), b"c".to_vec()]);
    assert!(is_absolute(b"/a") && !is_absolute(b"a"));
    assert_eq!(file_name(b"/a/b/").unwrap(), b"b".to_vec());
    assert_eq!(file_name(b"/"), None);
    assert_eq!(file_name(b"/a/.."), None);
    assert!(in_a_folder(b"/a") && !in_a_folder(b"/"));
    assert!(is_within(b"/a/b/c", b"/a/b") && is_within(b"/a/b", b"/a/b/") && !is_within(b"/a/bc", b"/a/b"));
    assert!(is_same(b"/a//b", b"/a/b/"));
    assert_eq!(join_path(b"/a/", b"b"), b"/a/b".to_vec());
    assert_eq!(join_path(b"/a", b"/b"), b"/b".to_vec());
    assert_eq!(target(b"/x/y", b"/to").unwrap(), b"/to/y".to_vec());
}

#[test]
fn a_transfer_replaces_nothing_and_never_goes_inside_itself() {
    let t = transfer(b"/home/me/a", true, false, &look(Kind::File)).unwrap();
    assert_eq!((t.to, t.moves), (b"/home/me/to/a".to_vec(), true));
    assert!(!transfer(b"/home/me/a", false, false, &look(Kind::File)).unwrap().moves);
    let taken = Lookup { taken: true, ..look(Kind::File) };
    assert!(transfer(b"/home/me/a", true, false, &taken).is_err());
    let inside = Lookup { destination: Ok(b"/home/me/a/b".to_vec()), ..look(Kind::Folder) };
    assert!(transfer(b"/home/me/a", true, false, &inside).is_err());
    assert!(transfer(b"/home/me/a", true, true, &look(Kind::File)).is_err(), "canceled");
    assert_eq!(transfer(b"/", true, false, &look(Kind::File)).map(|_| ()).unwrap_err(), "Cannot transfer a filesystem root");
    assert_eq!(stage(b"/to", "7-8-9"), b"/to/.yantrik-copy-7-8-9".to_vec());
}

#[test]
fn a_copy_that_failed_says_what_it_left_behind() {
    assert_eq!(copy_outcome(Ok(()), None), Ok(()));
    assert_eq!(copy_outcome(Err("full".into()), Some(Ok(()))), Err("full".to_string()));
    assert_eq!(
        copy_outcome(Err("full".into()), Some(Err("busy".into()))),
        Err("full; temporary copy could not be removed: busy".to_string())
    );
    assert!(may_copy_from(true).is_ok());
    assert_eq!(may_copy_from(false).unwrap_err(), "Source changed while copying.");
}

/// A folder with a file and a link in it, copied item by item.
#[test]
fn a_folder_is_copied_item_by_item_and_a_link_is_not_followed() {
    let mut c = Copying::new(b"/a", b"/b");
    assert!(matches!(c.next(false), Order::Inspect));
    assert_eq!(c.inspected(Kind::Folder), Ok(Make::Folder));
    assert!(matches!(c.next(false), Order::NextEntry));
    assert!(c.entry(Some(b"f")).is_none());
    assert_eq!(c.at_hand(), Some((b"/a/f".to_vec(), b"/b/f".to_vec())));
    assert_eq!(c.inspected(Kind::File), Ok(Make::File));
    assert!(matches!(c.next(false), Order::ReadSome));
    assert!(matches!(c.next(true), Order::Fail(_)), "canceled in the middle of a file");
    assert!(c.read(512).is_none());
    assert_eq!(c.read(0).unwrap().dst, b"/b/f".to_vec());
    assert!(c.entry(Some(b"l")).is_none());
    assert_eq!(c.inspected(Kind::Link), Ok(Make::Link));
    assert_eq!(c.entry(None).unwrap().src, b"/a".to_vec());
    assert!(matches!(c.next(false), Order::Done));
    let mut device = Copying::new(b"/dev/x", b"/b");
    assert!(device.inspected(Kind::Other).is_err());
}

#[test]
fn a_tree_that_is_too_deep_is_refused() {
    let mut c = Copying::new(b"/a", b"/b");
    let mut levels = 0;
    loop {
        match c.next(false) {
            Order::Inspect => {
                c.inspected(Kind::Folder).unwrap();
                let _ = c.entry(Some(b"d"));
                levels += 1;
            }
            Order::Fail(why) => {
                assert_eq!(why, "Folder nesting exceeds 128 levels.");
                break;
            }
            _ => panic!("neither"),
        }
    }
    assert_eq!(levels, 129);
}

/// What goes to the trash comes back to where it was.
#[test]
fn the_trash_gives_back_what_was_put_in_it() {
    let root = trash_root(None, b"/home/me");
    assert_eq!(root, b"/home/me/.local/share/yantrik/trash-v2".to_vec());
    assert_eq!(trash_root(Some(b"/data"), b"/home/me"), b"/data/yantrik/trash-v2".to_vec());
    assert_eq!(trash_root(Some(b"data"), b"/home/me"), root);
    let discard = trash(b"/home/me/x", &root, Ok(b"/home/me".to_vec())).unwrap();
    assert_eq!(discard.source, b"/home/me/x".to_vec());
    assert_eq!(discard.record, b"[47,104,111,109,101,47,109,101,47,120]".to_vec());
    let found = Found { id: Some("1-2-3".into()), record: Ok(discard.record), stored: stored_path(&root, "1-2-3") };
    let items = trash_items(vec![Ok(found)]).unwrap();
    assert_eq!((items[0].name.as_str(), &items[0].original), ("x", &b"/home/me/x".to_vec()));
    let back = restore(&items[0], &root).unwrap();
    assert_eq!((back.from, back.to), (stored_path(&root, "1-2-3"), b"/home/me/x".to_vec()));
    assert_eq!(back.record, e_path(&root, "1-2-3"));
    assert!(record_left("busy").contains("busy"));
}

#[test]
fn the_trash_itself_is_never_trashed() {
    let root = trash_root(None, b"/home/me");
    let err = trash(b"/home/me", &root, Ok(b"/home".to_vec())).map(|_| ()).unwrap_err();
    assert_eq!(err, "The Trash storage folder cannot be moved to Trash.");
    assert_eq!(trash(b"/", &root, Ok(b"/".to_vec())).map(|_| ()).unwrap_err(), "Cannot trash a filesystem root");
    assert_eq!(trash(b"/x", &root, Err("no folder".into())).map(|_| ()).unwrap_err(), "no folder");
}

#[test]
fn the_trash_is_listed_by_name_whatever_its_letters() {
    let entry = |id: &str, path: &str| {
        let record: Vec<String> = path.bytes().map(|b| b.to_string()).collect();
        Ok(Found {
            id: Some(id.to_string()),
            record: Ok(format!("[{}]", record.join(",")).into_bytes()),
            stored: id.as_bytes().to_vec(),
        })
    };
    let items = trash_items(vec![entry("1", "/z/beta"), entry("2", "/z/Alpha"), entry("3", "/z/gamma")]).unwrap();
    let names: Vec<&str> = items.iter().map(|i| i.name.as_str()).collect();
    assert_eq!(names, ["Alpha", "beta", "gamma"]);
    assert!(trash_items(vec![Err("unreadable".to_string())]).is_err());
    let no_name = Found { id: None, record: Ok(vec![]), stored: vec![] };
    assert_eq!(trash_items(vec![Ok(no_name)]).map(|_| ()).unwrap_err(), "Invalid Trash identifier");
    let garbled = Found { id: Some("1".into()), record: Ok(b"nonsense".to_vec()), stored: vec![] };
    assert!(trash_items(vec![Ok(garbled)]).is_err());
    assert_eq!(
        trash_item("1".into(), b"x".to_vec(), vec![]).map(|_| ()).unwrap_err(),
        "Trash metadata has an invalid original path."
    );
}
