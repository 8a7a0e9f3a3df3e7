//! The file browser, operable as data: what each action asks of it, and what is answered.
use crate::control;
use crate::control::{one, required_text, screen_name, two};
use crate::json;
use crate::json::{argument_of, number, put_last, string, Json, Row, Tree};
use crate::text;
use crate::text::same;
use crate::surface;
use crate::surface::{add_action, Action, Listing, Param, ParamKind, Takes};
use vstd::prelude::*;

verus! {

/// The file screen.
pub const FILES_SCREEN: i32 = 8;

/// Whether the shell goes to the file screen first: operating the browser is being on it.
pub fn ensure_files_screen(screen: i32) -> (r: bool)
    ensures
        r == (screen != FILES_SCREEN),
{
    screen != FILES_SCREEN
}

/// The directory and how much it holds.
pub struct Whereabouts {
    pub path: String,
    pub entries: u64,
    pub free_space: String,
}

impl Row for Whereabouts {
    open spec fn row(&self) -> Tree {
        Tree::Object(
            seq![
                ("path"@, Tree::Str(self.path@)),
                ("entries"@, Tree::Num(json::whole(self.entries))),
                ("free_space"@, Tree::Str(self.free_space@)),
            ],
        )
    }

    fn to_json(&self) -> (r: Json) {
        let mut o: Vec<(String, Json)> = Vec::new();
        put_last(&mut o, "path", string(self.path.as_str()));
        put_last(&mut o, "entries", number(self.entries));
        put_last(&mut o, "free_space", string(self.free_space.as_str()));
        assert(json::entries(o@) =~= self.row()->Object_0);
        Json::Object(o)
    }
}

/// Whether the listing has an entry by this name.
pub fn has_entry(names: &[String], name: &str) -> (r: bool)
    ensures
        r == text::strs(names@).contains(name@),
{
    let ghost all = text::strs(names@);
    let mut i: usize = 0;
    while i < names.len()
        invariant
            i <= names@.len(),
            all == text::strs(names@),
            forall|k: int| 0 <= k < i ==> #[trigger] all[k] != name@,
        decreases names@.len() - i,
    {
        assert(all[i as int] == names@[i as int]@);
        if same(names[i].as_str(), name) {
            return true;
        }
        i += 1;
    }
    false
}

/// The path a caller names.
pub fn path_arg(args: &Json) -> (r: Result<String, String>)
    ensures
        match r {
            Ok(s) => s@ == json::argument(args@, "path"@) && s@.len() > 0,
            Err(why) => json::argument(args@, "path"@).len() == 0 && why@
                == control::is_empty_text("path"@),
        },
{
    required_text(args, "path")
}

/// The name a caller gives to something new.
pub fn new_name_arg(args: &Json) -> (r: Result<String, String>)
    ensures
        match r {
            Ok(s) => s@ == json::argument(args@, "name"@) && s@.len() > 0,
            Err(why) => json::argument(args@, "name"@).len() == 0 && why@
                == control::is_empty_text("name"@),
        },
{
    required_text(args, "name")
}

/// The entry a caller names, which has to be in the listing.
pub fn entry_arg(args: &Json, names: &[String], path: &str) -> (r: Result<String, String>)
    ensures
        ({
            let name = json::argument(args@, "name"@);
            match r {
                Ok(s) => s@ == name && text::strs(names@).contains(name),
                Err(why) => !text::strs(names@).contains(name) && why@ == "nothing called `"@ + name
                    + "` in "@ + path@,
            }
        }),
{
    let name = argument_of(args, "name");
    if has_entry(names, name.as_str()) {
        return Ok(name);
    }
    let mut out = "nothing called `".to_owned();
    out.append(name.as_str());
    out.append("` in ");
    out.append(path);
    Err(out)
}

/// What was done in the browser.
#[derive(Clone, Copy, PartialEq, Eq, Debug, Structural)]
pub enum Deed {
    WentTo,
    Entered,
    CreatedFolder,
    CreatedFile,
    Deleted,
}

pub open spec fn deed_word(d: Deed) -> Seq<char> {
    match d {
        Deed::WentTo => "went_to"@,
        Deed::Entered => "entered"@,
        Deed::CreatedFolder => "created_folder"@,
        Deed::CreatedFile => "created_file"@,
        Deed::Deleted => "deleted"@,
    }
}

/// What is answered once something was done: what it was, and where that left the browser.
pub fn done(deed: Deed, name: &str, now: &Whereabouts) -> (r: Json)
    ensures
        r@ == Tree::Object(seq![(deed_word(deed), Tree::Str(name@)), ("now"@, now.row())]),
{
    let word = match deed {
        Deed::WentTo => "went_to",
        Deed::Entered => "entered",
        Deed::CreatedFolder => "created_folder",
        Deed::CreatedFile => "created_file",
        Deed::Deleted => "deleted",
    };
    two(word, string(name), "now", now.to_json())
}

/// What is answered once the browser went up.
pub fn went_up(now: &Whereabouts) -> (r: Json)
    ensures
        r@ == control::one_field("now"@, now.row()),
{
    one("now", now.to_json())
}

/// What is answered once a file was opened: which, and on which screen that left the shell.
pub fn opened(name: &str, screen: i32) -> (r: Json)
    ensures
        r@ == Tree::Object(
            seq![
                ("opened"@, Tree::Str(name@)),
                ("screen"@, Tree::Str(control::screen_called(screen))),
            ],
        ),
{
    two("opened", string(name), "screen", string(screen_name(screen)))
}

// ── Published actions ───────────────────────────────────────────────

/// The actions this module publishes.
pub open spec fn published() -> Seq<Listing> {
    Seq::<Listing>::empty().push(
        Listing::new("files_go"@, "Open the Files screen at an absolute path"@)
            .arg(Takes::new("path"@, ParamKind::Text).described("An absolute directory path, e.g. /home/user or /tmp"@)),
    ).push(
        Listing::new("files_enter"@, "Enter a subdirectory of the current one by name"@)
            .arg(Takes::new("name"@, ParamKind::Text).described("A directory name shown in the current listing"@)),
    ).push(
        Listing::new("files_open"@, "Open a file in the current directory (image, text, audio)"@)
            .arg(Takes::new("name"@, ParamKind::Text).described("A file name shown in the current listing"@)),
    ).push(
        Listing::new("files_up"@, "Go up to the parent directory"@),
    ).push(
        Listing::new("files_new_folder"@, "Create a folder in the current directory"@)
            .arg(Takes::new("name"@, ParamKind::Text).described("The new folder's name"@)),
    ).push(
        Listing::new("files_new_file"@, "Create an empty file in the current directory"@)
            .arg(Takes::new("name"@, ParamKind::Text).described("The new file's name"@)),
    ).push(
        Listing::new("files_delete"@, "Delete a file or folder in the current directory"@).risk("dangerous"@)
            .arg(Takes::new("name"@, ParamKind::Text).described("The name to delete, shown in the current listing"@)),
    )
}

/// The actions this module publishes.
pub fn actions() -> (r: Vec<Action>)
    ensures
        surface::shown(r@) == published(),
{
    let mut out: Vec<Action> = Vec::new();
    assert(surface::shown(out@) =~= Seq::<Listing>::empty());
    add_action(
        &mut out,
        Action::new("files_go", "Open the Files screen at an absolute path")
            .arg(Param::text("path").describe("An absolute directory path, e.g. /home/user or /tmp")),
    );
    add_action(
        &mut out,
        Action::new("files_enter", "Enter a subdirectory of the current one by name")
            .arg(Param::text("name").describe("A directory name shown in the current listing")),
    );
    add_action(
        &mut out,
        Action::new("files_open", "Open a file in the current directory (image, text, audio)")
            .arg(Param::text("name").describe("A file name shown in the current listing")),
    );
    add_action(
        &mut out,
        Action::new("files_up", "Go up to the parent directory"),
    );
    add_action(
        &mut out,
        Action::new("files_new_folder", "Create a folder in the current directory")
            .arg(Param::text("name").describe("The new folder's name")),
    );
    add_action(
        &mut out,
        Action::new("files_new_file", "Create an empty file in the current directory")
            .arg(Param::text("name").describe("The new file's name")),
    );
    add_action(
        &mut out,
        Action::new("files_delete", "Delete a file or folder in the current directory").risk("dangerous")
            .arg(Param::text("name").describe("The name to delete, shown in the current listing")),
    );
    out
}

// ── Laws ────────────────────────────────────────────────────────────

/// Deleting is dangerous, and everything else that is done to a folder is standard.
pub proof fn law_how_the_files_actions_are_graded()
    ensures
        published().len() == 7,
        published()[0].name == "files_go"@ && published()[0].grade == "standard"@,
        published()[1].name == "files_enter"@ && published()[1].grade == "standard"@,
        published()[2].name == "files_open"@ && published()[2].grade == "standard"@,
        published()[3].name == "files_up"@ && published()[3].grade == "standard"@,
        published()[4].name == "files_new_folder"@ && published()[4].grade == "standard"@,
        published()[5].name == "files_new_file"@ && published()[5].grade == "standard"@,
        published()[6].name == "files_delete"@ && published()[6].grade == "dangerous"@,
{
}

/// An entry is named where it is in the listing, as it stands there, and a path and a new name have
/// to be given.
pub proof fn law_what_has_to_be_in_the_listing(
    args: Json,
    names: &[String],
    path: &str,
    entry: Result<String, String>,
    at: Result<String, String>,
    new: Result<String, String>,
)
    requires
        call_ensures(entry_arg, (&args, names, path), entry),
        call_ensures(path_arg, (&args,), at),
        call_ensures(new_name_arg, (&args,), new),
    ensures
        entry is Ok <==> exists|i: int|
            0 <= i < names@.len() && (#[trigger] names@[i])@ == json::argument(args@, "name"@),
        entry matches Ok(s) ==> s@ == json::argument(args@, "name"@),
        at is Ok <==> json::argument(args@, "path"@).len() > 0,
        at matches Ok(s) ==> s@ == json::argument(args@, "path"@),
        new is Ok <==> json::argument(args@, "name"@).len() > 0,
        new matches Ok(s) ==> s@ == json::argument(args@, "name"@),
{
    let name = json::argument(args@, "name"@);
    let all = text::strs(names@);
    if all.contains(name) {
        let i = choose|i: int| 0 <= i < all.len() && all[i] == name;
        assert(names@[i]@ == name);
    }
    if exists|i: int| 0 <= i < names@.len() && (#[trigger] names@[i])@ == name {
        let i = choose|i: int| 0 <= i < names@.len() && (#[trigger] names@[i])@ == name;
        assert(all[i] == name);
    }
}

} // verus!
