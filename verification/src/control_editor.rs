//! The text editor, operable as data: the open document, and where it is saved.
use crate::control;
use crate::control::{one, required_text, two};
use crate::json;
use crate::json::{number, put_last, string, text_at, Json, Row, Tree};
use crate::paths;
use crate::paths::bounds_of;
use crate::text;
use crate::text::{chars_of, decimal, lines_of, part, words_of};
use crate::surface;
use crate::surface::{add_action, Action, Listing, Param, ParamKind, Takes};
use vstd::prelude::*;

verus! {

/// The editor screen.
pub const EDITOR_SCREEN: i32 = 12;

/// How much of the document is reported.
pub const CONTENT_PREVIEW: usize = 4000;

/// Whether the shell goes to the editor screen first.
pub fn ensure_editor_screen(screen: i32) -> (r: bool)
    ensures
        r == (screen != EDITOR_SCREEN),
{
    screen != EDITOR_SCREEN
}

/// The open document.
pub struct Document {
    pub name: String,
    pub content: String,
    pub modified: bool,
    pub readonly: bool,
}

/// How many lines a document has: one at least where there is anything in it.
pub open spec fn line_count(content: Seq<char>) -> nat {
    let n = text::lines(content).len();
    if n == 0 && content.len() > 0 {
        1
    } else {
        n
    }
}

pub open spec fn preview(content: Seq<char>) -> Seq<char> {
    if content.len() > CONTENT_PREVIEW {
        content.take(CONTENT_PREVIEW as int)
    } else {
        content
    }
}

impl Row for Document {
    open spec fn row(&self) -> Tree {
        Tree::Object(
            seq![
                ("name"@, Tree::Str(self.name@)),
                ("modified"@, Tree::Bool(self.modified)),
                ("readonly"@, Tree::Bool(self.readonly)),
                ("chars"@, Tree::Num(json::whole(self.content@.len() as u64))),
                ("lines"@, Tree::Num(json::whole(line_count(self.content@) as u64))),
                ("content"@, Tree::Str(preview(self.content@))),
                ("content_truncated"@, Tree::Bool(self.content@.len() > CONTENT_PREVIEW)),
            ],
        )
    }

    /// The open document as data: its name, a preview, and the counts a caller reasons about.
    fn to_json(&self) -> (r: Json) {
        let v = chars_of(self.content.as_str());
        let chars: usize = v.len();
        let lines = lines_of(self.content.as_str());
        assert(text::strs(lines@).len() == lines@.len());
        let count: usize = if lines.len() == 0 && chars > 0 {
            1
        } else {
            lines.len()
        };
        let shown = if chars > CONTENT_PREVIEW {
            assert(v@.subrange(0, CONTENT_PREVIEW as int) =~= v@.take(CONTENT_PREVIEW as int));
            part(v.as_slice(), 0, CONTENT_PREVIEW)
        } else {
            self.content.clone()
        };
        let mut o: Vec<(String, Json)> = Vec::new();
        put_last(&mut o, "name", string(self.name.as_str()));
        put_last(&mut o, "modified", Json::Bool(self.modified));
        put_last(&mut o, "readonly", Json::Bool(self.readonly));
        put_last(&mut o, "chars", number(chars as u64));
        put_last(&mut o, "lines", number(count as u64));
        put_last(&mut o, "content", Json::Str(shown));
        put_last(&mut o, "content_truncated", Json::Bool(chars > CONTENT_PREVIEW));
        assert(json::entries(o@) =~= self.row()->Object_0);
        Json::Object(o)
    }
}

/// One line for when the editor is up.
pub open spec fn headline(d: Document) -> Seq<char> {
    "Yantrik \u{2014} editing \""@ + (if d.name@.len() == 0 {
        "untitled"@
    } else {
        d.name@
    }) + "\", "@ + text::dec(text::words(d.content@).len()) + " words"@ + (if d.modified {
        ", unsaved"@
    } else {
        ""@
    })
}

/// One line for when the editor is up.
pub fn summary(d: &Document) -> (r: String)
    ensures
        r@ == headline(*d),
{
    let words = words_of(d.content.as_str());
    assert(text::strs(words@).len() == words@.len());
    let mut out = "Yantrik \u{2014} editing \"".to_owned();
    if d.name.as_str().is_empty() {
        out.append("untitled");
    } else {
        out.append(d.name.as_str());
    }
    out.append("\", ");
    out.append(decimal(words.len() as u64).as_str());
    out.append(" words");
    if d.modified {
        out.append(", unsaved");
    } else {
        out.append("");
    }
    out
}

/// The document with what a caller adds to its end.
pub fn appended(d: &Document, args: &Json) -> (r: String)
    ensures
        r@ == d.content@ + json::text_under(args@, "text"@),
{
    let mut out = d.content.clone();
    out.append(text_at(args, "text").as_str());
    out
}

/// What is answered once the document changed.
pub fn edited(d: &Document) -> (r: Json)
    ensures
        r@ == control::one_field("editor"@, d.row()),
{
    one("editor", d.to_json())
}

/// What a save came to. A document with no file asks for a name and writes nothing.
pub fn saved(d: &Document, save_error: &str, asks_for_name: bool) -> (r: Result<Json, String>)
    ensures
        if save_error@.len() > 0 {
            r matches Err(why) && why@ == save_error@
        } else if asks_for_name {
            r matches Err(why) && why@
                == "this document has no file yet \u{2014} use editor_save_as with a path"@
        } else {
            r matches Ok(answer) && answer@ == Tree::Object(
                seq![("saved"@, Tree::Str(d.name@)), ("editor"@, d.row())],
            )
        },
{
    if !save_error.is_empty() {
        return Err(save_error.to_owned());
    }
    if asks_for_name {
        return Err(
            "this document has no file yet \u{2014} use editor_save_as with a path".to_owned(),
        );
    }
    Ok(two("saved", string(d.name.as_str()), "editor", d.to_json()))
}

/// A path as far as its separators and dots go: every other character stands for a letter.
pub open spec fn outline(s: Seq<char>) -> Seq<u8> {
    s.map_values(
        |c: char|
            if c == '/' {
                paths::SLASH
            } else if c == '.' {
                paths::DOT
            } else {
                120u8
            },
    )
}

/// Where the last part of a path stands, where it is a name.
pub open spec fn name_bounds(o: Seq<u8>) -> Option<(int, int)> {
    let b = paths::bounds(o);
    if b.len() == 0 {
        None
    } else {
        let last = o.subrange(b.last().0, b.last().1);
        if last == paths::here() || last == paths::up() {
            None
        } else {
            Some(b.last())
        }
    }
}

/// The folder a path is in, with nothing for the one the shell is in.
pub open spec fn folder_of(s: Seq<char>) -> Seq<char> {
    let o = outline(s);
    let b = paths::bounds(o);
    if b.len() >= 2 {
        s.take(b[b.len() - 2].1)
    } else if paths::absolute(o) {
        "/"@
    } else {
        "."@
    }
}

/// Where a document is saved: a folder, and a name in it.
#[derive(Debug)]
pub struct Target {
    pub dir: String,
    pub name: String,
}

fn outline_of(v: &[char]) -> (r: Vec<u8>)
    ensures
        r@ == outline(v@),
{
    let mut out: Vec<u8> = Vec::new();
    let mut i: usize = 0;
    while i < v.len()
        invariant
            i <= v@.len(),
            out@.len() == i,
            forall|k: int| 0 <= k < i ==> #[trigger] out@[k] == outline(v@)[k],
        decreases v@.len() - i,
    {
        if v[i] == '/' {
            out.push(paths::SLASH);
        } else if v[i] == '.' {
            out.push(paths::DOT);
        } else {
            out.push(120);
        }
        i += 1;
    }
    assert(out@ =~= outline(v@));
    out
}

/// Where a path says a document is saved.
pub fn save_target(path: &str) -> (r: Option<Target>)
    ensures
        match name_bounds(outline(path@)) {
            Some((a, b)) => r matches Some(t) && t.name@ == path@.subrange(a, b) && t.dir@
                == folder_of(path@),
            None => r is None,
        },
{
    let v = chars_of(path);
    let o = outline_of(v.as_slice());
    let b = bounds_of(o.as_slice());
    let ghost all = paths::bounds(o@);
    assert(all.len() == b@.len());
    let count: usize = b.len();
    if count == 0 {
        return None;
    }
    let (from, to) = b[count - 1];
    assert(all.last() == (from as int, to as int));
    let ghost last = o@.subrange(from as int, to as int);
    assert(last == paths::here() <==> to - from == 1 && o@[from as int] == paths::DOT) by {
        if to - from == 1 && o@[from as int] == paths::DOT {
            assert(last =~= paths::here());
        } else if last == paths::here() {
            assert(last.len() == 1);
            assert(last[0] == o@[from as int]);
        }
    }
    assert(last == paths::up() <==> to - from == 2 && o@[from as int] == paths::DOT && o@[from + 1]
        == paths::DOT) by {
        if to - from == 2 && o@[from as int] == paths::DOT && o@[from + 1] == paths::DOT {
            assert(last =~= paths::up());
        } else if last == paths::up() {
            assert(last.len() == 2);
            assert(last[0] == o@[from as int]);
            assert(last[1] == o@[from + 1]);
        }
    }
    if to - from == 1 && o[from] == paths::DOT {
        return None;
    }
    if to - from == 2 && o[from] == paths::DOT && o[from + 1] == paths::DOT {
        return None;
    }
    let name = part(v.as_slice(), from, to);
    let dir = if count >= 2 {
        let end = b[count - 2].1;
        assert(all[count - 2] == (b@[count - 2].0 as int, b@[count - 2].1 as int));
        assert(v@.subrange(0, end as int) =~= v@.take(end as int));
        part(v.as_slice(), 0, end)
    } else if o.len() > 0 && o[0] == paths::SLASH {
        "/".to_owned()
    } else {
        ".".to_owned()
    };
    Some(Target { dir, name })
}

/// Decide where a document is saved.
pub fn save_as(args: &Json) -> (r: Result<Target, String>)
    ensures
        ({
            let path = json::argument(args@, "path"@);
            if path.len() == 0 {
                r matches Err(why) && why@ == control::is_empty_text("path"@)
            } else {
                match name_bounds(outline(path)) {
                    Some((a, b)) => r matches Ok(t) && t.name@ == path.subrange(a, b) && t.dir@
                        == folder_of(path),
                    None => r matches Err(why) && why@ == "`"@ + path + "` has no file name"@,
                }
            }
        }),
{
    let path = match required_text(args, "path") {
        Ok(p) => p,
        Err(why) => {
            return Err(why);
        },
    };
    match save_target(path.as_str()) {
        Some(t) => Ok(t),
        None => {
            let mut out = "`".to_owned();
            out.append(path.as_str());
            out.append("` has no file name");
            Err(out)
        },
    }
}

/// What saving to a path came to.
pub fn saved_to(path: &str, d: &Document, save_error: &str) -> (r: Result<Json, String>)
    ensures
        if save_error@.len() > 0 {
            r matches Err(why) && why@ == save_error@
        } else {
            r matches Ok(answer) && answer@ == Tree::Object(
                seq![("saved_to"@, Tree::Str(path@)), ("editor"@, d.row())],
            )
        },
{
    if !save_error.is_empty() {
        return Err(save_error.to_owned());
    }
    Ok(two("saved_to", string(path), "editor", d.to_json()))
}

// ── Published actions ───────────────────────────────────────────────

/// The actions this module publishes.
pub open spec fn published() -> Seq<Listing> {
    Seq::<Listing>::empty().push(
        Listing::new("editor_new"@, "Open the text editor with a fresh, empty document"@),
    ).push(
        Listing::new("editor_set_content"@, "Replace the whole document with this text"@)
            .arg(Takes::new("text"@, ParamKind::Text).described("The full new contents of the document"@)),
    ).push(
        Listing::new("editor_append"@, "Add text to the end of the document"@)
            .arg(Takes::new("text"@, ParamKind::Text).described("Text to append"@)),
    ).push(
        Listing::new("editor_save"@, "Save the document to the file it came from"@),
    ).push(
        Listing::new("editor_save_as"@, "Write the document to a specific path"@)
            .arg(Takes::new("path"@, ParamKind::Text).described("An absolute file path, e.g. /home/user/notes.txt"@)),
    )
}

/// The actions this module publishes.
pub fn actions() -> (r: Vec<Action>)
    ensures
        surface::shown(r@) == published(),
{
    let mut out: Vec<Action> = Vec::new();
    assert(surface::shown(out@) =~= Seq::<Listing>::empty());
    add_action(
        &mut out,
        Action::new("editor_new", "Open the text editor with a fresh, empty document"),
    );
    add_action(
        &mut out,
        Action::new("editor_set_content", "Replace the whole document with this text")
            .arg(Param::text("text").describe("The full new contents of the document")),
    );
    add_action(
        &mut out,
        Action::new("editor_append", "Add text to the end of the document")
            .arg(Param::text("text").describe("Text to append")),
    );
    add_action(
        &mut out,
        Action::new("editor_save", "Save the document to the file it came from"),
    );
    add_action(
        &mut out,
        Action::new("editor_save_as", "Write the document to a specific path")
            .arg(Param::text("path").describe("An absolute file path, e.g. /home/user/notes.txt")),
    );
    out
}

// ── Laws ────────────────────────────────────────────────────────────

/// Four thousand characters of a document are told, the first, and how many there are always is.
pub proof fn law_four_thousand_characters_are_told(d: Document)
    requires
        d.content@.len() <= u64::MAX,
    ensures
        ({
            let e = d.row()->Object_0;
            let n = d.content@.len();
            &&& e[0] == ("name"@, Tree::Str(d.name@))
            &&& e[1] == ("modified"@, Tree::Bool(d.modified))
            &&& e[3] == ("chars"@, Tree::Num(json::whole(n as u64)))
            &&& n <= 4000 ==> e[5] == ("content"@, Tree::Str(d.content@)) && e[6] == (
                "content_truncated"@,
                Tree::Bool(false),
            )
            &&& n > 4000 ==> e[5] == ("content"@, Tree::Str(d.content@.take(4000))) && e[6] == (
                "content_truncated"@,
                Tree::Bool(true),
            )
        }),
{
}

/// The headline names the document, counts its words, and says where it is not saved.
pub proof fn law_what_the_editor_says(d: Document)
    ensures
        ({
            let words = text::dec(text::words(d.content@).len()) + " words"@;
            let name = if d.name@.len() > 0 {
                d.name@
            } else {
                "untitled"@
            };
            let head = "Yantrik \u{2014} editing \""@ + name + "\", "@;
            headline(d) == head + text::dec(text::words(d.content@).len()) + " words"@ + (
            if d.modified {
                ", unsaved"@
            } else {
                ""@
            })
        }),
{
}

/// A file goes to the folder before its name, under the name behind the last separator.
pub proof fn law_where_a_file_goes(above: Seq<char>, folder: Seq<char>, name: Seq<char>)
    requires
        folder.len() > 0 && !folder.contains('/') && folder != "."@,
        name.len() > 0 && !name.contains('/') && name != "."@ && name != ".."@,
    ensures
        ({
            let dir = above.push('/') + folder;
            let path = dir.push('/') + name;
            &&& folder_of(path) == dir
            &&& name_bounds(outline(path)) == Some((dir.len() + 1int, path.len() as int))
            &&& path.subrange(dir.len() + 1int, path.len() as int) == name
        }),
{
    reveal_strlit(".");
    reveal_strlit("..");
    let dir = above.push('/') + folder;
    let path = dir.push('/') + name;
    let (a, f, n) = (outline(above), outline(folder), outline(name));
    lemma_outline(folder);
    lemma_outline(name);
    assert(outline(dir) =~= a.push(paths::SLASH) + f);
    assert(outline(path) =~= outline(dir).push(paths::SLASH) + n);
    paths::law_the_last_place_is_the_names(a, f);
    paths::law_the_last_place_is_the_names(outline(dir), n);
    let b = paths::bounds(outline(path));
    assert(b[b.len() - 2] == (a.len() + 1int, a.len() + 1int + f.len()));
    assert(path.take(dir.len() as int) =~= dir);
    let last = outline(path).subrange(dir.len() + 1int, path.len() as int);
    assert(last =~= n);
    assert(n != paths::up()) by {
        if n == paths::up() {
            assert(n[0] == paths::DOT && n[1] == paths::DOT);
            assert(name =~= ".."@);
        }
    }
    assert(path.subrange(dir.len() + 1int, path.len() as int) =~= name);
}

proof fn lemma_outline(s: Seq<char>)
    requires
        s.len() > 0,
        !s.contains('/'),
        s != "."@,
    ensures
        paths::names_a_part(outline(s)),
{
    reveal_strlit(".");
    let o = outline(s);
    if o.contains(paths::SLASH) {
        let i = choose|i: int| 0 <= i < o.len() && o[i] == paths::SLASH;
        assert(s[i] == '/');
        assert(s.contains(s[i]));
    }
    if o == paths::here() {
        assert(o.len() == 1);
        assert(o[0] == paths::DOT);
        assert(s[0] == '.');
        assert(s =~= "."@);
    }
}

/// Nothing that is done to a document is more than standard.
pub proof fn law_how_the_editors_actions_are_graded(i: int)
    ensures
        published().len() == 5,
        0 <= i < 5 ==> published()[i].grade == "standard"@,
        published()[0].name == "editor_new"@,
        published()[1].name == "editor_set_content"@,
        published()[2].name == "editor_append"@,
        published()[3].name == "editor_save"@,
        published()[4].name == "editor_save_as"@,
{
    let p = published();
    assert(p[0].grade == "standard"@ && p[1].grade == "standard"@ && p[2].grade == "standard"@
        && p[3].grade == "standard"@ && p[4].grade == "standard"@);
}

/// A document is saved where it has a file, and what went wrong is told before anything else.
pub proof fn law_what_a_save_came_to(
    d: Document,
    save_error: &str,
    asks_for_name: bool,
    path: &str,
    r: Result<Json, String>,
    to: Result<Json, String>,
)
    requires
        call_ensures(saved, (&d, save_error, asks_for_name), r),
        call_ensures(saved_to, (path, &d, save_error), to),
    ensures
        r is Ok <==> save_error@.len() == 0 && !asks_for_name,
        to is Ok <==> save_error@.len() == 0,
        save_error@.len() > 0 ==> r->Err_0@ == save_error@ && to->Err_0@ == save_error@,
        r is Ok ==> r->Ok_0@->Object_0[0] == ("saved"@, Tree::Str(d.name@)),
        to is Ok ==> to->Ok_0@->Object_0[0] == ("saved_to"@, Tree::Str(path@)),
{
}

/// A document that is saved under a path goes to the folder before its name, under that name.
pub proof fn law_a_document_goes_where_its_path_says(
    args: Json,
    above: Seq<char>,
    folder: Seq<char>,
    name: Seq<char>,
    r: Result<Target, String>,
)
    requires
        call_ensures(save_as, (&args,), r),
        json::argument(args@, "path"@) == (above.push('/') + folder).push('/') + name,
        folder.len() > 0 && !folder.contains('/') && folder != "."@,
        name.len() > 0 && !name.contains('/') && name != "."@ && name != ".."@,
    ensures
        r is Ok,
        r->Ok_0.dir@ == above.push('/') + folder,
        r->Ok_0.name@ == name,
{
    law_where_a_file_goes(above, folder, name);
}

/// A document has as many lines as it is written in: none where it is empty, and one more with every
/// line that is put before it.
pub proof fn law_how_many_lines_a_document_has(line: Seq<char>, rest: Seq<char>)
    requires
        !line.contains('\n'),
        line.len() > 0,
        line.last() != '\r',
        rest.len() > 0 ==> text::lines(rest).len() > 0,
    ensures
        line_count(Seq::empty()) == 0,
        line_count(line) == 1,
        line_count(line.push('\n') + rest) == line_count(rest) + 1,
{
    text::law_lines_are_read_as_written(line, rest);
}

/// What is added to a document goes behind all of it.
pub proof fn law_what_is_added_goes_last(d: Document, args: Json, r: String)
    requires
        call_ensures(appended, (&d, &args), r),
    ensures
        r@.take(d.content@.len() as int) == d.content@,
        r@.skip(d.content@.len() as int) == json::text_under(args@, "text"@),
{
}

} // verus!
