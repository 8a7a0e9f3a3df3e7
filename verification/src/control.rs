//! The shell describes itself.
//!
//! Which screen is up, which windows are open, which services are running, and what the status bar
//! is reporting, as one value a caller can read; and what the shell does with each action a caller
//! may ask for. What the shell reads of the machine, and what it does to it, are the caller's.
use crate::json;
use crate::json::{
    argument_of, array_of, flag_at, number, put_last, rows_between, signed_value, string, strings,
    text_at, Json, Row, Tree,
};
use crate::running::LaunchFailure;
use crate::seqs;
use crate::text;
use crate::text::{chars_of, decimal, has, joined, part, same, signed_decimal, to_small};
use crate::surface;
use crate::surface::{add_action, Action, Listing, Param, ParamKind, Takes};
use vstd::prelude::*;

verus! {

// ── Tables ──────────────────────────────────────────────────────────

/// A name a caller may say, and the number it stands for.
pub type Named = (Seq<char>, i32);

/// Settings sections, by the name a caller would say: the numbers are the sidebar's.
pub open spec fn sections() -> Seq<Named> {
    seq![
        ("appearance"@, 0i32),
        ("ai"@, 1i32),
        ("desktop"@, 2i32),
        ("network"@, 3i32),
        ("accounts"@, 4i32),
        ("privacy"@, 5i32),
        ("system"@, 6i32),
        ("skills"@, 7i32),
        ("harnesses"@, 8i32),
    ]
}

/// The screens a caller may ask for by name. Boot, onboarding and login are states the shell
/// enters on its own, and locking is an action of its own.
pub open spec fn screens() -> Seq<Named> {
    seq![
        ("desktop"@, 1i32),
        ("bond"@, 4i32),
        ("personality"@, 5i32),
        ("memory"@, 6i32),
        ("settings"@, 7i32),
        ("files"@, 8i32),
        ("notifications"@, 9i32),
        ("system"@, 10i32),
        ("images"@, 11i32),
        ("editor"@, 12i32),
        ("media"@, 13i32),
        ("about"@, 16i32),
        ("packages"@, 21i32),
        ("devices"@, 27i32),
        ("permissions"@, 28i32),
    ]
}

/// What a table of names says.
pub open spec fn table(v: Seq<(&'static str, i32)>) -> Seq<Named> {
    Seq::new(v.len(), |i: int| (v[i].0@, v[i].1))
}

/// Settings sections, by the name a caller would say.
pub fn settings_sections() -> (r: Vec<(&'static str, i32)>)
    ensures
        table(r@) == sections(),
{
    let r: Vec<(&'static str, i32)> = vec![
        ("appearance", 0),
        ("ai", 1),
        ("desktop", 2),
        ("network", 3),
        ("accounts", 4),
        ("privacy", 5),
        ("system", 6),
        ("skills", 7),
        ("harnesses", 8),
    ];
    assert(table(r@) =~= sections());
    r
}

/// The screens a caller may ask for by name.
pub fn screen_table() -> (r: Vec<(&'static str, i32)>)
    ensures
        table(r@) == screens(),
{
    let r: Vec<(&'static str, i32)> = vec![
        ("desktop", 1),
        ("bond", 4),
        ("personality", 5),
        ("memory", 6),
        ("settings", 7),
        ("files", 8),
        ("notifications", 9),
        ("system", 10),
        ("images", 11),
        ("editor", 12),
        ("media", 13),
        ("about", 16),
        ("packages", 21),
        ("devices", 27),
        ("permissions", 28),
    ];
    assert(table(r@) =~= screens());
    r
}

pub open spec fn with_number(id: i32) -> spec_fn(Named) -> bool {
    |e: Named| e.1 == id
}

pub open spec fn with_name(name: Seq<char>) -> spec_fn(Named) -> bool {
    |e: Named| e.0 == name
}

/// What the screen of a number is called.
pub open spec fn screen_called(id: i32) -> Seq<char> {
    if id == 0 {
        "boot"@
    } else if id == 2 {
        "onboarding"@
    } else if id == 3 {
        "lock"@
    } else if id == 32 {
        "login"@
    } else {
        let i = seqs::first(screens(), with_number(id));
        if i < screens().len() {
            screens()[i].0
        } else {
            "unknown"@
        }
    }
}

/// What the shell calls the screen it is on.
pub fn screen_name(id: i32) -> (r: &'static str)
    ensures
        r@ == screen_called(id),
{
    if id == 0 {
        return "boot";
    }
    if id == 2 {
        return "onboarding";
    }
    if id == 3 {
        return "lock";
    }
    if id == 32 {
        return "login";
    }
    let v = screen_table();
    let ghost f = with_number(id);
    let mut i: usize = 0;
    while i < v.len()
        invariant
            i <= v@.len(),
            table(v@) == screens(),
            f == with_number(id),
            seqs::first(screens(), f) == seqs::first_from(screens(), f, i as int),
        decreases v@.len() - i,
    {
        assert(screens()[i as int] == (v@[i as int].0@, v@[i as int].1));
        if v[i].1 == id {
            return v[i].0;
        }
        i += 1;
    }
    "unknown"
}

/// The number a name stands for.
pub(crate) fn number_of(v: &Vec<(&'static str, i32)>, name: &str) -> (r: Option<i32>)
    ensures
        ({
            let t = table(v@);
            let i = seqs::first(t, with_name(name@));
            match r {
                Some(id) => i < t.len() && t[i].1 == id,
                None => i >= t.len(),
            }
        }),
{
    let ghost t = table(v@);
    let ghost f = with_name(name@);
    let mut i: usize = 0;
    while i < v.len()
        invariant
            i <= v@.len(),
            t == table(v@),
            f == with_name(name@),
            seqs::first(t, f) == seqs::first_from(t, f, i as int),
        decreases v@.len() - i,
    {
        assert(t[i as int] == (v@[i as int].0@, v@[i as int].1));
        if same(v[i].0, name) {
            return Some(v[i].1);
        }
        i += 1;
    }
    None
}

/// The names in a table.
pub open spec fn names(t: Seq<Named>) -> Seq<Seq<char>> {
    Seq::new(t.len(), |i: int| t[i].0)
}

pub(crate) fn names_of(v: &Vec<(&'static str, i32)>) -> (r: Vec<String>)
    ensures
        text::strs(r@) == names(table(v@)),
{
    let mut out: Vec<String> = Vec::new();
    let mut i: usize = 0;
    while i < v.len()
        invariant
            i <= v@.len(),
            out@.len() == i,
            forall|k: int| 0 <= k < i ==> (#[trigger] out@[k])@ == v@[k].0@,
        decreases v@.len() - i,
    {
        out.push(v[i].0.to_owned());
        i += 1;
    }
    assert(text::strs(out@) =~= names(table(v@)));
    out
}

// ── Wording ─────────────────────────────────────────────────────────

/// Names the way a person would read them out: "a", "a and b", "a, b and c".
pub open spec fn read_out(names: Seq<Seq<char>>) -> Seq<char> {
    if names.len() == 0 {
        Seq::empty()
    } else if names.len() == 1 {
        names[0]
    } else {
        text::join(names.drop_last(), ", "@) + " and "@ + names.last()
    }
}

/// Join names the way a person would read them out.
pub fn list_of(names: &[String]) -> (r: String)
    ensures
        r@ == read_out(text::strs(names@)),
{
    let ghost all = text::strs(names@);
    if names.len() == 0 {
        let none = String::new();
        assert(none@ =~= Seq::<char>::empty());
        return none;
    }
    if names.len() == 1 {
        return names[0].clone();
    }
    let mut rest: Vec<String> = Vec::new();
    let mut i: usize = 0;
    while i < names.len() - 1
        invariant
            1 < names@.len(),
            i <= names@.len() - 1,
            rest@.len() == i,
            forall|k: int| 0 <= k < i ==> (#[trigger] rest@[k])@ == names@[k]@,
        decreases names@.len() - i,
    {
        rest.push(names[i].clone());
        i += 1;
    }
    assert(text::strs(rest@) =~= all.drop_last());
    let mut out = joined(rest.as_slice(), ", ");
    out.append(" and ");
    out.append(names[names.len() - 1].as_str());
    out
}

/// How much of the conversation is reported, newest last.
pub const CONVERSATION_TAIL: usize = 6;

/// How much of one message travels.
pub const MESSAGE_CLIP: usize = 600;

/// How many directory entries are listed.
pub const FILE_LISTING_CAP: usize = 40;

/// A text cut to a length, with how long it was.
pub open spec fn cut(s: Seq<char>, max: nat) -> Seq<char> {
    if s.len() <= max {
        s
    } else {
        s.take(max as int) + "\u{2026} ("@ + text::dec(s.len()) + " characters total)"@
    }
}

/// Cut to a length without splitting a character, and say that it was cut.
pub fn clip(text: &str, max: usize) -> (r: String)
    ensures
        r@ == cut(text@, max as nat),
{
    let v = chars_of(text);
    if v.len() <= max {
        return text.to_owned();
    }
    let mut out = part(v.as_slice(), 0, max);
    assert(text@.subrange(0, max as int) =~= text@.take(max as int));
    out.append("\u{2026} (");
    out.append(decimal(v.len() as u64).as_str());
    out.append(" characters total)");
    out
}

// ── Opening apps ────────────────────────────────────────────────────

/// Why an app is not part of this build.
pub struct Shelf {
    pub name: String,
    pub reason: String,
    pub returns_when: String,
}

/// Whether an app can be opened.
pub enum Availability {
    Ready,
    /// It is known, and what it needs was not found.
    Missing(String),
    Shelved(Shelf),
    Unknown,
}

/// Why an app will not open, where it will not.
pub open spec fn unlaunchable(name: Seq<char>, a: Availability, ids: Seq<Seq<char>>) -> Option<
    Seq<char>,
> {
    let offered = text::join(ids, ", "@);
    match a {
        Availability::Ready => None,
        Availability::Missing(what) => Some(
            "`"@ + name + "` is not installed on this machine: "@ + what@
                + " was not found. It can open: "@ + offered,
        ),
        Availability::Shelved(shelf) => Some(
            "`"@ + name + "` is not part of this build. "@ + shelf.name@ + " is shelved: "@
                + shelf.reason@ + ". It comes back when "@ + shelf.returns_when@
                + " \u{2014} see design/shelved-2026-09-20.md. It can open: "@ + offered,
        ),
        Availability::Unknown => Some(
            "no app `"@ + name + "` on this machine; it can open: "@ + offered,
        ),
    }
}

/// Refuse, with a reason a caller can act on, to open or pin an app that will not open. `ids` are
/// the apps that will.
pub fn check_launchable(name: &str, availability: &Availability, ids: &[String]) -> (r: Result<
    (),
    String,
>)
    ensures
        match unlaunchable(name@, *availability, text::strs(ids@)) {
            None => r is Ok,
            Some(why) => r matches Err(said) && said@ == why,
        },
{
    match availability {
        Availability::Ready => Ok(()),
        Availability::Missing(what) => {
            let mut out = "`".to_owned();
            out.append(name);
            out.append("` is not installed on this machine: ");
            out.append(what.as_str());
            out.append(" was not found. It can open: ");
            out.append(joined(ids, ", ").as_str());
            Err(out)
        },
        Availability::Shelved(shelf) => {
            let mut out = "`".to_owned();
            out.append(name);
            out.append("` is not part of this build. ");
            out.append(shelf.name.as_str());
            out.append(" is shelved: ");
            out.append(shelf.reason.as_str());
            out.append(". It comes back when ");
            out.append(shelf.returns_when.as_str());
            out.append(" \u{2014} see design/shelved-2026-09-20.md. It can open: ");
            out.append(joined(ids, ", ").as_str());
            Err(out)
        },
        Availability::Unknown => {
            let mut out = "no app `".to_owned();
            out.append(name);
            out.append("` on this machine; it can open: ");
            out.append(joined(ids, ", ").as_str());
            Err(out)
        },
    }
}

// ── What is described ───────────────────────────────────────────────

/// An open window.
pub struct Window {
    pub title: String,
    pub app_id: String,
}

impl Row for Window {
    open spec fn row(&self) -> Tree {
        Tree::Object(
            seq![
                ("title"@, Tree::Str(self.title@)),
                ("app"@, Tree::Str(self.app_id@)),
            ],
        )
    }

    fn to_json(&self) -> (r: Json) {
        let mut o: Vec<(String, Json)> = Vec::new();
        put_last(&mut o, "title", string(self.title.as_str()));
        put_last(&mut o, "app", string(self.app_id.as_str()));
        assert(json::entries(o@) =~= self.row()->Object_0);
        Json::Object(o)
    }
}

/// A service of the machine.
pub struct Service {
    pub id: String,
    pub status: String,
    pub note: String,
}

impl Row for Service {
    open spec fn row(&self) -> Tree {
        Tree::Object(
            seq![
                ("id"@, Tree::Str(self.id@)),
                ("status"@, Tree::Str(self.status@)),
                ("note"@, Tree::Str(self.note@)),
            ],
        )
    }

    fn to_json(&self) -> (r: Json) {
        let mut o: Vec<(String, Json)> = Vec::new();
        put_last(&mut o, "id", string(self.id.as_str()));
        put_last(&mut o, "status", string(self.status.as_str()));
        put_last(&mut o, "note", string(self.note.as_str()));
        assert(json::entries(o@) =~= self.row()->Object_0);
        Json::Object(o)
    }
}

/// An entry of the folder the file screen shows.
pub struct FileRow {
    pub name: String,
    pub is_dir: bool,
    pub size: String,
    pub modified: String,
    pub selected: bool,
}

impl Row for FileRow {
    open spec fn row(&self) -> Tree {
        Tree::Object(
            seq![
                ("name"@, Tree::Str(self.name@)),
                ("dir"@, Tree::Bool(self.is_dir)),
                ("size"@, Tree::Str(self.size@)),
                ("modified"@, Tree::Str(self.modified@)),
                ("selected"@, Tree::Bool(self.selected)),
            ],
        )
    }

    fn to_json(&self) -> (r: Json) {
        let mut o: Vec<(String, Json)> = Vec::new();
        put_last(&mut o, "name", string(self.name.as_str()));
        put_last(&mut o, "dir", Json::Bool(self.is_dir));
        put_last(&mut o, "size", string(self.size.as_str()));
        put_last(&mut o, "modified", string(self.modified.as_str()));
        put_last(&mut o, "selected", Json::Bool(self.selected));
        assert(json::entries(o@) =~= self.row()->Object_0);
        Json::Object(o)
    }
}

/// A message of the conversation. `streaming` is whether it is still arriving.
pub struct Message {
    pub role: String,
    pub content: String,
    pub streaming: bool,
}

impl Row for Message {
    open spec fn row(&self) -> Tree {
        Tree::Object(
            seq![
                ("role"@, Tree::Str(self.role@)),
                ("text"@, Tree::Str(cut(self.content@, MESSAGE_CLIP as nat))),
                ("streaming"@, Tree::Bool(self.streaming)),
            ],
        )
    }

    fn to_json(&self) -> (r: Json) {
        let mut o: Vec<(String, Json)> = Vec::new();
        put_last(&mut o, "role", string(self.role.as_str()));
        put_last(&mut o, "text", Json::Str(clip(self.content.as_str(), MESSAGE_CLIP)));
        put_last(&mut o, "streaming", Json::Bool(self.streaming));
        assert(json::entries(o@) =~= self.row()->Object_0);
        Json::Object(o)
    }
}

/// A mind that could answer. `detail` is its own account of itself.
pub struct MindRow {
    pub id: String,
    pub name: String,
    pub active: bool,
    pub builtin: bool,
    pub detail: Json,
    pub tools: Json,
}

impl Row for MindRow {
    open spec fn row(&self) -> Tree {
        Tree::Object(
            seq![
                ("id"@, Tree::Str(self.id@)),
                ("name"@, Tree::Str(self.name@)),
                ("answering"@, Tree::Bool(self.active)),
                ("builtin"@, Tree::Bool(self.builtin)),
                ("detail"@, self.detail@),
                ("tools"@, self.tools@),
            ],
        )
    }

    fn to_json(&self) -> (r: Json) {
        let mut o: Vec<(String, Json)> = Vec::new();
        put_last(&mut o, "id", string(self.id.as_str()));
        put_last(&mut o, "name", string(self.name.as_str()));
        put_last(&mut o, "answering", Json::Bool(self.active));
        put_last(&mut o, "builtin", Json::Bool(self.builtin));
        put_last(&mut o, "detail", self.detail.copy());
        put_last(&mut o, "tools", self.tools.copy());
        assert(json::entries(o@) =~= self.row()->Object_0);
        Json::Object(o)
    }
}

/// What the battery reports.
pub struct Battery {
    pub percent: Json,
    pub charging: bool,
}

impl Row for Battery {
    open spec fn row(&self) -> Tree {
        Tree::Object(
            seq![
                ("percent"@, self.percent@),
                ("charging"@, Tree::Bool(self.charging)),
            ],
        )
    }

    fn to_json(&self) -> (r: Json) {
        let mut o: Vec<(String, Json)> = Vec::new();
        put_last(&mut o, "percent", self.percent.copy());
        put_last(&mut o, "charging", Json::Bool(self.charging));
        assert(json::entries(o@) =~= self.row()->Object_0);
        Json::Object(o)
    }
}

/// The ask bar.
pub struct Lens {
    pub open: bool,
    pub text: String,
    pub chat: bool,
}

impl Row for Lens {
    open spec fn row(&self) -> Tree {
        Tree::Object(
            seq![
                ("open"@, Tree::Bool(self.open)),
                ("text"@, Tree::Str(self.text@)),
                ("chat"@, Tree::Bool(self.chat)),
            ],
        )
    }

    fn to_json(&self) -> (r: Json) {
        let mut o: Vec<(String, Json)> = Vec::new();
        put_last(&mut o, "open", Json::Bool(self.open));
        put_last(&mut o, "text", string(self.text.as_str()));
        put_last(&mut o, "chat", Json::Bool(self.chat));
        assert(json::entries(o@) =~= self.row()->Object_0);
        Json::Object(o)
    }
}

/// What the settings screen shows.
pub struct SettingsView {
    pub category: i32,
    pub query: String,
    pub dark: bool,
    pub accent: String,
    pub wallpaper: String,
    pub save_error: bool,
    pub save_status: String,
    pub auto_lock_secs: i32,
}

impl Row for SettingsView {
    open spec fn row(&self) -> Tree {
        Tree::Object(
            seq![
                ("category"@, Tree::Num(json::signed(self.category as i64))),
                ("query"@, Tree::Str(self.query@)),
                ("dark"@, Tree::Bool(self.dark)),
                ("accent"@, Tree::Str(self.accent@)),
                ("wallpaper"@, Tree::Str(self.wallpaper@)),
                ("save_error"@, Tree::Bool(self.save_error)),
                ("save_status"@, Tree::Str(self.save_status@)),
                ("auto_lock_secs"@, Tree::Num(json::signed(self.auto_lock_secs as i64))),
            ],
        )
    }

    fn to_json(&self) -> (r: Json) {
        let mut o: Vec<(String, Json)> = Vec::new();
        put_last(&mut o, "category", signed_value(self.category as i64));
        put_last(&mut o, "query", string(self.query.as_str()));
        put_last(&mut o, "dark", Json::Bool(self.dark));
        put_last(&mut o, "accent", string(self.accent.as_str()));
        put_last(&mut o, "wallpaper", string(self.wallpaper.as_str()));
        put_last(&mut o, "save_error", Json::Bool(self.save_error));
        put_last(&mut o, "save_status", string(self.save_status.as_str()));
        put_last(&mut o, "auto_lock_secs", signed_value(self.auto_lock_secs as i64));
        assert(json::entries(o@) =~= self.row()->Object_0);
        Json::Object(o)
    }
}

/// What the file screen shows.
pub struct Files {
    pub path: String,
    pub entries: Vec<FileRow>,
    /// The entry that is picked out, and a negative number where none is.
    pub selected_index: i32,
    pub selection_count: i32,
    pub loading: bool,
    pub notice: String,
    pub busy: bool,
    pub operation: String,
    pub progress: Json,
    pub trash: bool,
    pub can_undo: bool,
    pub has_clipboard: bool,
    pub preview_open: bool,
    pub preview_name: String,
    pub tabs: u64,
    pub free_space: String,
}

/// How many of the entries are listed.
pub open spec fn shown(total: nat) -> nat {
    if total <= FILE_LISTING_CAP {
        total
    } else {
        FILE_LISTING_CAP as nat
    }
}

/// The name of the entry that is picked out.
pub open spec fn picked(f: Files) -> Tree {
    if 0 <= f.selected_index < f.entries@.len() {
        Tree::Str(f.entries@[f.selected_index as int].name@)
    } else {
        Tree::Null
    }
}

/// The folder and what is picked out in it.
pub open spec fn folder_entries(f: Files) -> Seq<json::Entry> {
    let total = f.entries@.len();
    seq![
        ("path"@, Tree::Str(f.path@)),
        ("entries"@, Tree::Array(json::rows(f.entries@.take(shown(total) as int)))),
        ("shown"@, Tree::Num(json::whole(shown(total) as u64))),
        ("total"@, Tree::Num(json::whole(total as u64))),
        ("selected"@, picked(f)),
        ("selection_count"@, Tree::Num(json::signed(f.selection_count as i64))),
    ]
}

/// What is being done with the folder's entries, behind those.
pub open spec fn with_operation(e: Seq<json::Entry>, f: Files) -> Seq<json::Entry> {
    e.push(("loading"@, Tree::Bool(f.loading)))
        .push(("notice"@, Tree::Str(f.notice@)))
        .push(("operation_busy"@, Tree::Bool(f.busy)))
        .push(("operation"@, Tree::Str(f.operation@)))
        .push(("operation_progress"@, f.progress@))
        .push(("trash"@, Tree::Bool(f.trash)))
        .push(("can_undo"@, Tree::Bool(f.can_undo)))
        .push(("has_clipboard"@, Tree::Bool(f.has_clipboard)))
        .push(("preview_open"@, Tree::Bool(f.preview_open)))
        .push(("preview_name"@, Tree::Str(f.preview_name@)))
        .push(("tabs"@, Tree::Num(json::whole(f.tabs))))
        .push(("free_space"@, Tree::Str(f.free_space@)))
}

impl Row for Files {
    open spec fn row(&self) -> Tree {
        Tree::Object(with_operation(folder_entries(*self), *self))
    }

    fn to_json(&self) -> (r: Json) {
        let total: usize = self.entries.len();
        let listed: usize = if total <= FILE_LISTING_CAP {
            total
        } else {
            FILE_LISTING_CAP
        };
        assert(self.entries@.subrange(0, listed as int) =~= self.entries@.take(listed as int));
        let selected = if self.selected_index >= 0 && (self.selected_index as usize) < total {
            string(self.entries[self.selected_index as usize].name.as_str())
        } else {
            Json::Null
        };
        assert(selected@ == picked(*self));
        assert(shown(self.entries@.len()) == listed);
        let mut o: Vec<(String, Json)> = Vec::new();
        put_last(&mut o, "path", string(self.path.as_str()));
        put_last(&mut o, "entries", rows_between(self.entries.as_slice(), 0, listed));
        put_last(&mut o, "shown", number(listed as u64));
        put_last(&mut o, "total", number(total as u64));
        put_last(&mut o, "selected", selected);
        put_last(&mut o, "selection_count", signed_value(self.selection_count as i64));
        assert(json::entries(o@) =~= folder_entries(*self));
        put_last(&mut o, "loading", Json::Bool(self.loading));
        put_last(&mut o, "notice", string(self.notice.as_str()));
        put_last(&mut o, "operation_busy", Json::Bool(self.busy));
        put_last(&mut o, "operation", string(self.operation.as_str()));
        put_last(&mut o, "operation_progress", self.progress.copy());
        put_last(&mut o, "trash", Json::Bool(self.trash));
        put_last(&mut o, "can_undo", Json::Bool(self.can_undo));
        put_last(&mut o, "has_clipboard", Json::Bool(self.has_clipboard));
        put_last(&mut o, "preview_open", Json::Bool(self.preview_open));
        put_last(&mut o, "preview_name", string(self.preview_name.as_str()));
        put_last(&mut o, "tabs", number(self.tabs));
        put_last(&mut o, "free_space", string(self.free_space.as_str()));
        Json::Object(o)
    }
}

/// Everything the shell knows of itself.
pub struct Desktop {
    pub screen: i32,
    pub windows: Vec<Window>,
    pub services: Vec<Service>,
    pub files: Files,
    /// What the setup wizard and the editor say of themselves, and in one line.
    pub installer: Json,
    pub installer_summary: String,
    pub editor: Json,
    pub editor_summary: String,
    pub failed: Vec<LaunchFailure>,
    pub messages: Vec<Message>,
    pub pending_approvals: Json,
    pub tool_permission: String,
    pub mind_mode: Json,
    pub mind_audit: Json,
    pub pinned: Vec<String>,
    pub apps: Json,
    pub minds: Vec<MindRow>,
    pub companion_online: bool,
    pub companion_status: String,
    pub thinking: bool,
    pub pending_suggestions: i32,
    pub memories: i32,
    pub bond: String,
    pub bond_score: Json,
    pub active_project: String,
    pub clock: String,
    pub date: String,
    pub cpu_percent: i32,
    pub memory: String,
    pub memory_percent: Json,
    pub disk: String,
    pub disk_percent: Json,
    pub wifi: bool,
    pub battery: Option<Battery>,
    pub do_not_disturb: bool,
    pub notifications: Json,
    pub lens: Lens,
    pub incognito: bool,
    pub settings: SettingsView,
}

pub open spec fn not_running() -> spec_fn(Service) -> bool {
    |s: Service| s.status@ == "failed"@ || s.status@ == "stopped"@
}

/// The services that are not running, by id.
pub open spec fn down(s: Seq<Service>) -> Seq<Seq<char>> {
    s.filter(not_running()).map_values(|s: Service| s.id@)
}

fn down_of(services: &[Service]) -> (r: Vec<String>)
    ensures
        text::strs(r@) == down(services@),
{
    let ghost f = not_running();
    let ghost id = |s: Service| s.id@;
    let mut out: Vec<String> = Vec::new();
    proof {
        seqs::lemma_filter_none(services@, f);
        assert(text::strs(out@) =~= services@.take(0).filter(f).map_values(id));
    }
    let mut i: usize = 0;
    while i < services.len()
        invariant
            i <= services@.len(),
            f == not_running(),
            id == (|s: Service| s.id@),
            text::strs(out@) == services@.take(i as int).filter(f).map_values(id),
        decreases services@.len() - i,
    {
        let ghost was = text::strs(out@);
        let ghost kept = services@.take(i as int).filter(f);
        proof {
            seqs::lemma_filter_take(services@, f, i as int);
        }
        if same(services[i].status.as_str(), "failed") || same(
            services[i].status.as_str(),
            "stopped",
        ) {
            out.push(services[i].id.clone());
            proof {
                assert(text::strs(out@) =~= was.push(services@[i as int].id@));
                assert(kept.push(services@[i as int]).map_values(id) =~= kept.map_values(id).push(
                    services@[i as int].id@,
                ));
            }
        }
        i += 1;
    }
    assert(services@.take(i as int) =~= services@);
    out
}

/// The one line worth reading first: where the person is, what is open, and whether anything is
/// wrong. Trouble comes before the count of windows.
pub open spec fn headline(d: Desktop) -> Seq<char> {
    let open = text::dec(d.windows@.len());
    if d.screen == 2 {
        d.installer_summary@
    } else if d.screen == 12 {
        d.editor_summary@
    } else if down(d.services@).len() > 0 {
        "Yantrik \u{2014} "@ + screen_called(d.screen) + " screen, "@ + open + " windows open, "@
            + read_out(down(d.services@)) + " not running"@
    } else if d.screen == 8 {
        "Yantrik \u{2014} files at "@ + d.files.path@ + ", "@ + text::dec(d.files.entries@.len())
            + " items, "@ + open + " windows open"@
    } else {
        "Yantrik \u{2014} "@ + screen_called(d.screen) + " screen, "@ + open
            + " windows open, CPU "@ + text::dec_signed(d.cpu_percent as int) + "%, memory "@
            + d.memory@
    }
}

/// The one line worth reading first.
pub fn summary(d: &Desktop) -> (r: String)
    ensures
        r@ == headline(*d),
{
    if d.screen == 2 {
        return d.installer_summary.clone();
    }
    if d.screen == 12 {
        return d.editor_summary.clone();
    }
    let down = down_of(d.services.as_slice());
    let open = decimal(d.windows.len() as u64);
    assert(text::strs(down@).len() == down@.len());
    if down.len() > 0 {
        let mut out = "Yantrik \u{2014} ".to_owned();
        out.append(screen_name(d.screen));
        out.append(" screen, ");
        out.append(open.as_str());
        out.append(" windows open, ");
        out.append(list_of(down.as_slice()).as_str());
        out.append(" not running");
        return out;
    }
    if d.screen == 8 {
        let mut out = "Yantrik \u{2014} files at ".to_owned();
        out.append(d.files.path.as_str());
        out.append(", ");
        out.append(decimal(d.files.entries.len() as u64).as_str());
        out.append(" items, ");
        out.append(open.as_str());
        out.append(" windows open");
        return out;
    }
    let mut out = "Yantrik \u{2014} ".to_owned();
    out.append(screen_name(d.screen));
    out.append(" screen, ");
    out.append(open.as_str());
    out.append(" windows open, CPU ");
    out.append(signed_decimal(d.cpu_percent as i64).as_str());
    out.append("%, memory ");
    out.append(d.memory.as_str());
    out
}

/// The messages that are reported: the last few.
pub open spec fn recent(m: Seq<Message>) -> Seq<Message> {
    if m.len() <= CONVERSATION_TAIL {
        m
    } else {
        m.skip(m.len() - CONVERSATION_TAIL)
    }
}

/// A value that is reported only on the screen it belongs to.
pub open spec fn on_screen(d: Desktop, screen: i32, t: Tree) -> Tree {
    if d.screen == screen {
        t
    } else {
        Tree::Null
    }
}

/// What is going on: the screen, what was said, what is open, and what is waiting.
pub open spec fn happening(d: Desktop) -> Seq<json::Entry> {
    seq![
        ("screen"@, Tree::Str(screen_called(d.screen))),
        ("conversation"@, Tree::Array(json::rows(recent(d.messages@)))),
        ("screen_id"@, Tree::Num(json::signed(d.screen as i64))),
        ("windows"@, Tree::Array(json::rows(d.windows@))),
        ("failed_launches"@, Tree::Array(json::rows(d.failed@))),
        ("pending_approvals"@, d.pending_approvals@),
        ("tool_permission"@, Tree::Str(d.tool_permission@)),
        ("mind_mode"@, d.mind_mode@),
        ("mind_audit_recent"@, d.mind_audit@),
        ("pinned"@, Tree::Array(json::string_trees(text::strs(d.pinned@)))),
        ("apps"@, d.apps@),
        ("minds"@, Tree::Array(json::rows(d.minds@))),
        ("files"@, on_screen(d, 8, d.files.row())),
        ("installer"@, on_screen(d, 2, d.installer@)),
        ("editor"@, on_screen(d, 12, d.editor@)),
        ("services"@, Tree::Array(json::rows(d.services@))),
    ]
}

/// What the status bar and the panels report, behind what is going on.
pub open spec fn with_status(e: Seq<json::Entry>, d: Desktop) -> Seq<json::Entry> {
    e.push(("companion_online"@, Tree::Bool(d.companion_online))).push(
        ("companion_status"@, Tree::Str(d.companion_status@)),
    ).push(("thinking"@, Tree::Bool(d.thinking))).push(
        ("pending_suggestions"@, Tree::Num(json::signed(d.pending_suggestions as i64))),
    ).push(("memories"@, Tree::Num(json::signed(d.memories as i64)))).push(
        ("bond"@, Tree::Str(d.bond@)),
    ).push(("bond_score"@, d.bond_score@)).push(
        ("active_project"@, Tree::Str(d.active_project@)),
    ).push(("clock"@, Tree::Str(d.clock@))).push(("date"@, Tree::Str(d.date@))).push(
        ("cpu_percent"@, Tree::Num(json::signed(d.cpu_percent as i64))),
    ).push(("memory"@, Tree::Str(d.memory@))).push(("memory_percent"@, d.memory_percent@)).push(
        ("disk"@, Tree::Str(d.disk@)),
    ).push(("disk_percent"@, d.disk_percent@)).push(("wifi"@, Tree::Bool(d.wifi))).push(
        (
            "battery"@,
            match d.battery {
                Some(b) => b.row(),
                None => Tree::Null,
            },
        ),
    ).push(("do_not_disturb"@, Tree::Bool(d.do_not_disturb))).push(
        ("notifications"@, d.notifications@),
    ).push(("lens"@, d.lens.row())).push(("incognito"@, Tree::Bool(d.incognito))).push(
        ("settings"@, d.settings.row()),
    )
}

/// What the shell says of itself.
pub struct Description {
    pub summary: String,
    pub state: Json,
}

fn put_status(o: &mut Vec<(String, Json)>, d: &Desktop)
    ensures
        json::entries(final(o)@) == with_status(json::entries(old(o)@), *d),
{
    put_last(o, "companion_online", Json::Bool(d.companion_online));
    put_last(o, "companion_status", string(d.companion_status.as_str()));
    put_last(o, "thinking", Json::Bool(d.thinking));
    put_last(o, "pending_suggestions", signed_value(d.pending_suggestions as i64));
    put_last(o, "memories", signed_value(d.memories as i64));
    put_last(o, "bond", string(d.bond.as_str()));
    put_last(o, "bond_score", d.bond_score.copy());
    put_last(o, "active_project", string(d.active_project.as_str()));
    put_last(o, "clock", string(d.clock.as_str()));
    put_last(o, "date", string(d.date.as_str()));
    put_last(o, "cpu_percent", signed_value(d.cpu_percent as i64));
    put_last(o, "memory", string(d.memory.as_str()));
    put_last(o, "memory_percent", d.memory_percent.copy());
    put_last(o, "disk", string(d.disk.as_str()));
    put_last(o, "disk_percent", d.disk_percent.copy());
    put_last(o, "wifi", Json::Bool(d.wifi));
    let battery = match &d.battery {
        Some(b) => b.to_json(),
        None => Json::Null,
    };
    put_last(o, "battery", battery);
    put_last(o, "do_not_disturb", Json::Bool(d.do_not_disturb));
    put_last(o, "notifications", d.notifications.copy());
    put_last(o, "lens", d.lens.to_json());
    put_last(o, "incognito", Json::Bool(d.incognito));
    put_last(o, "settings", d.settings.to_json());
}

/// Describe the shell: one line, and everything it knows of itself.
pub fn describe(d: &Desktop) -> (r: Description)
    ensures
        r.summary@ == headline(*d),
        r.state@ == Tree::Object(with_status(happening(*d), *d)),
{
    let total: usize = d.messages.len();
    let from: usize = if total <= CONVERSATION_TAIL {
        0
    } else {
        total - CONVERSATION_TAIL
    };
    assert(d.messages@.subrange(from as int, total as int) =~= recent(d.messages@));
    let files = if d.screen == 8 {
        d.files.to_json()
    } else {
        Json::Null
    };
    let installer = if d.screen == 2 {
        d.installer.copy()
    } else {
        Json::Null
    };
    let editor = if d.screen == 12 {
        d.editor.copy()
    } else {
        Json::Null
    };
    let mut o: Vec<(String, Json)> = Vec::new();
    put_last(&mut o, "screen", string(screen_name(d.screen)));
    put_last(&mut o, "conversation", rows_between(d.messages.as_slice(), from, total));
    put_last(&mut o, "screen_id", signed_value(d.screen as i64));
    put_last(&mut o, "windows", array_of(d.windows.as_slice()));
    put_last(&mut o, "failed_launches", array_of(d.failed.as_slice()));
    put_last(&mut o, "pending_approvals", d.pending_approvals.copy());
    put_last(&mut o, "tool_permission", string(d.tool_permission.as_str()));
    put_last(&mut o, "mind_mode", d.mind_mode.copy());
    put_last(&mut o, "mind_audit_recent", d.mind_audit.copy());
    put_last(&mut o, "pinned", strings(d.pinned.as_slice()));
    put_last(&mut o, "apps", d.apps.copy());
    put_last(&mut o, "minds", array_of(d.minds.as_slice()));
    put_last(&mut o, "files", files);
    put_last(&mut o, "installer", installer);
    put_last(&mut o, "editor", editor);
    put_last(&mut o, "services", array_of(d.services.as_slice()));
    proof {
        assert(json::entries(o@) =~= happening(*d));
    }
    put_status(&mut o, d);
    Description { summary: summary(d), state: Json::Object(o) }
}

/// What the shell says of itself when it is going away.
pub fn shutting_down() -> (r: Description)
    ensures
        r.summary@ == "Yantrik \u{2014} shutting down"@,
        r.state@ == Tree::Object(Seq::empty()),
{
    let none: Vec<(String, Json)> = Vec::new();
    assert(json::entries(none@) =~= Seq::empty());
    Description { summary: "Yantrik \u{2014} shutting down".to_owned(), state: Json::Object(none) }
}

// ── Actions ─────────────────────────────────────────────────────────

pub open spec fn one_field(key: Seq<char>, value: Tree) -> Tree {
    Tree::Object(seq![(key, value)])
}

pub(crate) fn one(key: &str, value: Json) -> (r: Json)
    ensures
        r@ == one_field(key@, value@),
{
    let mut o: Vec<(String, Json)> = Vec::new();
    put_last(&mut o, key, value);
    assert(json::entries(o@) =~= seq![(key@, value@)]);
    Json::Object(o)
}

pub(crate) fn two(a: &str, x: Json, b: &str, y: Json) -> (r: Json)
    ensures
        r@ == Tree::Object(seq![(a@, x@), (b@, y@)]),
{
    let mut o: Vec<(String, Json)> = Vec::new();
    put_last(&mut o, a, x);
    put_last(&mut o, b, y);
    assert(json::entries(o@) =~= seq![(a@, x@), (b@, y@)]);
    Json::Object(o)
}

/// What an argument must not be.
pub open spec fn is_empty_text(key: Seq<char>) -> Seq<char> {
    "`"@ + key + "` is empty"@
}

/// An argument that has to say something.
pub fn required_text(args: &Json, key: &str) -> (r: Result<String, String>)
    ensures
        match r {
            Ok(s) => s@ == json::argument(args@, key@) && s@.len() > 0,
            Err(why) => json::argument(args@, key@).len() == 0 && why@ == is_empty_text(key@),
        },
{
    let s = argument_of(args, key);
    if s.as_str().is_empty() {
        let mut out = "`".to_owned();
        out.append(key);
        out.append("` is empty");
        return Err(out);
    }
    Ok(s)
}

/// Decide which app is to be launched: one that is named and that will open.
pub fn open_app(args: &Json, availability: &Availability, ids: &[String]) -> (r: Result<
    String,
    String,
>)
    ensures
        ({
            let name = json::argument(args@, "name"@);
            let why_not = unlaunchable(name, *availability, text::strs(ids@));
            if name.len() == 0 {
                r matches Err(why) && why@ == is_empty_text("name"@)
            } else if why_not is Some {
                r matches Err(why) && Some(why@) == why_not
            } else {
                r matches Ok(s) && s@ == name
            }
        }),
{
    let name = match required_text(args, "name") {
        Ok(name) => name,
        Err(why) => {
            return Err(why);
        },
    };
    match check_launchable(name.as_str(), availability, ids) {
        Ok(()) => Ok(name),
        Err(why) => Err(why),
    }
}

/// What `open_app` answers once the launch is under way.
pub fn launching(name: &str) -> (r: Json)
    ensures
        r@ == one_field("launching"@, Tree::Str(name@)),
{
    one("launching", string(name))
}

/// What is to be done about a service that was asked for.
#[derive(Debug)]
pub enum ServiceStep {
    /// It is up: the answer, with nothing to do.
    Up(Json),
    Start(String),
}

pub open spec fn service_answer(name: Seq<char>, state: Seq<char>) -> Tree {
    Tree::Object(seq![("service"@, Tree::Str(name)), ("state"@, Tree::Str(state))])
}

/// Start a service only where it is not running. `running` is whether it is.
pub fn start_service(args: &Json, running: bool) -> (r: Result<ServiceStep, String>)
    ensures
        ({
            let name = json::argument(args@, "name"@);
            if name.len() == 0 {
                r matches Err(why) && why@ == is_empty_text("name"@)
            } else if running {
                r matches Ok(ServiceStep::Up(answer)) && answer@ == service_answer(
                    name,
                    "already running"@,
                )
            } else {
                r matches Ok(ServiceStep::Start(s)) && s@ == name
            }
        }),
{
    match required_text(args, "name") {
        Err(why) => Err(why),
        Ok(name) => {
            if running {
                Ok(
                    ServiceStep::Up(
                        two("service", string(name.as_str()), "state", string("already running")),
                    ),
                )
            } else {
                Ok(ServiceStep::Start(name))
            }
        },
    }
}

/// What `start_service` answers once the service was told to start.
pub fn service_started(name: &str) -> (r: Json)
    ensures
        r@ == service_answer(name@, "started"@),
{
    two("service", string(name), "state", string("started"))
}

/// What `refresh_apps` answers.
pub fn apps_refreshed(count: u64) -> (r: Json)
    ensures
        r@ == one_field("apps"@, Tree::Num(json::whole(count))),
{
    one("apps", number(count))
}

/// What is known of an app that is to be pinned or unpinned.
pub struct PinFacts {
    pub availability: Availability,
    /// The apps that can be opened.
    pub ids: Vec<String>,
    pub known: bool,
    pub pinned: bool,
    /// Whether it may be pinned at all: the launcher may not.
    pub pinnable: bool,
}

/// A pin that is to be set or taken.
#[derive(Debug)]
pub struct Pin {
    pub name: String,
    pub want: bool,
    /// Whether anything changes.
    pub toggle: bool,
}

/// Why a pin is refused, where it is.
pub open spec fn pin_refused(name: Seq<char>, want: Option<bool>, f: PinFacts) -> Option<Seq<char>> {
    if want is None {
        Some("`pinned` must be true or false"@)
    } else if name.len() == 0 {
        Some(is_empty_text("name"@))
    } else if want == Some(true) && unlaunchable(name, f.availability, text::strs(f.ids@)) is Some {
        unlaunchable(name, f.availability, text::strs(f.ids@))
    } else if want == Some(false) && !f.known && !f.pinned {
        Some("no app `"@ + name + "` on this machine"@)
    } else if !f.pinnable {
        Some("`"@ + name + "` is the launcher, and its button is already on the taskbar"@)
    } else {
        None
    }
}

/// Decide a pin. Pinning takes an app that opens; a pin for something that is gone can still be
/// taken.
pub fn pin_app(args: &Json, facts: &PinFacts) -> (r: Result<Pin, String>)
    ensures
        ({
            let name = json::argument(args@, "name"@);
            let want = json::flag_under(args@, "pinned"@);
            match pin_refused(name, want, *facts) {
                Some(why) => r matches Err(said) && said@ == why,
                None => r matches Ok(pin) && pin.name@ == name && pin.want == want->0 && pin.toggle
                    == (facts.pinned != pin.want),
            }
        }),
{
    let want = match flag_at(args, "pinned") {
        Some(b) => b,
        None => {
            return Err("`pinned` must be true or false".to_owned());
        },
    };
    let name = match required_text(args, "name") {
        Ok(name) => name,
        Err(why) => {
            return Err(why);
        },
    };
    if want {
        match check_launchable(name.as_str(), &facts.availability, facts.ids.as_slice()) {
            Ok(()) => {},
            Err(why) => {
                return Err(why);
            },
        }
    } else if !facts.known && !facts.pinned {
        let mut out = "no app `".to_owned();
        out.append(name.as_str());
        out.append("` on this machine");
        return Err(out);
    }
    if !facts.pinnable {
        let mut out = "`".to_owned();
        out.append(name.as_str());
        out.append("` is the launcher, and its button is already on the taskbar");
        return Err(out);
    }
    Ok(Pin { name, want, toggle: facts.pinned != want })
}

/// What `pin_app` answers.
pub fn pinned_answer(pin_id: &str, want: bool, start: &[String]) -> (r: Json)
    ensures
        r@ == Tree::Object(
            seq![
                ("app"@, Tree::Str(pin_id@)),
                ("pinned"@, Tree::Bool(want)),
                ("start"@, Tree::Array(json::string_trees(text::strs(start@)))),
            ],
        ),
{
    let mut o: Vec<(String, Json)> = Vec::new();
    put_last(&mut o, "app", string(pin_id));
    put_last(&mut o, "pinned", Json::Bool(want));
    put_last(&mut o, "start", strings(start));
    assert(json::entries(o@) =~= seq![
        ("app"@, Tree::Str(pin_id@)),
        ("pinned"@, Tree::Bool(want)),
        ("start"@, Tree::Array(json::string_trees(text::strs(start@)))),
    ]);
    Json::Object(o)
}

pub open spec fn named_or<'a>(active: Option<&'a str>, builtin: &'a str) -> &'a str {
    match active {
        Some(id) => id,
        None => builtin,
    }
}

/// What the desktop is to be asked: something.
pub fn send_message(args: &Json) -> (r: Result<String, String>)
    ensures
        ({
            let text = json::argument(args@, "text"@);
            if text.len() == 0 {
                r matches Err(why) && why@ == is_empty_text("text"@)
            } else {
                r matches Ok(s) && s@ == text
            }
        }),
{
    required_text(args, "text")
}

/// What `send_message` answers: what was asked, and which mind is about to answer.
pub fn asked(text: &str, active: Option<&str>, builtin: &str) -> (r: Json)
    ensures
        r@ == Tree::Object(
            seq![
                ("asked"@, Tree::Str(text@)),
                ("mind"@, Tree::Str(named_or(active, builtin)@)),
            ],
        ),
{
    let mind: &str = match active {
        Some(id) => id,
        None => builtin,
    };
    two("asked", string(text), "mind", string(mind))
}

/// What opening the ask bar takes.
#[derive(Debug)]
pub struct LensStep {
    /// The ask bar is drawn by the desktop screen, so the shell goes there first.
    pub go_to_desktop: bool,
    /// What is put in the field, ready to edit.
    pub prefill: Option<String>,
}

/// Decide how the ask bar opens. Nothing is submitted.
pub fn open_lens(args: &Json, screen: i32) -> (r: LensStep)
    ensures
        ({
            let text = json::text_under(args@, "text"@);
            &&& r.go_to_desktop == (screen != 1)
            &&& match r.prefill {
                Some(t) => t@ == text && text.len() > 0,
                None => text.len() == 0,
            }
        }),
{
    let text = text_at(args, "text");
    let prefill = if text.as_str().is_empty() {
        None
    } else {
        Some(text)
    };
    LensStep { go_to_desktop: screen != 1, prefill }
}

/// What `open_lens` answers: the state as it was read back afterwards.
pub fn lens_answer(open: bool, screen: i32, text: &str) -> (r: Json)
    ensures
        r@ == Tree::Object(
            seq![
                ("lens_open"@, Tree::Bool(open)),
                ("screen"@, Tree::Str(screen_called(screen))),
                ("text"@, Tree::Str(text@)),
            ],
        ),
{
    let mut o: Vec<(String, Json)> = Vec::new();
    put_last(&mut o, "lens_open", Json::Bool(open));
    put_last(&mut o, "screen", string(screen_name(screen)));
    put_last(&mut o, "text", string(text));
    assert(json::entries(o@) =~= seq![
        ("lens_open"@, Tree::Bool(open)),
        ("screen"@, Tree::Str(screen_called(screen))),
        ("text"@, Tree::Str(text@)),
    ]);
    Json::Object(o)
}

/// Which mind is to answer from now on. `attached` is whether there is anything to attach it to.
pub fn use_harness(args: &Json, attached: bool) -> (r: Result<String, String>)
    ensures
        ({
            let id = json::argument(args@, "id"@);
            if id.len() == 0 {
                r matches Err(why) && why@ == is_empty_text("id"@)
            } else if !attached {
                r matches Err(why) && why@ == "the harness host is not running"@
            } else {
                r matches Ok(s) && s@ == id
            }
        }),
{
    match required_text(args, "id") {
        Err(why) => Err(why),
        Ok(id) => {
            if attached {
                Ok(id)
            } else {
                Err("the harness host is not running".to_owned())
            }
        },
    }
}

/// What `use_harness` answers. `tools` is what the mind said it has, where it is on the list.
pub fn answering(id: &str, tools: &Json) -> (r: Json)
    ensures
        r@ == Tree::Object(seq![("answering"@, Tree::Str(id@)), ("tools"@, tools@)]),
{
    two("answering", string(id), "tools", tools.copy())
}

/// What showing a screen takes.
#[derive(Debug)]
pub struct ShowScreen {
    /// The settings section that is turned to, whether or not there is a screen to show.
    pub section: Option<i32>,
    /// The screen that is shown and the answer, or why there is none.
    pub shown: Result<(i32, Json), String>,
}

/// What is said of a name that is not in a table.
pub open spec fn no_such(before: Seq<char>, name: Seq<char>, t: Seq<Named>) -> Seq<char> {
    before + name + "`; there is: "@ + text::join(names(t), ", "@)
}

/// What a name in small letters finds in a table.
pub open spec fn looked_up(t: Seq<Named>, name: Seq<char>) -> Option<i32> {
    let i = seqs::first(t, with_name(name));
    if i < t.len() {
        Some(t[i].1)
    } else {
        None
    }
}

/// The answer of `show_screen`.
pub open spec fn showing(want: Seq<char>, section: Seq<char>) -> Tree {
    if section.len() == 0 {
        one_field("showing"@, Tree::Str(want))
    } else {
        Tree::Object(seq![("showing"@, Tree::Str(want)), ("section"@, Tree::Str(section))])
    }
}

/// The section a screen is asked for with, where one is named and there is none: why not.
pub open spec fn section_trouble(section: Seq<char>) -> Option<Seq<char>> {
    if section.len() > 0 && looked_up(sections(), section) is None {
        Some(no_such("no settings section called `"@, section, sections()))
    } else {
        None
    }
}

/// Decide which screen is shown, given the names in small letters.
pub fn screen_for(want: &str, section: &str) -> (r: ShowScreen)
    ensures
        match section_trouble(section@) {
            Some(why) => r.section is None && (r.shown matches Err(said) && said@ == why),
            None => {
                &&& r.section == if section@.len() > 0 {
                    looked_up(sections(), section@)
                } else {
                    None
                }
                &&& match looked_up(screens(), want@) {
                    Some(id) => r.shown matches Ok(t) && t.0 == id && t.1@ == showing(
                        want@,
                        section@,
                    ),
                    None => r.shown matches Err(said) && said@ == no_such(
                        "no screen called `"@,
                        want@,
                        screens(),
                    ),
                }
            },
        },
{
    let mut turned: Option<i32> = None;
    if !section.is_empty() {
        let v = settings_sections();
        match number_of(&v, section) {
            Some(id) => {
                turned = Some(id);
            },
            None => {
                let mut out = "no settings section called `".to_owned();
                out.append(section);
                out.append("`; there is: ");
                out.append(joined(names_of(&v).as_slice(), ", ").as_str());
                return ShowScreen { section: None, shown: Err(out) };
            },
        }
    }
    let v = screen_table();
    match number_of(&v, want) {
        Some(id) => {
            let answer = if section.is_empty() {
                one("showing", string(want))
            } else {
                two("showing", string(want), "section", string(section))
            };
            ShowScreen { section: turned, shown: Ok((id, answer)) }
        },
        None => {
            let mut out = "no screen called `".to_owned();
            out.append(want);
            out.append("`; there is: ");
            out.append(joined(names_of(&v).as_slice(), ", ").as_str());
            ShowScreen { section: turned, shown: Err(out) }
        },
    }
}

/// Decide which screen is shown.
pub fn show_screen(args: &Json) -> (r: ShowScreen)
    ensures
        ({
            let want = text::small(json::argument(args@, "screen"@));
            let section = text::small(json::argument(args@, "section"@));
            match section_trouble(section) {
                Some(why) => r.section is None && (r.shown matches Err(said) && said@ == why),
                None => {
                    &&& r.section == if section.len() > 0 {
                        looked_up(sections(), section)
                    } else {
                        None
                    }
                    &&& match looked_up(screens(), want) {
                        Some(id) => r.shown matches Ok(t) && t.0 == id && t.1@ == showing(
                            want,
                            section,
                        ),
                        None => r.shown matches Err(said) && said@ == no_such(
                            "no screen called `"@,
                            want,
                            screens(),
                        ),
                    }
                },
            }
        }),
{
    let want = to_small(argument_of(args, "screen").as_str());
    let section = to_small(argument_of(args, "section").as_str());
    screen_for(want.as_str(), section.as_str())
}

pub open spec fn is_text(want: Seq<char>) -> spec_fn(Seq<char>) -> bool {
    |t: Seq<char>| t == want
}

pub open spec fn has_text(want: Seq<char>) -> spec_fn(Seq<char>) -> bool {
    |t: Seq<char>| text::contains(t, want)
}

/// Which title is meant, of titles in small letters: the one that is what was said, and otherwise
/// the first that holds it.
pub open spec fn meant(small: Seq<Seq<char>>, want: Seq<char>) -> Option<int> {
    let exact = seqs::first(small, is_text(want));
    let held = seqs::first(small, has_text(want));
    if exact < small.len() {
        Some(exact)
    } else if held < small.len() {
        Some(held)
    } else {
        None
    }
}

/// Which title is meant, of titles in small letters.
pub fn window_meant(small: &[String], want: &str) -> (r: Option<usize>)
    ensures
        match r {
            Some(i) => i < small@.len() && meant(text::strs(small@), want@) == Some(i as int),
            None => meant(text::strs(small@), want@) is None,
        },
{
    let ghost all = text::strs(small@);
    let ghost f = is_text(want@);
    let mut i: usize = 0;
    while i < small.len()
        invariant
            i <= small@.len(),
            all == text::strs(small@),
            f == is_text(want@),
            seqs::first(all, f) == seqs::first_from(all, f, i as int),
        decreases small@.len() - i,
    {
        assert(all[i as int] == small@[i as int]@);
        if same(small[i].as_str(), want) {
            return Some(i);
        }
        i += 1;
    }
    let ghost g = has_text(want@);
    let mut k: usize = 0;
    while k < small.len()
        invariant
            k <= small@.len(),
            all == text::strs(small@),
            g == has_text(want@),
            seqs::first(all, is_text(want@)) == all.len(),
            seqs::first(all, g) == seqs::first_from(all, g, k as int),
        decreases small@.len() - k,
    {
        assert(all[k as int] == small@[k as int]@);
        if has(small[k].as_str(), want) {
            return Some(k);
        }
        k += 1;
    }
    None
}

/// Titles in small letters.
pub open spec fn smalls(titles: Seq<Seq<char>>) -> Seq<Seq<char>> {
    Seq::new(titles.len(), |i: int| text::small(titles[i]))
}

/// Decide which window comes to the front.
pub fn focus_window(args: &Json, titles: &[String]) -> (r: Result<String, String>)
    ensures
        ({
            let want = text::small(json::argument(args@, "title"@));
            let all = text::strs(titles@);
            match meant(smalls(all), want) {
                Some(i) => r matches Ok(t) && t@ == all[i],
                None => r matches Err(why) && why@ == if titles@.len() == 0 {
                    "no windows are open"@
                } else {
                    "no open window matches `"@ + want + "`; there is: "@ + text::join(all, ", "@)
                },
            }
        }),
{
    let want = to_small(argument_of(args, "title").as_str());
    let ghost all = text::strs(titles@);
    let mut small: Vec<String> = Vec::new();
    let mut i: usize = 0;
    while i < titles.len()
        invariant
            i <= titles@.len(),
            small@.len() == i,
            all == text::strs(titles@),
            forall|k: int| 0 <= k < i ==> (#[trigger] small@[k])@ == text::small(all[k]),
        decreases titles@.len() - i,
    {
        small.push(to_small(titles[i].as_str()));
        i += 1;
    }
    assert(text::strs(small@) =~= smalls(all));
    match window_meant(small.as_slice(), want.as_str()) {
        Some(i) => Ok(titles[i].clone()),
        None => {
            if titles.len() == 0 {
                return Err("no windows are open".to_owned());
            }
            let mut out = "no open window matches `".to_owned();
            out.append(want.as_str());
            out.append("`; there is: ");
            out.append(joined(titles, ", ").as_str());
            Err(out)
        },
    }
}

/// What `focus_window` answers.
pub fn focused(title: &str) -> (r: Json)
    ensures
        r@ == one_field("focused"@, Tree::Str(title@)),
{
    one("focused", string(title))
}

/// Notifications held or released.
#[derive(Debug)]
pub struct Quiet {
    /// Whether anything changes.
    pub toggle: bool,
    pub answer: Json,
}

/// Decide whether notifications are held. `now` is whether they are.
pub fn set_do_not_disturb(args: &Json, now: bool) -> (r: Result<Quiet, String>)
    ensures
        match json::flag_under(args@, "on"@) {
            Some(on) => r matches Ok(q) && q.toggle == (now != on) && q.answer@ == one_field(
                "do_not_disturb"@,
                Tree::Bool(on),
            ),
            None => r matches Err(why) && why@ == "`on` must be true or false"@,
        },
{
    match flag_at(args, "on") {
        Some(on) => Ok(Quiet { toggle: now != on, answer: one("do_not_disturb", Json::Bool(on)) }),
        None => Err("`on` must be true or false".to_owned()),
    }
}

/// What `lock` answers.
pub fn locked() -> (r: Json)
    ensures
        r@ == one_field("locked"@, Tree::Bool(true)),
{
    one("locked", Json::Bool(true))
}

// ── Published actions ───────────────────────────────────────────────

pub const ABOUT_OPEN_LENS_TEXT: &'static str =
    "Put this in the field, ready to edit. It is NOT submitted \u{2014} use send_message to ask";

pub const ABOUT_SHOW_SCREEN_SCREEN: &'static str =
    "desktop, files, settings, notifications, memory, system, permissions, bond, personality, about, packages, devices, images, editor, media";

pub const ABOUT_SHOW_SCREEN_SECTION: &'static str =
    "For `settings`: appearance, ai, desktop, network, accounts, privacy, system, skills, harnesses";

/// The actions this module publishes.
pub open spec fn published() -> Seq<Listing> {
    Seq::<Listing>::empty().push(
        Listing::new("open_app"@, "Launch an app, or focus it if it is already running"@).deferred()
            .arg(Takes::new("name"@, ParamKind::Text).described("App id, e.g. notes, email, terminal, files"@)),
    ).push(
        Listing::new("start_service"@, "Start one of the machine's services if it is not running"@)
            .arg(Takes::new("name"@, ParamKind::Text).described("Service id, as the machine rail lists it"@)),
    ).push(
        Listing::new("refresh_apps"@, "Rescan the installed applications"@),
    ).push(
        Listing::new("pin_app"@, "Pin an app to START, or unpin it"@)
            .arg(Takes::new("name"@, ParamKind::Text).described("App id, e.g. notes, files, browser, chromium"@))
            .arg(Takes::new("pinned"@, ParamKind::Flag).described("true to pin, false to unpin"@)),
    ).push(
        Listing::new("send_message"@, "Ask the desktop something, as if typed into the Lens"@).deferred()
            .arg(Takes::new("text"@, ParamKind::Text).described("What to say"@)),
    ).push(
        Listing::new("open_lens"@, "Open the ask bar (the Lens) and put the cursor in it"@).risk("safe"@)
            .arg(Takes::new("text"@, ParamKind::Text).left_out().described(ABOUT_OPEN_LENS_TEXT@)),
    ).push(
        Listing::new("use_harness"@, "Choose which mind answers when the shell is asked something"@)
            .arg(Takes::new("id"@, ParamKind::Text).described("Harness id, as `describe shell` lists under `minds`"@)),
    ).push(
        Listing::new("show_screen"@, "Switch the shell to one of its screens"@)
            .arg(Takes::new("screen"@, ParamKind::Text).described(ABOUT_SHOW_SCREEN_SCREEN@))
            .arg(Takes::new("section"@, ParamKind::Text).left_out().described(ABOUT_SHOW_SCREEN_SECTION@)),
    ).push(
        Listing::new("focus_window"@, "Bring an open window to the front"@).deferred()
            .arg(Takes::new("title"@, ParamKind::Text).described("Window title, or part of one"@)),
    ).push(
        Listing::new("set_do_not_disturb"@, "Hold or release notifications"@)
            .arg(Takes::new("on"@, ParamKind::Flag)),
    ).push(
        Listing::new("lock"@, "Lock the session"@).risk("sensitive"@),
    )
}

/// The actions this module publishes.
pub fn actions() -> (r: Vec<Action>)
    ensures
        surface::shown(r@) == published(),
{
    let mut out: Vec<Action> = Vec::new();
    assert(surface::shown(out@) =~= Seq::<Listing>::empty());
    add_action(
        &mut out,
        Action::new("open_app", "Launch an app, or focus it if it is already running").defers()
            .arg(Param::text("name").describe("App id, e.g. notes, email, terminal, files")),
    );
    add_action(
        &mut out,
        Action::new("start_service", "Start one of the machine's services if it is not running")
            .arg(Param::text("name").describe("Service id, as the machine rail lists it")),
    );
    add_action(
        &mut out,
        Action::new("refresh_apps", "Rescan the installed applications"),
    );
    add_action(
        &mut out,
        Action::new("pin_app", "Pin an app to START, or unpin it")
            .arg(Param::text("name").describe("App id, e.g. notes, files, browser, chromium"))
            .arg(Param::flag("pinned").describe("true to pin, false to unpin")),
    );
    add_action(
        &mut out,
        Action::new("send_message", "Ask the desktop something, as if typed into the Lens").defers()
            .arg(Param::text("text").describe("What to say")),
    );
    add_action(
        &mut out,
        Action::new("open_lens", "Open the ask bar (the Lens) and put the cursor in it").risk("safe")
            .arg(Param::text("text").optional().describe(ABOUT_OPEN_LENS_TEXT)),
    );
    add_action(
        &mut out,
        Action::new("use_harness", "Choose which mind answers when the shell is asked something")
            .arg(Param::text("id").describe("Harness id, as `describe shell` lists under `minds`")),
    );
    add_action(
        &mut out,
        Action::new("show_screen", "Switch the shell to one of its screens")
            .arg(Param::text("screen").describe(ABOUT_SHOW_SCREEN_SCREEN))
            .arg(Param::text("section").optional().describe(ABOUT_SHOW_SCREEN_SECTION)),
    );
    add_action(
        &mut out,
        Action::new("focus_window", "Bring an open window to the front").defers()
            .arg(Param::text("title").describe("Window title, or part of one")),
    );
    add_action(
        &mut out,
        Action::new("set_do_not_disturb", "Hold or release notifications")
            .arg(Param::flag("on")),
    );
    add_action(
        &mut out,
        Action::new("lock", "Lock the session").risk("sensitive"),
    );
    out
}

// ── Laws ────────────────────────────────────────────────────────────

/// A screen answers to exactly one name: what a caller asks for by a name is called by that name
/// once it is up, and no two names are the same or show the same screen.
pub proof fn law_a_screen_answers_to_one_name()
    ensures
        forall|i: int|
            0 <= i < screens().len() ==> screen_called((#[trigger] screens()[i]).1)
                == screens()[i].0,
        forall|i: int, j: int|
            0 <= i < j < screens().len() ==> (#[trigger] screens()[i]).1 != (
            #[trigger] screens()[j]).1,
        forall|i: int, j: int|
            0 <= i < j < screens().len() ==> (#[trigger] screens()[i]).0 != (
            #[trigger] screens()[j]).0,
{
    let t = screens();
    assert forall|i: int, j: int| 0 <= i < j < t.len() implies (#[trigger] t[i]).1 != (
    #[trigger] t[j]).1 by {}
    assert forall|i: int| 0 <= i < t.len() implies screen_called((#[trigger] t[i]).1) == t[i].0 by {
        assert forall|j: int| 0 <= j < i implies !with_number(t[i].1)(#[trigger] t[j]) by {
            assert(t[j].1 != t[i].1);
        }
        seqs::lemma_first_is(t, with_number(t[i].1), i);
    }
    reveal_strlit("desktop");
    reveal_strlit("bond");
    reveal_strlit("personality");
    reveal_strlit("memory");
    reveal_strlit("settings");
    reveal_strlit("files");
    reveal_strlit("notifications");
    reveal_strlit("system");
    reveal_strlit("images");
    reveal_strlit("editor");
    reveal_strlit("media");
    reveal_strlit("about");
    reveal_strlit("packages");
    reveal_strlit("devices");
    reveal_strlit("permissions");
    // The first four letters tell the names apart.
    let head = |s: Seq<char>| (s[0], s[1], s[2], s[3]);
    assert forall|i: int, j: int| 0 <= i < j < t.len() implies (#[trigger] t[i]).0 != (
    #[trigger] t[j]).0 by {
        assert(head(t[i].0) != head(t[j].0));
    }
}

/// The sections a caller can name are numbered as the sidebar numbers them: from zero, with no
/// gaps.
pub proof fn law_sections_are_numbered_from_zero()
    ensures
        forall|i: int| 0 <= i < sections().len() ==> (#[trigger] sections()[i]).1 == i,
{
}

// ── What is said, exactly ───────────────────────────────────────────

/// Every screen has its name: those a person is shown on their way in, those that can be asked for,
/// and no other.
pub proof fn law_what_the_screens_are_called(id: i32)
    ensures
        screen_called(id) == if id == 0 {
            "boot"@
        } else if id == 1 {
            "desktop"@
        } else if id == 2 {
            "onboarding"@
        } else if id == 3 {
            "lock"@
        } else if id == 4 {
            "bond"@
        } else if id == 5 {
            "personality"@
        } else if id == 6 {
            "memory"@
        } else if id == 7 {
            "settings"@
        } else if id == 8 {
            "files"@
        } else if id == 9 {
            "notifications"@
        } else if id == 10 {
            "system"@
        } else if id == 11 {
            "images"@
        } else if id == 12 {
            "editor"@
        } else if id == 13 {
            "media"@
        } else if id == 16 {
            "about"@
        } else if id == 21 {
            "packages"@
        } else if id == 27 {
            "devices"@
        } else if id == 28 {
            "permissions"@
        } else if id == 32 {
            "login"@
        } else {
            "unknown"@
        },
{
    let t = screens();
    let f = with_number(id);
    seqs::lemma_first(t, f);
    let i = seqs::first(t, f);
    assert(t.len() == 15);
    assert(t[0].1 == 1 && t[1].1 == 4 && t[2].1 == 5 && t[3].1 == 6 && t[4].1 == 7 && t[5].1 == 8
        && t[6].1 == 9 && t[7].1 == 10 && t[8].1 == 11 && t[9].1 == 12 && t[10].1 == 13 && t[11].1
        == 16 && t[12].1 == 21 && t[13].1 == 27 && t[14].1 == 28);
    if i < t.len() {
        assert(f(t[i]));
    } else {
        assert(!f(t[0]) && !f(t[1]) && !f(t[2]) && !f(t[3]) && !f(t[4]) && !f(t[5]) && !f(t[6])
            && !f(t[7]) && !f(t[8]) && !f(t[9]) && !f(t[10]) && !f(t[11]) && !f(t[12]) && !f(t[13])
            && !f(t[14]));
    }
}

/// Names are read out as a person would: one alone, two with an `and`, more with commas and an
/// `and` before the last.
pub proof fn law_how_names_are_read_out(names: Seq<Seq<char>>, last: Seq<char>)
    ensures
        read_out(Seq::empty()).len() == 0,
        read_out(seq![last]) == last,
        names.len() > 0 ==> read_out(names.push(last)) == text::join(names, ", "@) + " and "@ + last,
{
    assert(names.push(last).drop_last() =~= names);
}

/// A message of six hundred characters is told whole, and a longer one up to there, with how long
/// it is.
pub proof fn law_a_long_message_says_how_long_it_is(m: Message)
    ensures
        m.row() == Tree::Object(
            seq![
                ("role"@, Tree::Str(m.role@)),
                (
                    "text"@,
                    Tree::Str(
                        if m.content@.len() <= 600 {
                            m.content@
                        } else {
                            m.content@.take(600) + "\u{2026} ("@ + text::dec(m.content@.len())
                                + " characters total)"@
                        },
                    ),
                ),
                ("streaming"@, Tree::Bool(m.streaming)),
            ],
        ),
{
}

/// An app that is there is opened, and one that is not is refused, with its name and what can be
/// opened instead.
pub proof fn law_only_what_is_there_is_opened(name: Seq<char>, a: Availability, ids: Seq<Seq<char>>)
    ensures
        unlaunchable(name, a, ids) is None <==> a is Ready,
        unlaunchable(name, a, ids) matches Some(why) ==> text::contains(why, name)
            && text::contains(why, text::join(ids, ", "@)),
{
    let offered = text::join(ids, ", "@);
    match a {
        Availability::Ready => {},
        Availability::Missing(what) => {
            lemma_middle("`"@, name, "` is not installed on this machine: "@ + what@
                + " was not found. It can open: "@ + offered);
            assert("`"@ + name + "` is not installed on this machine: "@ + what@
                + " was not found. It can open: "@ + offered =~= "`"@ + name + (
            "` is not installed on this machine: "@ + what@ + " was not found. It can open: "@
                + offered));
            let head = "`"@ + name + "` is not installed on this machine: "@ + what@
                + " was not found. It can open: "@;
            lemma_middle(head, offered, Seq::empty());
            assert(head + offered + Seq::<char>::empty() =~= head + offered);
        },
        Availability::Shelved(shelf) => {
            let tail = "` is not part of this build. "@ + shelf.name@ + " is shelved: "@
                + shelf.reason@ + ". It comes back when "@ + shelf.returns_when@
                + " \u{2014} see design/shelved-2026-09-20.md. It can open: "@ + offered;
            lemma_middle("`"@, name, tail);
            let head = "`"@ + name + "` is not part of this build. "@ + shelf.name@
                + " is shelved: "@ + shelf.reason@ + ". It comes back when "@ + shelf.returns_when@
                + " \u{2014} see design/shelved-2026-09-20.md. It can open: "@;
            lemma_middle(head, offered, Seq::empty());
            assert(head + offered + Seq::<char>::empty() =~= head + offered);
            assert(head + offered =~= "`"@ + name + tail);
        },
        Availability::Unknown => {
            let tail = "` on this machine; it can open: "@ + offered;
            lemma_middle("no app `"@, name, tail);
            let head = "no app `"@ + name + "` on this machine; it can open: "@;
            lemma_middle(head, offered, Seq::empty());
            assert(head + offered + Seq::<char>::empty() =~= head + offered);
            assert(head + offered =~= "no app `"@ + name + tail);
        },
    }
}

proof fn lemma_middle(a: Seq<char>, b: Seq<char>, c: Seq<char>)
    ensures
        text::contains(a + b + c, b),
{
    let s = a + b + c;
    let i = a.len() as int;
    assert(s.subrange(i, i + b.len()) =~= b);
    assert(text::at(s, i, b));
}

/// Forty entries of a folder are listed at most, the first, and how many there are is always told.
pub proof fn law_forty_entries_are_listed(f: Files)
    requires
        f.entries@.len() <= u64::MAX,
    ensures
        ({
            let e = folder_entries(f);
            let n = f.entries@.len();
            &&& e[0] == ("path"@, Tree::Str(f.path@))
            &&& n <= 40 ==> e[1].1 == Tree::Array(json::rows(f.entries@)) && e[2].1 == e[3].1
            &&& n > 40 ==> e[1].1 == Tree::Array(json::rows(f.entries@.take(40))) && e[2].1
                == Tree::Num(json::whole(40))
            &&& e[3] == ("total"@, Tree::Num(json::whole(n as u64)))
            &&& 0 <= f.selected_index < n ==> e[4].1 == Tree::Str(
                f.entries@[f.selected_index as int].name@,
            )
            &&& f.selected_index < 0 || f.selected_index >= n ==> e[4].1 == Tree::Null
        }),
{
    if f.entries@.len() <= 40 {
        assert(f.entries@.take(f.entries@.len() as int) =~= f.entries@);
    }
}

/// A service that failed or was stopped is told to be down, and one that runs is not.
pub proof fn law_what_is_down_is_told(s: Seq<Service>, one: Service)
    ensures
        one.status@ == "failed"@ || one.status@ == "stopped"@ ==> down(s.push(one)) == down(s).push(
            one.id@,
        ),
        one.status@ != "failed"@ && one.status@ != "stopped"@ ==> down(s.push(one)) == down(s),
        down(Seq::empty()).len() == 0,
{
    reveal(Seq::filter);
    assert(s.push(one).drop_last() =~= s);
    let f = not_running();
    let g = |s: Service| s.id@;
    if f(one) {
        assert(s.filter(f).push(one).map_values(g) =~= s.filter(f).map_values(g).push(one.id@));
    }
}

/// The headline is the installer's while it installs and the editor's while it edits; then what is
/// down comes before anything else.
pub proof fn law_what_the_headline_says(d: Desktop)
    ensures
        d.screen == 2 ==> headline(d) == d.installer_summary@,
        d.screen == 12 ==> headline(d) == d.editor_summary@,
        d.screen != 2 && d.screen != 12 && down(d.services@).len() > 0 ==> headline(d)
            == "Yantrik \u{2014} "@ + screen_called(d.screen) + " screen, "@ + text::dec(
            d.windows@.len(),
        ) + " windows open, "@ + read_out(down(d.services@)) + " not running"@,
        d.screen == 8 && down(d.services@).len() == 0 ==> headline(d)
            == "Yantrik \u{2014} files at "@ + d.files.path@ + ", "@ + text::dec(
            d.files.entries@.len(),
        ) + " items, "@ + text::dec(d.windows@.len()) + " windows open"@,
{
}

/// The last six messages of the conversation are told, the newest last, and the screen at hand
/// tells of itself while every other is silent.
pub proof fn law_what_is_told_of_the_desktop(d: Desktop)
    ensures
        ({
            let e = happening(d);
            let m = d.messages@;
            &&& m.len() <= 6 ==> e[1].1 == Tree::Array(json::rows(m))
            &&& m.len() > 6 ==> e[1].1 == Tree::Array(json::rows(m.skip(m.len() - 6)))
            &&& e[12] == ("files"@, if d.screen == 8 { d.files.row() } else { Tree::Null })
            &&& e[13] == ("installer"@, if d.screen == 2 { d.installer@ } else { Tree::Null })
            &&& e[14] == ("editor"@, if d.screen == 12 { d.editor@ } else { Tree::Null })
            &&& e[5] == ("pending_approvals"@, d.pending_approvals@)
            &&& e[6] == ("tool_permission"@, Tree::Str(d.tool_permission@))
        }),
{
}

/// An app can be pinned where it is there, taken off where it is known or was pinned, and never the
/// launcher either way.
pub proof fn law_what_can_be_pinned(name: Seq<char>, f: PinFacts)
    requires
        name.len() > 0,
    ensures
        pin_refused(name, Some(true), f) is None <==> f.availability is Ready && f.pinnable,
        pin_refused(name, Some(false), f) is None <==> (f.known || f.pinned) && f.pinnable,
        pin_refused(name, None, f) == Some("`pinned` must be true or false"@),
{
}

/// A window is meant by its whole title before it is meant by a part of one, and the first that
/// fits is meant.
pub proof fn law_a_whole_title_goes_first(small: Seq<Seq<char>>, want: Seq<char>, i: int)
    requires
        0 <= i < small.len(),
    ensures
        small[i] == want && (forall|j: int| 0 <= j < i ==> #[trigger] small[j] != want) ==> meant(
            small,
            want,
        ) == Some(i),
        (forall|j: int| 0 <= j < small.len() ==> #[trigger] small[j] != want) && text::contains(
            small[i],
            want,
        ) && (forall|j: int| 0 <= j < i ==> !text::contains(#[trigger] small[j], want)) ==> meant(
            small,
            want,
        ) == Some(i),
        (forall|j: int|
            0 <= j < small.len() ==> #[trigger] small[j] != want && !text::contains(
                small[j],
                want,
            )) ==> meant(small, want) is None,
{
    let f = is_text(want);
    let g = has_text(want);
    seqs::lemma_first(small, f);
    seqs::lemma_first(small, g);
    if small[i] == want && forall|j: int| 0 <= j < i ==> #[trigger] small[j] != want {
        seqs::lemma_first_is(small, f, i);
    }
    if forall|j: int| 0 <= j < small.len() ==> #[trigger] small[j] != want {
        seqs::lemma_first_none(small, f);
        if text::contains(small[i], want) && forall|j: int|
            0 <= j < i ==> !text::contains(#[trigger] small[j], want) {
            seqs::lemma_first_is(small, g, i);
        }
        if forall|j: int| 0 <= j < small.len() ==> !text::contains(#[trigger] small[j], want) {
            seqs::lemma_first_none(small, g);
        }
    }
}

/// Looking and asking are standard or safe, and locking a person out is sensitive.
pub proof fn law_how_the_shells_actions_are_graded()
    ensures
        published().len() == 11,
        published()[0].name == "open_app"@ && published()[0].grade == "standard"@,
        published()[1].name == "start_service"@ && published()[1].grade == "standard"@,
        published()[2].name == "refresh_apps"@ && published()[2].grade == "standard"@,
        published()[3].name == "pin_app"@ && published()[3].grade == "standard"@,
        published()[4].name == "send_message"@ && published()[4].grade == "standard"@,
        published()[5].name == "open_lens"@ && published()[5].grade == "safe"@,
        published()[6].name == "use_harness"@ && published()[6].grade == "standard"@,
        published()[7].name == "show_screen"@ && published()[7].grade == "standard"@,
        published()[8].name == "focus_window"@ && published()[8].grade == "standard"@,
        published()[9].name == "set_do_not_disturb"@ && published()[9].grade == "standard"@,
        published()[10].name == "lock"@ && published()[10].grade == "sensitive"@,
{
}

// ── What is answered ────────────────────────────────────────────────

/// An app is opened by its name where it is there, and never without a name.
pub proof fn law_an_app_is_opened_by_its_name(
    args: Json,
    availability: Availability,
    ids: &[String],
    r: Result<String, String>,
)
    requires
        call_ensures(open_app, (&args, &availability, ids), r),
    ensures
        r is Ok <==> json::argument(args@, "name"@).len() > 0 && availability is Ready,
        r matches Ok(name) ==> name@ == json::argument(args@, "name"@),
{
}

/// A service that runs is not started again, and one that does not is.
pub proof fn law_a_running_service_is_not_started(
    args: Json,
    running: bool,
    r: Result<ServiceStep, String>,
)
    requires
        call_ensures(start_service, (&args, running), r),
        json::argument(args@, "name"@).len() > 0,
    ensures
        running ==> r is Ok && r->Ok_0 is Up,
        !running ==> r is Ok && r->Ok_0 is Start && (r->Ok_0)->Start_0@ == json::argument(
            args@,
            "name"@,
        ),
{
}

/// A pin is changed only where it is not as it is wanted.
pub proof fn law_a_pin_is_changed_where_it_differs(
    args: Json,
    facts: PinFacts,
    want: bool,
    r: Result<Pin, String>,
)
    requires
        call_ensures(pin_app, (&args, &facts), r),
        json::flag_under(args@, "pinned"@) == Some(want),
        json::argument(args@, "name"@).len() > 0,
        facts.availability is Ready,
        facts.known,
        facts.pinnable,
    ensures
        r is Ok,
        r->Ok_0.name@ == json::argument(args@, "name"@),
        r->Ok_0.want == want,
        r->Ok_0.toggle <==> facts.pinned != want,
{
}

/// The Lens opens on the desktop, and holds what it is handed as it is written.
pub proof fn law_how_the_lens_opens(args: Json, screen: i32, r: LensStep)
    requires
        call_ensures(open_lens, (&args, screen), r),
    ensures
        r.go_to_desktop <==> screen != 1,
        r.prefill is Some <==> json::text_under(args@, "text"@).len() > 0,
        r.prefill matches Some(t) ==> t@ == json::text_under(args@, "text"@),
{
}

/// A message and a mind have to be named, and a mind is chosen only while its host runs.
pub proof fn law_what_has_to_be_named(
    args: Json,
    attached: bool,
    message: Result<String, String>,
    mind: Result<String, String>,
)
    requires
        call_ensures(send_message, (&args,), message),
        call_ensures(use_harness, (&args, attached), mind),
    ensures
        message is Ok <==> json::argument(args@, "text"@).len() > 0,
        message matches Ok(t) ==> t@ == json::argument(args@, "text"@),
        mind is Ok <==> json::argument(args@, "id"@).len() > 0 && attached,
        mind matches Ok(t) ==> t@ == json::argument(args@, "id"@),
{
}

/// A screen is shown by its name; a section that is named has to be one, and only then is anything
/// shown at all.
pub proof fn law_a_screen_is_shown_by_its_name(
    want: &str,
    section: &str,
    i: int,
    k: int,
    r: ShowScreen,
)
    requires
        call_ensures(screen_for, (want, section), r),
        0 <= i < screens().len(),
        0 <= k < sections().len(),
        want@ == screens()[i].0,
        forall|j: int| 0 <= j < i ==> (#[trigger] screens()[j]).0 != want@,
        forall|j: int| 0 <= j < k ==> (#[trigger] sections()[j]).0 != section@,
    ensures
        section@.len() == 0 ==> r.section is None && r.shown is Ok && (r.shown->Ok_0).0
            == screens()[i].1,
        section@.len() > 0 && section@ == sections()[k].0 ==> r.section == Some(sections()[k].1)
            && r.shown is Ok && (r.shown->Ok_0).0 == screens()[i].1,
        section@.len() > 0 && (forall|j: int|
            0 <= j < sections().len() ==> (#[trigger] sections()[j]).0 != section@) ==> r.shown
            is Err && r.section is None,
{
    seqs::lemma_first_is(screens(), with_name(want@), i);
    if section@ == sections()[k].0 {
        seqs::lemma_first_is(sections(), with_name(section@), k);
    }
    if forall|j: int| 0 <= j < sections().len() ==> (#[trigger] sections()[j]).0 != section@ {
        seqs::lemma_first_none(sections(), with_name(section@));
    }
}

/// The window that is meant comes to the front, under its own title.
pub proof fn law_the_window_that_is_meant_comes_to_the_front(
    args: Json,
    titles: &[String],
    r: Result<String, String>,
)
    requires
        call_ensures(focus_window, (&args, titles), r),
    ensures
        ({
            let want = text::small(json::argument(args@, "title"@));
            let found = meant(smalls(text::strs(titles@)), want);
            &&& r is Ok <==> found is Some
            &&& found matches Some(i) ==> r->Ok_0@ == titles@[i]@
            &&& titles@.len() == 0 ==> r is Err && r->Err_0@ == "no windows are open"@
        }),
{
    let want = text::small(json::argument(args@, "title"@));
    let small = smalls(text::strs(titles@));
    seqs::lemma_first(small, is_text(want));
    seqs::lemma_first(small, has_text(want));
}

/// Do not disturb is switched only where it is not as it is wanted, and has to be on or off.
pub proof fn law_quiet_is_switched_where_it_differs(args: Json, now: bool, r: Result<Quiet, String>)
    requires
        call_ensures(set_do_not_disturb, (&args, now), r),
    ensures
        r is Ok <==> json::flag_under(args@, "on"@) is Some,
        json::flag_under(args@, "on"@) == Some(true) ==> r->Ok_0.toggle == !now,
        json::flag_under(args@, "on"@) == Some(false) ==> r->Ok_0.toggle == now,
{
}

/// The conversation is told from its end: the last six messages, in order, and all of them where
/// there are no more.
pub proof fn law_the_end_of_the_conversation_is_told(m: Seq<Message>, i: int)
    requires
        0 <= i < recent(m).len(),
    ensures
        recent(m).len() <= 6,
        m.len() <= 6 ==> recent(m) == m,
        m.len() > 6 ==> recent(m).len() == 6,
        recent(m)[i] == m[m.len() - recent(m).len() + i],
{
}

/// What is answered names what was done: what was asked and of whom, and an app with its pin.
pub proof fn law_what_was_done_is_answered(
    text: &str,
    active: Option<&str>,
    builtin: &str,
    said: Json,
    pin_id: &str,
    want: bool,
    start: &[String],
    pin: Json,
    open: bool,
    screen: i32,
    lens: Json,
)
    requires
        call_ensures(asked, (text, active, builtin), said),
        call_ensures(pinned_answer, (pin_id, want, start), pin),
        call_ensures(lens_answer, (open, screen, text), lens),
    ensures
        said@->Object_0[0] == ("asked"@, Tree::Str(text@)),
        active matches Some(a) ==> said@->Object_0[1] == ("mind"@, Tree::Str(a@)),
        active is None ==> said@->Object_0[1] == ("mind"@, Tree::Str(builtin@)),
        pin@->Object_0[0] == ("app"@, Tree::Str(pin_id@)),
        pin@->Object_0[1] == ("pinned"@, Tree::Bool(want)),
        lens@->Object_0[0] == ("lens_open"@, Tree::Bool(open)),
        lens@->Object_0[2] == ("text"@, Tree::Str(text@)),
{
}

} // verus!
