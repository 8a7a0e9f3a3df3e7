//! The installer describes itself, and can be filled in and run without a mouse.
//!
//! Filling the form installs nothing. A password goes in as text and comes out as a flag.
use crate::control;
use crate::control::{names_of, number_of, one, two, Named};
use crate::json;
use crate::json::{
    argument_of, put_last, signed_value, string, strings, text_at, Json, Row, Tree,
};
use crate::seqs;
use crate::text;
use crate::text::{chars_of, is_blank, joined, rest, same, signed_decimal, stands_at, to_small, trimmed};
use crate::surface;
use crate::surface::{add_action, Action, Listing, Param, ParamKind, Takes};
use vstd::prelude::*;

verus! {

/// The steps of the wizard a caller may go to, by name. The opening and what follows an install
/// are no places to jump to.
pub open spec fn steps() -> Seq<Named> {
    seq![
        ("identity"@, 3i32),
        ("interests"@, 4i32),
        ("location"@, 5i32),
        ("hardware"@, 6i32),
        ("ai-mode"@, 7i32),
        ("ai-provider"@, 8i32),
        ("ai-test"@, 9i32),
        ("summary"@, 10i32),
    ]
}

fn step_table() -> (r: Vec<(&'static str, i32)>)
    ensures
        control::table(r@) == steps(),
{
    let r: Vec<(&'static str, i32)> = vec![
        ("identity", 3),
        ("interests", 4),
        ("location", 5),
        ("hardware", 6),
        ("ai-mode", 7),
        ("ai-provider", 8),
        ("ai-test", 9),
        ("summary", 10),
    ];
    assert(control::table(r@) =~= steps());
    r
}

/// What a step of the wizard is called.
pub open spec fn step_called(phase: i32) -> Seq<char> {
    if phase == 0 || phase == 1 {
        "waking"@
    } else if phase == 2 {
        "greeting"@
    } else if phase == 11 {
        "installing"@
    } else if phase == 12 {
        "installed"@
    } else {
        let i = seqs::first(steps(), control::with_number(phase));
        if i < steps().len() {
            steps()[i].0
        } else {
            "unknown"@
        }
    }
}

/// What the wizard is showing, in words.
pub fn step_name(phase: i32) -> (r: &'static str)
    ensures
        r@ == step_called(phase),
{
    if phase == 0 || phase == 1 {
        return "waking";
    }
    if phase == 2 {
        return "greeting";
    }
    if phase == 11 {
        return "installing";
    }
    if phase == 12 {
        return "installed";
    }
    let v = step_table();
    let ghost f = control::with_number(phase);
    let mut i: usize = 0;
    while i < v.len()
        invariant
            i <= v@.len(),
            control::table(v@) == steps(),
            f == control::with_number(phase),
            seqs::first(steps(), f) == seqs::first_from(steps(), f, i as int),
        decreases v@.len() - i,
    {
        assert(steps()[i as int] == (v@[i as int].0@, v@[i as int].1));
        if v[i].1 == phase {
            return v[i].0;
        }
        i += 1;
    }
    "unknown"
}

/// The fields a caller may write.
pub open spec fn fields() -> Seq<Seq<char>> {
    seq![
        "full_name"@,
        "username"@,
        "password"@,
        "password_confirm"@,
        "hostname"@,
        "companion_name"@,
        "location"@,
        "disk"@,
    ]
}

fn field_names() -> (r: Vec<String>)
    ensures
        text::strs(r@) == fields(),
{
    let mut r: Vec<String> = Vec::new();
    r.push("full_name".to_owned());
    r.push("username".to_owned());
    r.push("password".to_owned());
    r.push("password_confirm".to_owned());
    r.push("hostname".to_owned());
    r.push("companion_name".to_owned());
    r.push("location".to_owned());
    r.push("disk".to_owned());
    assert(text::strs(r@) =~= fields());
    r
}

/// A disk the installer found.
pub struct Disk {
    pub name: String,
    pub size: String,
    pub model: String,
}

impl Row for Disk {
    open spec fn row(&self) -> Tree {
        Tree::Object(
            seq![
                ("name"@, Tree::Str(self.name@)),
                ("size"@, Tree::Str(self.size@)),
                ("model"@, Tree::Str(self.model@)),
            ],
        )
    }

    fn to_json(&self) -> (r: Json) {
        let mut o: Vec<(String, Json)> = Vec::new();
        put_last(&mut o, "name", string(self.name.as_str()));
        put_last(&mut o, "size", string(self.size.as_str()));
        put_last(&mut o, "model", string(self.model.as_str()));
        assert(json::entries(o@) =~= self.row()->Object_0);
        Json::Object(o)
    }
}

/// A check of the machine.
pub struct Check {
    pub ok: bool,
    pub detail: String,
}

impl Row for Check {
    open spec fn row(&self) -> Tree {
        Tree::Object(seq![("ok"@, Tree::Bool(self.ok)), ("detail"@, Tree::Str(self.detail@))])
    }

    fn to_json(&self) -> (r: Json) {
        two("ok", Json::Bool(self.ok), "detail", string(self.detail.as_str()))
    }
}

/// What the wizard found out about the machine.
pub struct Hardware {
    pub cpu: Check,
    pub ram: Check,
    pub gpu: Check,
    pub disk: Check,
    pub network_ok: bool,
    pub runtime_ok: bool,
    pub recommends: String,
}

impl Row for Hardware {
    open spec fn row(&self) -> Tree {
        Tree::Object(
            seq![
                ("cpu"@, self.cpu.row()),
                ("ram"@, self.ram.row()),
                ("gpu"@, self.gpu.row()),
                ("disk"@, self.disk.row()),
                ("network_ok"@, Tree::Bool(self.network_ok)),
                ("runtime_ok"@, Tree::Bool(self.runtime_ok)),
                ("recommends"@, Tree::Str(self.recommends@)),
            ],
        )
    }

    fn to_json(&self) -> (r: Json) {
        let mut o: Vec<(String, Json)> = Vec::new();
        put_last(&mut o, "cpu", self.cpu.to_json());
        put_last(&mut o, "ram", self.ram.to_json());
        put_last(&mut o, "gpu", self.gpu.to_json());
        put_last(&mut o, "disk", self.disk.to_json());
        put_last(&mut o, "network_ok", Json::Bool(self.network_ok));
        put_last(&mut o, "runtime_ok", Json::Bool(self.runtime_ok));
        put_last(&mut o, "recommends", string(self.recommends.as_str()));
        assert(json::entries(o@) =~= self.row()->Object_0);
        Json::Object(o)
    }
}

/// What trying the model out came to.
pub struct AiTest {
    pub status: String,
    pub model: String,
    pub latency_ms: i32,
    pub privacy: String,
}

impl Row for AiTest {
    open spec fn row(&self) -> Tree {
        Tree::Object(
            seq![
                ("status"@, Tree::Str(self.status@)),
                ("model"@, Tree::Str(self.model@)),
                ("latency_ms"@, Tree::Num(json::signed(self.latency_ms as i64))),
                ("privacy"@, Tree::Str(self.privacy@)),
            ],
        )
    }

    fn to_json(&self) -> (r: Json) {
        let mut o: Vec<(String, Json)> = Vec::new();
        put_last(&mut o, "status", string(self.status.as_str()));
        put_last(&mut o, "model", string(self.model.as_str()));
        put_last(&mut o, "latency_ms", signed_value(self.latency_ms as i64));
        put_last(&mut o, "privacy", string(self.privacy.as_str()));
        assert(json::entries(o@) =~= self.row()->Object_0);
        Json::Object(o)
    }
}

/// What the wizard holds.
pub struct Wizard {
    pub installer_mode: bool,
    pub phase: i32,
    pub full_name: String,
    pub username: String,
    pub password: String,
    pub password_confirm: String,
    pub hostname: String,
    pub companion: String,
    pub location: String,
    /// The slots for disks, some of which may be empty.
    pub slots: Vec<Disk>,
    pub selected_disk: String,
    pub hardware: Hardware,
    pub ai_test: AiTest,
    pub installing: bool,
    pub progress: i32,
    pub status: String,
    pub error: String,
}

pub open spec fn is_there() -> spec_fn(Disk) -> bool {
    |d: Disk| d.name@.len() > 0
}

/// The disks the installer found.
pub open spec fn found(w: Wizard) -> Seq<Disk> {
    w.slots@.filter(is_there())
}

pub open spec fn disk_names(w: Wizard) -> Seq<Seq<char>> {
    found(w).map_values(|d: Disk| d.name@)
}

fn names_of_disks(w: &Wizard) -> (r: Vec<String>)
    ensures
        text::strs(r@) == disk_names(*w),
{
    let ghost f = is_there();
    let ghost name = |d: Disk| d.name@;
    let mut out: Vec<String> = Vec::new();
    let mut i: usize = 0;
    proof {
        seqs::lemma_filter_none(w.slots@, f);
        assert(text::strs(out@) =~= w.slots@.take(0).filter(f).map_values(name));
    }
    while i < w.slots.len()
        invariant
            i <= w.slots@.len(),
            f == is_there(),
            name == (|d: Disk| d.name@),
            text::strs(out@) == w.slots@.take(i as int).filter(f).map_values(name),
        decreases w.slots@.len() - i,
    {
        let ghost was = text::strs(out@);
        let ghost kept = w.slots@.take(i as int).filter(f);
        proof {
            seqs::lemma_filter_take(w.slots@, f, i as int);
        }
        if !w.slots[i].name.as_str().is_empty() {
            out.push(w.slots[i].name.clone());
            proof {
                assert(text::strs(out@) =~= was.push(w.slots@[i as int].name@));
                assert(kept.push(w.slots@[i as int]).map_values(name) =~= kept.map_values(
                    name,
                ).push(w.slots@[i as int].name@));
            }
        }
        i += 1;
    }
    assert(w.slots@.take(i as int) =~= w.slots@);
    out
}

/// The disks the installer found, as a list rather than numbered slots.
pub fn disks(w: &Wizard) -> (r: Json)
    ensures
        r@ == Tree::Array(json::rows(found(*w))),
{
    let ghost f = is_there();
    let mut out: Vec<Json> = Vec::new();
    let mut i: usize = 0;
    proof {
        seqs::lemma_filter_none(w.slots@, f);
        assert(json::trees(out@) =~= json::rows(w.slots@.take(0).filter(f)));
    }
    while i < w.slots.len()
        invariant
            i <= w.slots@.len(),
            f == is_there(),
            json::trees(out@) == json::rows(w.slots@.take(i as int).filter(f)),
        decreases w.slots@.len() - i,
    {
        let ghost was = out@;
        let ghost kept = w.slots@.take(i as int).filter(f);
        proof {
            seqs::lemma_filter_take(w.slots@, f, i as int);
        }
        if !w.slots[i].name.as_str().is_empty() {
            out.push(w.slots[i].to_json());
            proof {
                assert(out@.drop_last() =~= was);
                assert(json::rows(kept.push(w.slots@[i as int])) =~= json::rows(kept).push(
                    w.slots@[i as int].row(),
                ));
            }
        }
        i += 1;
    }
    assert(w.slots@.take(i as int) =~= w.slots@);
    Json::Array(out)
}

/// Why the machine cannot be installed yet, where it cannot: what a person would learn by trying,
/// in the same order.
pub open spec fn blocked(w: Wizard) -> Option<Seq<char>> {
    if !w.installer_mode {
        Some("this is not the installer \u{2014} the machine is already installed"@)
    } else if text::blank(w.username@) {
        Some("username is required"@)
    } else if w.password@.len() == 0 {
        Some("password is required"@)
    } else if w.password@ != w.password_confirm@ {
        Some("passwords do not match"@)
    } else if text::blank(w.selected_disk@) {
        if found(w).len() == 0 {
            Some("no disk to install to was found"@)
        } else {
            Some("no disk chosen; this machine has: "@ + text::join(disk_names(w), ", "@))
        }
    } else {
        None
    }
}

/// Why the machine cannot be installed yet, or nothing when it can.
pub fn blocked_by(w: &Wizard) -> (r: Option<String>)
    ensures
        text::maybe(r) == blocked(*w),
{
    if !w.installer_mode {
        return Some(
            "this is not the installer \u{2014} the machine is already installed".to_owned(),
        );
    }
    if is_blank(w.username.as_str()) {
        return Some("username is required".to_owned());
    }
    if w.password.as_str().is_empty() {
        return Some("password is required".to_owned());
    }
    if !same(w.password.as_str(), w.password_confirm.as_str()) {
        return Some("passwords do not match".to_owned());
    }
    if is_blank(w.selected_disk.as_str()) {
        let names = names_of_disks(w);
        assert(text::strs(names@).len() == names@.len());
        assert(disk_names(*w).len() == found(*w).len());
        if names.len() == 0 {
            return Some("no disk to install to was found".to_owned());
        }
        let mut out = "no disk chosen; this machine has: ".to_owned();
        out.append(joined(names.as_slice(), ", ").as_str());
        return Some(out);
    }
    None
}

/// What the form holds, with passwords as flags.
pub open spec fn form_tree(w: Wizard) -> Tree {
    Tree::Object(
        seq![
            ("full_name"@, Tree::Str(w.full_name@)),
            ("username"@, Tree::Str(w.username@)),
            ("hostname"@, Tree::Str(w.hostname@)),
            ("companion_name"@, Tree::Str(w.companion@)),
            ("location"@, Tree::Str(w.location@)),
            ("password_set"@, Tree::Bool(w.password@.len() > 0)),
            ("password_confirm_set"@, Tree::Bool(w.password_confirm@.len() > 0)),
            ("passwords_match"@, Tree::Bool(w.password@ == w.password_confirm@)),
        ],
    )
}

fn form(w: &Wizard) -> (r: Json)
    ensures
        r@ == form_tree(*w),
{
    let mut o: Vec<(String, Json)> = Vec::new();
    put_last(&mut o, "full_name", string(w.full_name.as_str()));
    put_last(&mut o, "username", string(w.username.as_str()));
    put_last(&mut o, "hostname", string(w.hostname.as_str()));
    put_last(&mut o, "companion_name", string(w.companion.as_str()));
    put_last(&mut o, "location", string(w.location.as_str()));
    put_last(&mut o, "password_set", Json::Bool(!w.password.as_str().is_empty()));
    put_last(&mut o, "password_confirm_set", Json::Bool(!w.password_confirm.as_str().is_empty()));
    put_last(
        &mut o,
        "passwords_match",
        Json::Bool(same(w.password.as_str(), w.password_confirm.as_str())),
    );
    assert(json::entries(o@) =~= form_tree(*w)->Object_0);
    Json::Object(o)
}

pub open spec fn text_tree(s: Option<Seq<char>>) -> Tree {
    match s {
        Some(t) => Tree::Str(t),
        None => Tree::Null,
    }
}

fn text_json(s: &Option<String>) -> (r: Json)
    ensures
        r@ == text_tree(text::maybe(*s)),
{
    match s {
        Some(t) => string(t.as_str()),
        None => Json::Null,
    }
}

/// What the installer is showing.
pub open spec fn state_tree(w: Wizard) -> Tree {
    Tree::Object(
        seq![
            ("installer_mode"@, Tree::Bool(w.installer_mode)),
            ("step"@, Tree::Str(step_called(w.phase))),
            ("phase"@, Tree::Num(json::signed(w.phase as i64))),
            ("fields"@, form_tree(w)),
            ("disks"@, Tree::Array(json::rows(found(w)))),
            ("selected_disk"@, Tree::Str(w.selected_disk@)),
            ("hardware"@, w.hardware.row()),
            ("ai_test"@, w.ai_test.row()),
            ("installing"@, Tree::Bool(w.installing)),
            ("progress"@, Tree::Num(json::signed(w.progress as i64))),
            ("status"@, Tree::Str(w.status@)),
            ("error"@, Tree::Str(w.error@)),
            ("blocked_by"@, text_tree(blocked(w))),
            ("steps"@, Tree::Array(json::string_trees(control::names(steps())))),
            ("fields_writable"@, Tree::Array(json::string_trees(fields()))),
        ],
    )
}

/// What the installer is showing right now. Passwords travel as flags, never as text.
pub fn state(w: &Wizard) -> (r: Json)
    ensures
        r@ == state_tree(*w),
{
    let mut o: Vec<(String, Json)> = Vec::new();
    put_last(&mut o, "installer_mode", Json::Bool(w.installer_mode));
    put_last(&mut o, "step", string(step_name(w.phase)));
    put_last(&mut o, "phase", signed_value(w.phase as i64));
    put_last(&mut o, "fields", form(w));
    put_last(&mut o, "disks", disks(w));
    put_last(&mut o, "selected_disk", string(w.selected_disk.as_str()));
    put_last(&mut o, "hardware", w.hardware.to_json());
    put_last(&mut o, "ai_test", w.ai_test.to_json());
    put_last(&mut o, "installing", Json::Bool(w.installing));
    put_last(&mut o, "progress", signed_value(w.progress as i64));
    put_last(&mut o, "status", string(w.status.as_str()));
    put_last(&mut o, "error", string(w.error.as_str()));
    put_last(&mut o, "blocked_by", text_json(&blocked_by(w)));
    put_last(&mut o, "steps", strings(names_of(&step_table()).as_slice()));
    put_last(&mut o, "fields_writable", strings(field_names().as_slice()));
    assert(json::entries(o@) =~= state_tree(*w)->Object_0);
    Json::Object(o)
}

/// The line worth reading first while the machine is in the wizard. That it is installed is looked
/// at before that it is being installed.
pub open spec fn headline(w: Wizard) -> Seq<char> {
    let step = step_called(w.phase);
    if !w.installer_mode {
        "Yantrik \u{2014} first-run setup, on the "@ + step + " step"@
    } else if w.phase == 12 {
        "Yantrik installer \u{2014} installed, waiting to reboot"@
    } else if w.installing {
        "Yantrik installer \u{2014} installing, "@ + text::dec_signed(w.progress as int)
            + "% \u{2014} "@ + w.status@
    } else {
        match blocked(w) {
            Some(why) => "Yantrik installer \u{2014} on the "@ + step
                + " step, not ready to install: "@ + why,
            None => "Yantrik installer \u{2014} on the "@ + step + " step, ready to install to "@
                + w.selected_disk@,
        }
    }
}

/// The line worth reading first while the machine is in the wizard.
pub fn summary(w: &Wizard) -> (r: String)
    ensures
        r@ == headline(*w),
{
    let step = step_name(w.phase);
    if !w.installer_mode {
        let mut out = "Yantrik \u{2014} first-run setup, on the ".to_owned();
        out.append(step);
        out.append(" step");
        return out;
    }
    if w.phase == 12 {
        return "Yantrik installer \u{2014} installed, waiting to reboot".to_owned();
    }
    if w.installing {
        let mut out = "Yantrik installer \u{2014} installing, ".to_owned();
        out.append(signed_decimal(w.progress as i64).as_str());
        out.append("% \u{2014} ");
        out.append(w.status.as_str());
        return out;
    }
    let mut out = "Yantrik installer \u{2014} on the ".to_owned();
    out.append(step);
    match blocked_by(w) {
        Some(why) => {
            out.append(" step, not ready to install: ");
            out.append(why.as_str());
        },
        None => {
            out.append(" step, ready to install to ");
            out.append(w.selected_disk.as_str());
        },
    }
    out
}

// ── Actions ─────────────────────────────────────────────────────────

/// What a field is called here, given what the screen calls it.
pub open spec fn field_meant(field: Seq<char>) -> Seq<char> {
    if field == "computer_name"@ || field == "computer"@ {
        "hostname"@
    } else if field == "name"@ {
        "full_name"@
    } else if field == "companion"@ {
        "companion_name"@
    } else if field == "target_disk"@ || field == "target"@ {
        "disk"@
    } else {
        field
    }
}

fn field_of(field: &str) -> (r: String)
    ensures
        r@ == field_meant(field@),
{
    if same(field, "computer_name") || same(field, "computer") {
        "hostname".to_owned()
    } else if same(field, "name") {
        "full_name".to_owned()
    } else if same(field, "companion") {
        "companion_name".to_owned()
    } else if same(field, "target_disk") || same(field, "target") {
        "disk".to_owned()
    } else {
        field.to_owned()
    }
}

/// A text without a prefix, however often it stands there.
pub open spec fn without_prefix(s: Seq<char>, prefix: Seq<char>) -> Seq<char>
    decreases s.len(),
{
    if prefix.len() > 0 && text::at(s, 0, prefix) {
        without_prefix(s.skip(prefix.len() as int), prefix)
    } else {
        s
    }
}

fn strip_prefix(s: &str, prefix: &str) -> (r: String)
    requires
        prefix@.len() > 0,
    ensures
        r@ == without_prefix(s@, prefix@),
{
    let v = chars_of(s);
    let p = chars_of(prefix);
    let whole: usize = v.len();
    let mut i: usize = 0;
    assert(v@.skip(0) =~= v@);
    while stands_at(v.as_slice(), i, p.as_slice())
        invariant
            i <= whole,
            whole == v@.len(),
            v@ == s@,
            p@ == prefix@,
            p@.len() > 0,
            without_prefix(s@, prefix@) == without_prefix(v@.skip(i as int), prefix@),
        decreases v@.len() - i,
    {
        proof {
            let t = v@.skip(i as int);
            assert(t.subrange(0, p@.len() as int) =~= v@.subrange(i as int, i + p@.len()));
            assert(text::at(t, 0, p@));
            assert(t.skip(p@.len() as int) =~= v@.skip(i + p@.len()));
        }
        i = i + p.len();
    }
    proof {
        let t = v@.skip(i as int);
        if text::at(t, 0, p@) {
            assert(t.subrange(0, p@.len() as int) =~= v@.subrange(i as int, i + p@.len()));
        }
    }
    rest(v.as_slice(), i)
}

/// A field to write, and what to write in it.
#[derive(Debug)]
pub struct Write {
    pub field: String,
    pub value: String,
}

pub open spec fn is_field(s: Seq<char>) -> bool {
    fields().contains(s)
}

/// The disk a caller names.
pub open spec fn disk_meant(value: Seq<char>) -> Seq<char> {
    without_prefix(text::trim(value), "/dev/"@)
}

/// Why a field is not written, where it is not: there is no such field, or no such disk.
pub open spec fn not_written(field: Seq<char>, value: Seq<char>, w: Wizard) -> Option<Seq<char>> {
    if !is_field(field) {
        Some("no field `"@ + field + "` in the wizard; it takes: "@ + text::join(fields(), ", "@))
    } else if field == "disk"@ && !disk_names(w).contains(disk_meant(value)) {
        if disk_names(w).len() == 0 {
            Some("the installer found no disks on this machine"@)
        } else {
            Some(
                "no disk `"@ + disk_meant(value) + "` here; it found: "@ + text::join(
                    disk_names(w),
                    ", "@,
                ),
            )
        }
    } else {
        None
    }
}

fn among(list: &Vec<String>, name: &str) -> (r: bool)
    ensures
        r == text::strs(list@).contains(name@),
{
    let ghost all = text::strs(list@);
    let mut i: usize = 0;
    while i < list.len()
        invariant
            i <= list@.len(),
            all == text::strs(list@),
            forall|k: int| 0 <= k < i ==> #[trigger] all[k] != name@,
        decreases list@.len() - i,
    {
        assert(all[i as int] == list@[i as int]@);
        if same(list[i].as_str(), name) {
            return true;
        }
        i += 1;
    }
    false
}

/// Decide which field is written, given its name in small letters. A disk has to be one that the
/// installer found.
pub fn set_field(named: &str, value: &str, w: &Wizard) -> (r: Result<Write, String>)
    ensures
        ({
            let field = field_meant(named@);
            match not_written(field, value@, *w) {
                Some(why) => r matches Err(said) && said@ == why,
                None => r matches Ok(x) && x.field@ == field && x.value@ == if field == "disk"@ {
                    disk_meant(value@)
                } else {
                    value@
                },
            }
        }),
{
    let field = field_of(named);
    let names = field_names();
    if !among(&names, field.as_str()) {
        let mut out = "no field `".to_owned();
        out.append(field.as_str());
        out.append("` in the wizard; it takes: ");
        out.append(joined(names.as_slice(), ", ").as_str());
        return Err(out);
    }
    if same(field.as_str(), "disk") {
        proof {
            reveal_strlit("/dev/");
        }
        let want = strip_prefix(trimmed(value).as_str(), "/dev/");
        let here = names_of_disks(w);
        assert(text::strs(here@).len() == here@.len());
        if !among(&here, want.as_str()) {
            if here.len() == 0 {
                return Err("the installer found no disks on this machine".to_owned());
            }
            let mut out = "no disk `".to_owned();
            out.append(want.as_str());
            out.append("` here; it found: ");
            out.append(joined(here.as_slice(), ", ").as_str());
            return Err(out);
        }
        return Ok(Write { field, value: want });
    }
    Ok(Write { field, value: value.to_owned() })
}

/// Decide which field of the wizard is written.
pub fn installer_set(args: &Json, w: &Wizard) -> (r: Result<Write, String>)
    ensures
        ({
            let field = field_meant(text::small(json::argument(args@, "field"@)));
            let value = json::text_under(args@, "value"@);
            match not_written(field, value, *w) {
                Some(why) => r matches Err(said) && said@ == why,
                None => r matches Ok(x) && x.field@ == field && x.value@ == if field == "disk"@ {
                    disk_meant(value)
                } else {
                    value
                },
            }
        }),
{
    let named = to_small(argument_of(args, "field").as_str());
    let value = text_at(args, "value");
    set_field(named.as_str(), value.as_str(), w)
}

/// What a field comes back as: a password as a flag, never as itself.
pub open spec fn echoed(field: Seq<char>, value: Seq<char>) -> Tree {
    if field == "password"@ || field == "password_confirm"@ {
        Tree::Bool(value.len() > 0)
    } else {
        Tree::Str(value)
    }
}

/// What `installer_set` answers. `value` is what the caller wrote.
pub fn set_answer(field: &str, value: &str, w: &Wizard) -> (r: Json)
    ensures
        r@ == Tree::Object(
            seq![
                ("field"@, Tree::Str(field@)),
                ("value"@, echoed(field@, value@)),
                ("blocked_by"@, text_tree(blocked(*w))),
            ],
        ),
{
    let shown = if same(field, "password") || same(field, "password_confirm") {
        Json::Bool(!value.is_empty())
    } else {
        string(value)
    };
    let mut o: Vec<(String, Json)> = Vec::new();
    put_last(&mut o, "field", string(field));
    put_last(&mut o, "value", shown);
    put_last(&mut o, "blocked_by", text_json(&blocked_by(w)));
    assert(json::entries(o@) =~= seq![
        ("field"@, Tree::Str(field@)),
        ("value"@, echoed(field@, value@)),
        ("blocked_by"@, text_tree(blocked(*w))),
    ]);
    Json::Object(o)
}

/// Decide which step is shown, given its name in small letters.
pub fn step_for(want: &str, installing: bool) -> (r: Result<i32, String>)
    ensures
        match control::looked_up(steps(), want@) {
            None => r matches Err(why) && why@ == control::no_such(
                "no step called `"@,
                want@,
                steps(),
            ),
            Some(phase) => if installing {
                r matches Err(why) && why@
                    == "an install is running; the wizard cannot be moved"@
            } else {
                r == Ok::<i32, String>(phase)
            },
        },
{
    let v = step_table();
    match number_of(&v, want) {
        None => {
            let mut out = "no step called `".to_owned();
            out.append(want);
            out.append("`; there is: ");
            out.append(joined(names_of(&v).as_slice(), ", ").as_str());
            Err(out)
        },
        Some(phase) => {
            if installing {
                Err("an install is running; the wizard cannot be moved".to_owned())
            } else {
                Ok(phase)
            }
        },
    }
}

/// The step a caller names, in small letters.
pub fn step_arg(args: &Json) -> (r: String)
    ensures
        r@ == text::small(json::argument(args@, "step"@)),
{
    to_small(argument_of(args, "step").as_str())
}

/// What `installer_go_to` answers.
pub fn went_to(step: &str) -> (r: Json)
    ensures
        r@ == control::one_field("step"@, Tree::Str(step@)),
{
    one("step", string(step))
}

/// What the installer is started with.
#[derive(Debug)]
pub struct Install {
    pub username: String,
    pub password: String,
    pub full_name: String,
    pub hostname: String,
    pub companion: String,
    pub disk: String,
}

/// Decide whether the machine is installed: never twice at once, and never before the form is
/// complete.
pub fn install(w: &Wizard, companion_default: &str) -> (r: Result<Install, String>)
    ensures
        if w.installing {
            r matches Err(why) && why@ == "an install is already running"@
        } else {
            match blocked(*w) {
                Some(why) => r matches Err(said) && said@ == why,
                None => r matches Ok(i) && i.username@ == w.username@ && i.password@ == w.password@
                    && i.full_name@ == w.full_name@ && i.hostname@ == w.hostname@ && i.companion@
                    == (if w.companion@.len() == 0 {
                    companion_default@
                } else {
                    w.companion@
                }) && i.disk@ == w.selected_disk@,
            }
        },
{
    if w.installing {
        return Err("an install is already running".to_owned());
    }
    if let Some(why) = blocked_by(w) {
        return Err(why);
    }
    let companion = if w.companion.as_str().is_empty() {
        companion_default.to_owned()
    } else {
        w.companion.clone()
    };
    Ok(
        Install {
            username: w.username.clone(),
            password: w.password.clone(),
            full_name: w.full_name.clone(),
            hostname: w.hostname.clone(),
            companion,
            disk: w.selected_disk.clone(),
        },
    )
}

/// What `installer_install` answers.
pub fn installing_answer(disk: &str) -> (r: Json)
    ensures
        r@ == Tree::Object(
            seq![
                ("installing_to"@, Tree::Str(disk@)),
                (
                    "watch"@,
                    Tree::Str(
                        "describe the shell and read installer.progress and installer.status"@,
                    ),
                ),
            ],
        ),
{
    two(
        "installing_to",
        string(disk),
        "watch",
        string("describe the shell and read installer.progress and installer.status"),
    )
}

/// Decide whether the machine reboots: only once it is installed.
pub fn reboot(phase: i32) -> (r: Result<Json, String>)
    ensures
        if phase == 12 {
            r matches Ok(answer) && answer@ == control::one_field("rebooting"@, Tree::Bool(true))
        } else {
            r matches Err(why) && why@
                == "the install has not finished \u{2014} the wizard is on the "@ + step_called(
                phase,
            ) + " step"@
        },
{
    if phase == 12 {
        return Ok(one("rebooting", Json::Bool(true)));
    }
    let mut out = "the install has not finished \u{2014} the wizard is on the ".to_owned();
    out.append(step_name(phase));
    out.append(" step");
    Err(out)
}

// ── Published actions ───────────────────────────────────────────────

pub const ABOUT_INSTALLER_SET_FIELD: &'static str =
    "full_name, username, password, password_confirm, hostname, companion_name, location, disk";

pub const ABOUT_INSTALLER_GO_TO_STEP: &'static str =
    "identity, interests, location, hardware, ai-mode, ai-provider, ai-test, summary";

/// The actions this module publishes on a machine that has an installer.
pub open spec fn published() -> Seq<Listing> {
    Seq::<Listing>::empty().push(
        Listing::new("installer_set"@, "Fill in one field of the first-run wizard, as if typed into it"@)
            .arg(Takes::new("field"@, ParamKind::Text).described(ABOUT_INSTALLER_SET_FIELD@))
            .arg(Takes::new("value"@, ParamKind::Text)),
    ).push(
        Listing::new("installer_go_to"@, "Show a different step of the first-run wizard"@)
            .arg(Takes::new("step"@, ParamKind::Text).described(ABOUT_INSTALLER_GO_TO_STEP@)),
    ).push(
        Listing::new("installer_install"@, "Erase the chosen disk and install Yantrik OS onto it"@).risk("dangerous"@).deferred(),
    ).push(
        Listing::new("installer_reboot"@, "Reboot into the installed system"@).risk("dangerous"@),
    )
}

/// The actions this module publishes: none on a machine that has no installer, where offering to
/// erase a disk would be worse than useless.
pub fn actions(installer_mode: bool) -> (r: Vec<Action>)
    ensures
        surface::shown(r@) == if installer_mode {
            published()
        } else {
            Seq::empty()
        },
{
    let mut out: Vec<Action> = Vec::new();
    assert(surface::shown(out@) =~= Seq::<Listing>::empty());
    if !installer_mode {
        return out;
    }
    add_action(
        &mut out,
        Action::new("installer_set", "Fill in one field of the first-run wizard, as if typed into it")
            .arg(Param::text("field").describe(ABOUT_INSTALLER_SET_FIELD))
            .arg(Param::text("value")),
    );
    add_action(
        &mut out,
        Action::new("installer_go_to", "Show a different step of the first-run wizard")
            .arg(Param::text("step").describe(ABOUT_INSTALLER_GO_TO_STEP)),
    );
    add_action(
        &mut out,
        Action::new("installer_install", "Erase the chosen disk and install Yantrik OS onto it").risk("dangerous").defers(),
    );
    add_action(
        &mut out,
        Action::new("installer_reboot", "Reboot into the installed system").risk("dangerous"),
    );
    out
}

// ── Laws ────────────────────────────────────────────────────────────

/// A password never leaves: what is shown of two forms that differ only in their passwords is the
/// same, as long as the same of them are set and agree.
pub proof fn law_a_password_is_never_shown(w: Wizard, v: Wizard)
    requires
        v == (Wizard { password: v.password, password_confirm: v.password_confirm, ..w }),
        w.password@.len() > 0 <==> v.password@.len() > 0,
        w.password_confirm@.len() > 0 <==> v.password_confirm@.len() > 0,
        w.password@ == w.password_confirm@ <==> v.password@ == v.password_confirm@,
    ensures
        state_tree(w) == state_tree(v),
        headline(w) == headline(v),
        forall|p: Seq<char>, q: Seq<char>|
            p.len() > 0 && q.len() > 0 ==> echoed("password"@, p) == echoed("password"@, q),
{
    assert(state_tree(w)->Object_0 =~= state_tree(v)->Object_0);
}

/// Nothing is erased before the form is complete: an install is started only where nothing stands
/// in its way, on the disk that was chosen.
pub proof fn law_nothing_is_erased_unasked(w: Wizard)
    requires
        blocked(w) is None,
    ensures
        w.installer_mode,
        !text::blank(w.username@),
        w.password@.len() > 0,
        w.password@ == w.password_confirm@,
        !text::blank(w.selected_disk@),
{
}

// ── What the wizard says, exactly ───────────────────────────────────

/// Every phase of the wizard has its name.
pub proof fn law_what_the_steps_are_called(phase: i32)
    ensures
        step_called(phase) == if phase == 0 || phase == 1 {
            "waking"@
        } else if phase == 2 {
            "greeting"@
        } else if phase == 3 {
            "identity"@
        } else if phase == 4 {
            "interests"@
        } else if phase == 5 {
            "location"@
        } else if phase == 6 {
            "hardware"@
        } else if phase == 7 {
            "ai-mode"@
        } else if phase == 8 {
            "ai-provider"@
        } else if phase == 9 {
            "ai-test"@
        } else if phase == 10 {
            "summary"@
        } else if phase == 11 {
            "installing"@
        } else if phase == 12 {
            "installed"@
        } else {
            "unknown"@
        },
{
    let t = steps();
    let f = control::with_number(phase);
    seqs::lemma_first(t, f);
    let i = seqs::first(t, f);
    assert(t.len() == 8);
    assert(t[0].1 == 3 && t[1].1 == 4 && t[2].1 == 5 && t[3].1 == 6 && t[4].1 == 7 && t[5].1 == 8
        && t[6].1 == 9 && t[7].1 == 10);
    if i < t.len() {
        assert(f(t[i]));
    } else {
        assert(!f(t[0]) && !f(t[1]) && !f(t[2]) && !f(t[3]) && !f(t[4]) && !f(t[5]) && !f(t[6])
            && !f(t[7]));
    }
}

/// A form that is complete is not held up: an installer with a name to log in by, a password given
/// twice alike, and a disk. What is missing is said, the first of these.
pub proof fn law_a_complete_form_is_not_held_up(w: Wizard)
    ensures
        blocked(w) is None <==> {
            &&& w.installer_mode
            &&& !text::blank(w.username@)
            &&& w.password@.len() > 0
            &&& w.password@ == w.password_confirm@
            &&& !text::blank(w.selected_disk@)
        },
        w.installer_mode && text::blank(w.username@) ==> blocked(w) == Some(
            "username is required"@,
        ),
        w.installer_mode && !text::blank(w.username@) && w.password@.len() == 0 ==> blocked(w)
            == Some("password is required"@),
        w.installer_mode && !text::blank(w.username@) && w.password@.len() > 0 && w.password@
            != w.password_confirm@ ==> blocked(w) == Some("passwords do not match"@),
{
}

/// The disks that are offered are those that have a name, each by its name.
pub proof fn law_what_disks_are_offered(w: Wizard, name: Seq<char>)
    ensures
        disk_names(w).contains(name) <==> name.len() > 0 && exists|i: int|
            0 <= i < w.slots@.len() && (#[trigger] w.slots@[i]).name@ == name,
{
    let f = is_there();
    seqs::lemma_filter_from(w.slots@, f);
    let all = found(w);
    let names = disk_names(w);
    if names.contains(name) {
        let i = choose|i: int| 0 <= i < names.len() && names[i] == name;
        assert(f(all[i]));
        assert(w.slots@.contains(all[i]));
        let k = choose|k: int| 0 <= k < w.slots@.len() && w.slots@[k] == all[i];
        assert(w.slots@[k].name@ == name);
    }
    if name.len() > 0 && exists|i: int|
        0 <= i < w.slots@.len() && (#[trigger] w.slots@[i]).name@ == name {
        let i = choose|i: int|
            0 <= i < w.slots@.len() && (#[trigger] w.slots@[i]).name@ == name;
        let d = w.slots@[i];
        assert(f(d));
        assert(w.slots@.contains(d));
        assert(all.contains(d));
        let k = choose|k: int| 0 <= k < all.len() && all[k] == d;
        assert(names[k] == name);
    }
}

/// A disk is meant by its name, with the folder of the devices before it or not.
pub proof fn law_a_disk_is_meant_by_its_name(name: Seq<char>)
    requires
        text::neat(name),
        name[0] != '/',
    ensures
        disk_meant(name) == name,
        disk_meant("/dev/"@ + name) == name,
{
    reveal_strlit("/dev/");
    text::lemma_neat(name);
    let p = "/dev/"@;
    let s = p + name;
    assert(s[0] == '/' && s.last() == name.last());
    text::law_what_is_white('/');
    text::lemma_neat(s);
    assert(s.subrange(0, 5) =~= p);
    assert(text::at(s, 0, p));
    assert(s.skip(5) =~= name);
    assert(!text::at(name, 0, p)) by {
        if text::at(name, 0, p) {
            assert(name.subrange(0, 5)[0] == name[0]);
        }
    }
    assert(without_prefix(name, p) == name);
    assert(without_prefix(s, p) == without_prefix(name, p));
}

/// A field can be written where the wizard has it, and the disk only to one that was found.
pub proof fn law_what_can_be_written(field: Seq<char>, value: Seq<char>, w: Wizard)
    ensures
        not_written(field, value, w) is None <==> {
            &&& exists|i: int| 0 <= i < fields().len() && #[trigger] fields()[i] == field
            &&& field == "disk"@ ==> disk_names(w).contains(disk_meant(value))
        },
{
}

/// The fields of the wizard go by these names, and some by another that a person might say.
pub proof fn law_what_the_fields_are_called()
    ensures
        fields() == seq![
            "full_name"@,
            "username"@,
            "password"@,
            "password_confirm"@,
            "hostname"@,
            "companion_name"@,
            "location"@,
            "disk"@,
        ],
        field_meant("computer_name"@) == "hostname"@,
        field_meant("computer"@) == "hostname"@,
        field_meant("name"@) == "full_name"@,
        field_meant("companion"@) == "companion_name"@,
        field_meant("target_disk"@) == "disk"@,
        field_meant("target"@) == "disk"@,
{
    reveal_strlit("computer_name");
    reveal_strlit("computer");
    reveal_strlit("name");
    reveal_strlit("companion");
    reveal_strlit("target_disk");
    reveal_strlit("target");
    assert("computer_name"@.len() == 13 && "computer"@.len() == 8 && "name"@.len() == 4
        && "companion"@.len() == 9 && "target_disk"@.len() == 11 && "target"@.len() == 6);
}

/// Whatever is written is read back as it is, a password aside, of which only whether there is one
/// is told.
pub proof fn law_what_is_written_is_echoed(field: Seq<char>, value: Seq<char>)
    ensures
        field != "password"@ && field != "password_confirm"@ ==> echoed(field, value) == Tree::Str(
            value,
        ),
        echoed("password"@, value) == Tree::Bool(value.len() > 0),
        echoed("password_confirm"@, value) == Tree::Bool(value.len() > 0),
{
}

/// Only what cannot be taken back is graded dangerous, and what erases a disk is.
pub proof fn law_how_the_installers_actions_are_graded()
    ensures
        published().len() == 4,
        published()[0].name == "installer_set"@ && published()[0].grade == "standard"@,
        published()[1].name == "installer_go_to"@ && published()[1].grade == "standard"@,
        published()[2].name == "installer_install"@ && published()[2].grade == "dangerous"@,
        published()[3].name == "installer_reboot"@ && published()[3].grade == "dangerous"@,
{
}

/// A field is written under the name it has in the wizard, with the value as it is typed; a disk by
/// its bare name.
pub proof fn law_a_field_is_written(named: &str, value: &str, w: Wizard, r: Result<Write, String>)
    requires
        call_ensures(set_field, (named, value, &w), r),
    ensures
        r is Ok <==> not_written(field_meant(named@), value@, w) is None,
        r matches Ok(x) ==> {
            &&& x.field@ == field_meant(named@)
            &&& x.field@ != "disk"@ ==> x.value@ == value@
            &&& x.field@ == "disk"@ ==> x.value@ == disk_meant(value@) && disk_names(w).contains(
                x.value@,
            )
        },
{
}

/// A machine is installed where the form is complete and nothing is being installed: with what the
/// form says, on the disk that was chosen.
pub proof fn law_what_is_installed(w: Wizard, companion_default: &str, r: Result<Install, String>)
    requires
        call_ensures(install, (&w, companion_default), r),
    ensures
        r is Ok <==> !w.installing && blocked(w) is None,
        r matches Ok(i) ==> {
            &&& i.disk@ == w.selected_disk@
            &&& i.username@ == w.username@ && i.password@ == w.password@
            &&& i.full_name@ == w.full_name@ && i.hostname@ == w.hostname@
            &&& w.companion@.len() > 0 ==> i.companion@ == w.companion@
            &&& w.companion@.len() == 0 ==> i.companion@ == companion_default@
        },
{
}

/// A machine reboots once it is installed and not before, and the wizard is not moved while it
/// installs.
pub proof fn law_when_the_wizard_moves(
    phase: i32,
    want: &str,
    installing: bool,
    i: int,
    rebooted: Result<Json, String>,
    moved: Result<i32, String>,
)
    requires
        call_ensures(reboot, (phase,), rebooted),
        call_ensures(step_for, (want, installing), moved),
    ensures
        rebooted is Ok <==> phase == 12,
        installing ==> moved is Err,
        !installing && 0 <= i < steps().len() && want@ == steps()[i].0 && (forall|j: int|
            0 <= j < i ==> (#[trigger] steps()[j]).0 != want@) ==> moved == Ok::<i32, String>(
            steps()[i].1,
        ),
{
    if 0 <= i < steps().len() && want@ == steps()[i].0 && forall|j: int|
        0 <= j < i ==> (#[trigger] steps()[j]).0 != want@ {
        seqs::lemma_first_is(steps(), control::with_name(want@), i);
    }
}

/// The form is told as it is filled in, but for the passwords: of those, only whether they are there
/// and whether they are the same.
pub proof fn law_the_form_tells_no_password(w: Wizard)
    ensures
        ({
            let e = form_tree(w)->Object_0;
            &&& e.len() == 8
            &&& e[0] == ("full_name"@, Tree::Str(w.full_name@))
            &&& e[1] == ("username"@, Tree::Str(w.username@))
            &&& e[2] == ("hostname"@, Tree::Str(w.hostname@))
            &&& e[3] == ("companion_name"@, Tree::Str(w.companion@))
            &&& e[4] == ("location"@, Tree::Str(w.location@))
            &&& e[5] == ("password_set"@, Tree::Bool(w.password@.len() > 0))
            &&& e[6] == ("password_confirm_set"@, Tree::Bool(w.password_confirm@.len() > 0))
            &&& e[7] == ("passwords_match"@, Tree::Bool(w.password@ == w.password_confirm@))
        }),
{
}

/// A field that is written is told back, but a password only by whether there is one, and with it
/// what still stands in the way.
pub proof fn law_what_is_told_of_a_field(field: &str, value: &str, w: Wizard, r: Json)
    requires
        call_ensures(set_answer, (field, value, &w), r),
    ensures
        r@->Object_0[0] == ("field"@, Tree::Str(field@)),
        field@ == "password"@ || field@ == "password_confirm"@ ==> r@->Object_0[1] == (
            "value"@,
            Tree::Bool(value@.len() > 0),
        ),
        field@ != "password"@ && field@ != "password_confirm"@ ==> r@->Object_0[1] == (
            "value"@,
            Tree::Str(value@),
        ),
        blocked(w) is None <==> r@->Object_0[2] == ("blocked_by"@, Tree::Null),
        blocked(w) matches Some(why) ==> r@->Object_0[2] == ("blocked_by"@, Tree::Str(why)),
{
}

/// A form without a disk says which disks there are, and that there are none only where there are
/// none.
pub proof fn law_which_disks_are_told(w: Wizard, value: Seq<char>)
    requires
        w.installer_mode,
        !text::blank(w.username@),
        w.password@.len() > 0,
        w.password@ == w.password_confirm@,
        text::blank(w.selected_disk@),
        !disk_names(w).contains(disk_meant(value)),
        fields().contains("disk"@),
    ensures
        disk_names(w).len() == 0 <==> blocked(w) == Some("no disk to install to was found"@),
        disk_names(w).len() > 0 ==> blocked(w) == Some(
            "no disk chosen; this machine has: "@ + text::join(disk_names(w), ", "@),
        ),
        disk_names(w).len() == 0 <==> not_written("disk"@, value, w) == Some(
            "the installer found no disks on this machine"@,
        ),
        disk_names(w).len() > 0 ==> not_written("disk"@, value, w) == Some(
            "no disk `"@ + disk_meant(value) + "` here; it found: "@ + text::join(
                disk_names(w),
                ", "@,
            ),
        ),
{
    reveal_strlit("no disk to install to was found");
    reveal_strlit("no disk chosen; this machine has: ");
    reveal_strlit("the installer found no disks on this machine");
    reveal_strlit("no disk `");
    let chosen = "no disk chosen; this machine has: "@ + text::join(disk_names(w), ", "@);
    assert(chosen[8] == 'c' && "no disk to install to was found"@[8] == 't');
    let here = "no disk `"@ + disk_meant(value) + "` here; it found: "@ + text::join(
        disk_names(w),
        ", "@,
    );
    assert(here[0] == 'n' && "the installer found no disks on this machine"@[0] == 't');
}

} // verus!
