//! Asking the person: what a caller on the socket may ask for, and what the person is shown.
//!
//! None of the actions here decides anything. Raising a request puts a question on screen, polling
//! reads an answer somebody else gave, and consuming spends a grant that already exists. Granting
//! is a button.
use crate::approvals;
use crate::approvals::{may_offer_session_rule, unrecoverable, Status, Store, REQUEST_TTL};
use crate::caller_identity;
use crate::caller_identity::{mismatch, CallerIdentity, Mind};
use crate::clock::SECOND;
use crate::json;
use crate::json::{
    array_of, no_entries, number, parse_or_why, put_last, render, signed_value, string, strings, text_at, Json,
    Row, Tree,
};
use crate::mind_mode;
use crate::mind_mode::{
    chip_label, lower_from_socket, recent, rules_summary, AuditEntry, Bypass, Decision, Mode,
    Modes, AUDIT_PUBLISHED,
};
use crate::seqs;
use crate::text;
use crate::text::{
    chars_of, clip, decimal, is_blank, joined, lines_of, lowered, next_at, rest, same, to_small, trimmed,
};
use crate::surface;
use crate::surface::{add_action, Action, Listing, Param, ParamKind, Takes};
use vstd::prelude::*;

verus! {

/// How much of "you said this, the app says that" fits on one row of a card.
pub const NOTE_CHARS: usize = 62;

// ── Arguments as they actually arrive ───────────────────────────────

/// One argument as text, whatever shape it arrived in.
pub open spec fn words_for(t: Option<Tree>) -> Seq<char> {
    match t {
        None => Seq::empty(),
        Some(Tree::Null) => Seq::empty(),
        Some(Tree::Str(s)) => text::trim(s),
        Some(other) => json::compact(json::tidy(other)),
    }
}

/// The argument under a key, as text.
pub open spec fn given(args: Tree, key: Seq<char>) -> Seq<char> {
    words_for(json::field(args, key))
}

/// One argument as text, whatever shape the transport left it in: a number or a flag is written
/// out, because the caller meant the text.
pub fn text_of(value: Option<&Json>) -> (r: String)
    ensures
        r@ == words_for(
            match value {
                Some(v) => Some(v@),
                None => None,
            },
        ),
{
    match value {
        None => String::new(),
        Some(Json::Null) => String::new(),
        Some(Json::Str(s)) => trimmed(s.as_str()),
        Some(other) => render(other),
    }
}

fn given_text(args: &Json, key: &str) -> (r: String)
    ensures
        r@ == given(args@, key@),
{
    text_of(args.get(key))
}

pub open spec fn missing(key: Seq<char>) -> Seq<char> {
    "`"@ + key + "` is required and was empty"@
}

/// An argument that has to be there.
pub fn required(args: &Json, key: &str) -> (r: Result<String, String>)
    ensures
        match r {
            Ok(s) => s@ == given(args@, key@) && s@.len() > 0,
            Err(why) => given(args@, key@).len() == 0 && why@ == missing(key@),
        },
{
    let value = given_text(args, key);
    if value.as_str().is_empty() {
        let mut out = "`".to_owned();
        out.append(key);
        out.append("` is required and was empty");
        return Err(out);
    }
    Ok(value)
}

/// What kind of value this is.
pub open spec fn kind_word(t: Tree) -> Seq<char> {
    match t {
        Tree::Null => "null"@,
        Tree::Bool(_) => "a boolean"@,
        Tree::Num(_) => "a number"@,
        Tree::Str(_) => "a string"@,
        Tree::Array(_) => "an array"@,
        Tree::Object(_) => "an object"@,
    }
}

/// What kind of value this is.
pub fn kind_of(value: &Json) -> (r: &'static str)
    ensures
        r@ == kind_word(value@),
{
    match value {
        Json::Null => "null",
        Json::Bool(_) => "a boolean",
        Json::Num(_) => "a number",
        Json::Str(_) => "a string",
        Json::Array(_) => "an array",
        Json::Object(_) => "an object",
    }
}

/// The arguments a grant will be bound to: an object, or the text of one.
pub open spec fn bound_args(raw: Option<Tree>) -> Result<Tree, Seq<char>> {
    match raw {
        None => Ok(json::nothing()),
        Some(Tree::Null) => Ok(json::nothing()),
        Some(Tree::Object(e)) => Ok(Tree::Object(e)),
        Some(Tree::Str(s)) => if text::blank(s) {
            Ok(json::nothing())
        } else {
            of_text(json::parsed(text::trim(s)))
        },
        Some(other) => Err(
            "`args_json` arrived as "@ + kind_word(other) + ", not an object or a JSON string."@,
        ),
    }
}

/// The arguments a text spells, given what reading it came to.
pub open spec fn of_text(parsed: Result<Tree, Seq<char>>) -> Result<Tree, Seq<char>> {
    match parsed {
        Err(why) => Err(
            "`args_json` is not JSON: "@ + why
                + ". Send the action's arguments as an object, e.g. {\"id\": \"evt-3\"}."@,
        ),
        Ok(Tree::Object(e)) => Ok(Tree::Object(e)),
        Ok(other) => Err(
            "`args_json` parsed as "@ + kind_word(other)
                + ", not an object. The grant is bound to the action's named arguments, so it has to be an object."@,
        ),
    }
}

/// The arguments a text spells, given what reading it came to.
pub fn args_of_text(parsed: Result<Json, String>) -> (r: Result<Json, String>)
    ensures
        json::outcome(r) == of_text(json::outcome(parsed)),
{
    match parsed {
        Err(why) => {
            let mut out = "`args_json` is not JSON: ".to_owned();
            out.append(why.as_str());
            out.append(". Send the action's arguments as an object, e.g. {\"id\": \"evt-3\"}.");
            Err(out)
        },
        Ok(Json::Object(e)) => Ok(Json::Object(e)),
        Ok(other) => {
            let mut out = "`args_json` parsed as ".to_owned();
            out.append(kind_of(&other));
            out.append(
                ", not an object. The grant is bound to the action's named arguments, so it has to be an object.",
            );
            Err(out)
        },
    }
}

/// The arguments a grant will be bound to, in either shape they can arrive in.
pub fn args_value(raw: Option<&Json>) -> (r: Result<Json, String>)
    ensures
        json::outcome(r) == bound_args(
            match raw {
                Some(v) => Some(v@),
                None => None,
            },
        ),
{
    let value = match raw {
        Some(v) => v,
        None => {
            return Ok(no_entries());
        },
    };
    match value {
        Json::Null => Ok(no_entries()),
        Json::Object(_) => Ok(value.copy()),
        Json::Str(s) => {
            let t = trimmed(s.as_str());
            if t.as_str().is_empty() {
                return Ok(no_entries());
            }
            args_of_text(parse_or_why(t.as_str()))
        },
        _ => {
            let mut out = "`args_json` arrived as ".to_owned();
            out.append(kind_of(value));
            out.append(", not an object or a JSON string.");
            Err(out)
        },
    }
}

// ── The grade, which the caller also declares ───────────────────────

/// What the card owes the person where the declared grade is not the published one.
pub open spec fn note(claimed: Seq<char>, published: Seq<char>) -> Seq<char> {
    let c = text::trim(claimed);
    if text::lower(c) == text::lower(published) {
        Seq::empty()
    } else {
        text::clipped(
            "Caller said `"@ + c + "`; the app publishes `"@ + published + "`."@,
            NOTE_CHARS as nat,
        )
    }
}

/// The sentence the card owes the person when the declared grade is not the published one.
pub fn grade_note(claimed: &str, published: &str) -> (r: String)
    ensures
        r@ == note(claimed@, published@),
{
    let c = trimmed(claimed);
    if same(lowered(c.as_str()).as_str(), lowered(published).as_str()) {
        let none = String::new();
        assert(none@ =~= Seq::<char>::empty());
        return none;
    }
    let mut out = "Caller said `".to_owned();
    out.append(c.as_str());
    out.append("`; the app publishes `");
    out.append(published);
    out.append("`.");
    clip(out.as_str(), NOTE_CHARS)
}

/// What asking an app about one of its actions came to.
pub enum Inquiry {
    /// There is no app of that name here.
    NoApp,
    /// The shell itself, and what it publishes the action as, where it does.
    Shell(Option<String>),
    /// The app is not running.
    Down,
    /// The app did not answer, and why.
    NoAnswer(String),
    /// What the app said of itself.
    Described(Json),
}

/// Whether a published action is the one of this name.
pub open spec fn named(action: Seq<char>) -> spec_fn(Tree) -> bool {
    |t: Tree| json::field(t, "name"@) == Some(Tree::Str(action))
}

/// What an app's own description says of an action: its grade, and what it is for.
pub open spec fn described(reply: Tree, action: Seq<char>) -> Option<(Seq<char>, Seq<char>)> {
    match json::field(reply, "actions"@) {
        Some(Tree::Array(list)) => {
            let i = seqs::first(list, named(action));
            if i < list.len() {
                match json::field(list[i], "permission"@) {
                    Some(Tree::Str(grade)) => Some(
                        (grade, json::text_under(list[i], "description"@)),
                    ),
                    _ => None,
                }
            } else {
                None
            }
        },
        _ => None,
    }
}

/// What an app itself says one of its actions is graded, and what it is for, or why this machine
/// could not find out.
pub open spec fn detail(app: Seq<char>, action: Seq<char>, inquiry: Inquiry) -> Result<
    (Seq<char>, Seq<char>),
    Seq<char>,
> {
    match inquiry {
        Inquiry::NoApp => Err(
            "there is no app called `"@ + app
                + "` on this desktop, so nothing was put in front of the person. `os_apps` lists the names this machine uses."@,
        ),
        Inquiry::Shell(Some(grade)) => Ok((grade@, Seq::empty())),
        Inquiry::Shell(None) => Err(
            "`shell` publishes no action called `"@ + action
                + "`, so there is nothing to ask about. Read `os_describe shell` for what it does publish."@,
        ),
        Inquiry::Down => Err(
            "`"@ + app + "` is not running, so this machine could not check what `"@ + action
                + "` is graded and did not put a card in front of the person. Open it first."@,
        ),
        Inquiry::NoAnswer(why) => Err(
            "`"@ + app + "` did not say what `"@ + action + "` is graded ("@ + why@
                + "), so nothing was put in front of the person. A grade nobody published is not a grade this machine will act on."@,
        ),
        Inquiry::Described(reply) => match described(reply@, action) {
            Some(found) => Ok(found),
            None => Err(
                "`"@ + app + "` publishes no action called `"@ + action
                    + "`, so there is nothing to ask about and nothing was put in front of the person."@,
            ),
        },
    }
}

fn described_action(reply: &Json, action: &str) -> (r: Option<(String, String)>)
    ensures
        match r {
            Some((grade, purpose)) => described(reply@, action@) == Some((grade@, purpose@)),
            None => described(reply@, action@) is None,
        },
{
    match reply.get("actions") {
        Some(Json::Array(list)) => {
            let ghost trees = json::trees(list@);
            let ghost f = named(action@);
            proof {
                json::lemma_trees(list@);
            }
            let mut i: usize = 0;
            while i < list.len()
                invariant
                    i <= list@.len(),
                    trees == json::trees(list@),
                    trees.len() == list@.len(),
                    forall|k: int| 0 <= k < list@.len() ==> #[trigger] trees[k] == list@[k]@,
                    json::field(reply@, "actions"@) == Some(Tree::Array(trees)),
                    f == named(action@),
                    seqs::first(trees, f) == seqs::first_from(trees, f, i as int),
                decreases list@.len() - i,
            {
                assert(trees[i as int] == list@[i as int]@);
                let is_it = match list[i].get("name") {
                    Some(Json::Str(s)) => same(s.as_str(), action),
                    _ => false,
                };
                if is_it {
                    return match list[i].get("permission") {
                        Some(Json::Str(grade)) => Some(
                            (grade.clone(), text_at(&list[i], "description")),
                        ),
                        _ => None,
                    };
                }
                i += 1;
            }
            None
        },
        _ => None,
    }
}

/// What the target app itself says one of its actions is graded, and what it is for. Refuses
/// rather than guesses.
pub fn published_detail(app: &str, action: &str, inquiry: &Inquiry) -> (r: Result<
    (String, String),
    String,
>)
    ensures
        match detail(app@, action@, *inquiry) {
            Ok((grade, purpose)) => r matches Ok(d) && d.0@ == grade && d.1@ == purpose,
            Err(why) => r matches Err(said) && said@ == why,
        },
{
    match inquiry {
        Inquiry::NoApp => {
            let mut out = "there is no app called `".to_owned();
            out.append(app);
            out.append(
                "` on this desktop, so nothing was put in front of the person. `os_apps` lists the names this machine uses.",
            );
            Err(out)
        },
        Inquiry::Shell(Some(grade)) => {
            let none = String::new();
            assert(none@ =~= Seq::<char>::empty());
            Ok((grade.clone(), none))
        },
        Inquiry::Shell(None) => {
            let mut out = "`shell` publishes no action called `".to_owned();
            out.append(action);
            out.append(
                "`, so there is nothing to ask about. Read `os_describe shell` for what it does publish.",
            );
            Err(out)
        },
        Inquiry::Down => {
            let mut out = "`".to_owned();
            out.append(app);
            out.append("` is not running, so this machine could not check what `");
            out.append(action);
            out.append(
                "` is graded and did not put a card in front of the person. Open it first.",
            );
            Err(out)
        },
        Inquiry::NoAnswer(why) => {
            let mut out = "`".to_owned();
            out.append(app);
            out.append("` did not say what `");
            out.append(action);
            out.append("` is graded (");
            out.append(why.as_str());
            out.append(
                "), so nothing was put in front of the person. A grade nobody published is not a grade this machine will act on.",
            );
            Err(out)
        },
        Inquiry::Described(reply) => match described_action(reply, action) {
            Some(found) => Ok(found),
            None => {
                let mut out = "`".to_owned();
                out.append(app);
                out.append("` publishes no action called `");
                out.append(action);
                out.append(
                    "`, so there is nothing to ask about and nothing was put in front of the person.",
                );
                Err(out)
            },
        },
    }
}

/// What a request is settled on: the published grade, the note the card owes the person, and the
/// app's own sentence.
#[derive(Debug)]
pub struct Settled {
    pub grade: String,
    pub note: String,
    pub purpose: String,
}

/// The grade to act on, the note the card owes the person if it is not what was declared, and the
/// app's own sentence about the action.
pub fn settle_grade(app: &str, action: &str, claimed: &str, inquiry: &Inquiry) -> (r: Result<
    Settled,
    String,
>)
    ensures
        match detail(app@, action@, *inquiry) {
            Ok((grade, purpose)) => r matches Ok(s) && s.grade@ == grade && s.note@ == note(
                claimed@,
                grade,
            ) && s.purpose@ == purpose,
            Err(why) => r matches Err(said) && said@ == why,
        },
{
    match published_detail(app, action, inquiry) {
        Ok((grade, purpose)) => {
            let note = grade_note(claimed, grade.as_str());
            Ok(Settled { grade, note, purpose })
        },
        Err(why) => Err(why),
    }
}

/// The surface an app answers on, given its name in small letters, where the launcher routes it,
/// and which surfaces are running.
pub open spec fn surface(
    key: Seq<char>,
    routed: Option<Seq<char>>,
    running: Seq<Seq<char>>,
) -> Option<Seq<char>> {
    if key.len() == 0 {
        None
    } else if key == "shell"@ || key == "yantrik"@ {
        Some("shell"@)
    } else if routed is Some {
        routed
    } else if running.contains(key) {
        Some(key)
    } else {
        None
    }
}

/// The surface an app answers on, given its name in small letters.
pub fn surface_of_key(key: &str, routed: Option<String>, running: &[String]) -> (r: Option<String>)
    ensures
        text::maybe(r) == surface(key@, text::maybe(routed), text::strs(running@)),
{
    if key.is_empty() {
        return None;
    }
    if same(key, "shell") || same(key, "yantrik") {
        return Some("shell".to_owned());
    }
    if routed.is_some() {
        return routed;
    }
    let ghost all = text::strs(running@);
    let mut i: usize = 0;
    while i < running.len()
        invariant
            i <= running@.len(),
            all == text::strs(running@),
            routed is None,
            key@.len() > 0,
            key@ != "shell"@ && key@ != "yantrik"@,
            forall|k: int| 0 <= k < i ==> #[trigger] all[k] != key@,
        decreases running@.len() - i,
    {
        assert(all[i as int] == running@[i as int]@);
        if same(running[i].as_str(), key) {
            assert(all.contains(key@));
            return Some(key.to_owned());
        }
        i += 1;
    }
    None
}

/// What an app's name is looked up by.
pub fn app_key(app: &str) -> (r: String)
    ensures
        r@ == text::small(text::trim(app@)),
{
    to_small(trimmed(app).as_str())
}

/// The surface an app answers on. `routed` is where the launcher routes its key.
pub fn surface_for(app: &str, routed: Option<String>, running: &[String]) -> (r: Option<String>)
    ensures
        text::maybe(r) == surface(text::small(text::trim(app@)), text::maybe(routed), text::strs(running@)),
{
    surface_of_key(app_key(app).as_str(), routed, running)
}

// ── The claim, and the fact beside it ───────────────────────────────

/// What this machine established about whoever is asking.
pub struct Verified {
    pub line: String,
    pub exe: String,
    pub pid: i32,
    pub attached_mind: String,
    /// What does not agree with what the caller said, one sentence each.
    pub discrepancies: Vec<String>,
}

impl Default for Verified {
    fn default() -> (r: Verified)
        ensures
            r.line@.len() == 0,
            r.exe@.len() == 0,
            r.pid == 0,
            r.attached_mind@.len() == 0,
            r.discrepancies@.len() == 0,
    {
        Verified {
            line: String::new(),
            exe: String::new(),
            pid: 0,
            attached_mind: String::new(),
            discrepancies: Vec::new(),
        }
    }
}

impl Row for Verified {
    open spec fn row(&self) -> Tree {
        Tree::Object(
            seq![
                ("line"@, Tree::Str(self.line@)),
                ("exe"@, Tree::Str(self.exe@)),
                ("pid"@, Tree::Num(json::signed(self.pid as i64))),
                ("attached_mind"@, Tree::Str(self.attached_mind@)),
                ("discrepancies"@, Tree::Array(json::string_trees(text::strs(self.discrepancies@)))),
            ],
        )
    }

    fn to_json(&self) -> (r: Json) {
        let mut o: Vec<(String, Json)> = Vec::new();
        put_last(&mut o, "line", string(self.line.as_str()));
        put_last(&mut o, "exe", string(self.exe.as_str()));
        put_last(&mut o, "pid", signed_value(self.pid as i64));
        put_last(&mut o, "attached_mind", string(self.attached_mind.as_str()));
        put_last(&mut o, "discrepancies", strings(self.discrepancies.as_slice()));
        assert(json::entries(o@) =~= self.row()->Object_0);
        Json::Object(o)
    }
}

/// A sentence where there is one.
pub open spec fn at_most_one(s: Seq<char>) -> Seq<Seq<char>> {
    if s.len() == 0 {
        Seq::empty()
    } else {
        seq![s]
    }
}

/// What this machine can establish about whoever is on the socket. The name they gave decides only
/// whether the two disagree.
pub fn who_is_asking(claimed: &str, identity: Option<&CallerIdentity>, minds: &[Mind]) -> (r:
    Verified)
    ensures
        match identity {
            None => r.line@ == "could not be identified"@ && r.exe@.len() == 0 && r.pid == 0
                && r.attached_mind@.len() == 0 && r.discrepancies@.len() == 0,
            Some(id) => {
                &&& r.line@ == caller_identity::line_of(id@)
                &&& r.exe@ == match caller_identity::subject(id@) {
                    Some(f) => f.exe,
                    None => Seq::empty(),
                }
                &&& r.pid == match caller_identity::subject(id@) {
                    Some(f) => f.pid,
                    None => 0,
                }
                &&& r.attached_mind@ == match id@.mind {
                    Some(m) => m,
                    None => Seq::empty(),
                }
                &&& text::strs(r.discrepancies@) == at_most_one(
                    caller_identity::borrowed(claimed@, id@, minds@),
                )
            },
        },
{
    match identity {
        None => {
            let mut v = Verified::default();
            v.line = "could not be identified".to_owned();
            v
        },
        Some(id) => {
            let mut discrepancies: Vec<String> = Vec::new();
            let said = mismatch(claimed, id, minds);
            if !said.as_str().is_empty() {
                discrepancies.push(said);
            }
            assert(text::strs(discrepancies@) =~= at_most_one(
                caller_identity::borrowed(claimed@, id@, minds@),
            ));
            let attached_mind = match &id.attached_mind {
                Some(m) => m.clone(),
                None => {
                    let none = String::new();
                    assert(none@ =~= Seq::<char>::empty());
                    none
                },
            };
            Verified { line: id.line(), exe: id.exe(), pid: id.pid(), attached_mind, discrepancies }
        },
    }
}

// ── Asking ──────────────────────────────────────────────────────────

/// What a caller asks to be allowed.
#[derive(Debug)]
pub struct Wanted {
    pub app: String,
    pub action: String,
    /// The grade they declare.
    pub grade: String,
    pub args: Json,
    pub purpose: String,
    pub requester: String,
}

/// What was said, or what stands for nothing having been said.
pub open spec fn or_else(said: Seq<char>, other: Seq<char>) -> Seq<char> {
    if said.len() == 0 {
        other
    } else {
        said
    }
}

fn said_or(args: &Json, key: &str, other: &str) -> (r: String)
    ensures
        r@ == or_else(given(args@, key@), other@),
{
    let said = given_text(args, key);
    if said.as_str().is_empty() {
        other.to_owned()
    } else {
        said
    }
}

/// The first thing that is wrong with a request for approval, where anything is.
pub open spec fn request_trouble(args: Tree) -> Option<Seq<char>> {
    if given(args, "app"@).len() == 0 {
        Some(missing("app"@))
    } else if given(args, "action"@).len() == 0 {
        Some(missing("action"@))
    } else if given(args, "grade"@).len() == 0 {
        Some(missing("grade"@))
    } else {
        match bound_args(json::field(args, "args_json"@)) {
            Err(why) => Some(why),
            Ok(_) => None,
        }
    }
}

/// What a caller asks to be allowed.
pub fn wanted(args: &Json) -> (r: Result<Wanted, String>)
    ensures
        match request_trouble(args@) {
            Some(why) => r matches Err(said) && said@ == why,
            None => r matches Ok(w) && w.app@ == given(args@, "app"@) && w.action@ == given(
                args@,
                "action"@,
            ) && w.grade@ == given(args@, "grade"@) && bound_args(
                json::field(args@, "args_json"@),
            ) == Ok::<Tree, Seq<char>>(w.args@) && w.purpose@ == given(args@, "purpose"@)
                && w.requester@ == or_else(given(args@, "requester"@), "an unnamed caller"@),
        },
{
    let app = match required(args, "app") {
        Ok(s) => s,
        Err(why) => {
            return Err(why);
        },
    };
    let action = match required(args, "action") {
        Ok(s) => s,
        Err(why) => {
            return Err(why);
        },
    };
    let grade = match required(args, "grade") {
        Ok(s) => s,
        Err(why) => {
            return Err(why);
        },
    };
    let bound = match args_value(args.get("args_json")) {
        Ok(v) => v,
        Err(why) => {
            return Err(why);
        },
    };
    Ok(
        Wanted {
            app,
            action,
            grade,
            args: bound,
            purpose: given_text(args, "purpose"),
            requester: said_or(args, "requester", "an unnamed caller"),
        },
    )
}

/// What the shell does about a request.
pub enum Response {
    Refused(String),
    /// Nobody needs to be asked.
    NotNeeded(Json),
    /// A card goes up, with the app's own sentence where the caller gave none.
    Ask { purpose: String },
}

pub open spec fn run_it() -> Seq<char> {
    "nobody was asked and nobody needs to be: this desktop's current mode runs this without a card. Run the action. If it ran unasked, call record_unasked_action afterwards."@
}

/// What is answered where nobody needs to be asked.
pub open spec fn not_needed(
    app: Seq<char>,
    action: Seq<char>,
    grade: Seq<char>,
    mode: Mode,
) -> Tree {
    Tree::Object(
        seq![
            ("status"@, Tree::Str("not_needed"@)),
            ("app"@, Tree::Str(app)),
            ("action"@, Tree::Str(action)),
            ("grade"@, Tree::Str(grade)),
            ("mode"@, Tree::Str(mind_mode::mode_word(mode))),
            ("next"@, Tree::Str(run_it())),
        ],
    )
}

/// Whether either sentence says the action cannot be taken back.
pub open spec fn lasting(published: Seq<char>, declared: Seq<char>) -> bool {
    approvals::says_final(published) || approvals::says_final(declared)
}

/// Everything the decision table says about a request: it is refused in the table's own words, or
/// answered plainly where there is nothing to ask, and put to the person only where the table says
/// to ask. The grade that counts is the published one.
pub fn respond(
    w: &Wanted,
    grade: &str,
    published_purpose: &str,
    modes: &Modes,
    ceiling: &str,
    now: u64,
) -> (r: Response)
    ensures
        match mind_mode::verdict(
            modes@,
            grade@,
            w.app@,
            w.action@,
            lasting(published_purpose@, w.purpose@),
            ceiling@,
            now as int,
        ) {
            mind_mode::Verdict::Refuse { why } => r matches Response::Refused(said) && said@ == why,
            mind_mode::Verdict::Run { unasked } => r matches Response::NotNeeded(answer) && answer@
                == not_needed(
                w.app@,
                w.action@,
                grade@,
                mind_mode::in_force(modes@, now as int),
            ),
            mind_mode::Verdict::Ask => r matches Response::Ask { purpose } && purpose@ == if text::blank(
                w.purpose@,
            ) {
                published_purpose@
            } else {
                w.purpose@
            },
        },
{
    let cannot_be_undone = unrecoverable(published_purpose) || unrecoverable(w.purpose.as_str());
    match modes.decide_knowing(
        grade,
        w.app.as_str(),
        w.action.as_str(),
        cannot_be_undone,
        ceiling,
        now,
    ) {
        Decision::Refuse { why } => Response::Refused(why),
        Decision::Run { unasked } => {
            let mode = modes.mode(now);
            let mut o: Vec<(String, Json)> = Vec::new();
            put_last(&mut o, "status", string("not_needed"));
            put_last(&mut o, "app", string(w.app.as_str()));
            put_last(&mut o, "action", string(w.action.as_str()));
            put_last(&mut o, "grade", string(grade));
            put_last(&mut o, "mode", string(mode.as_str()));
            put_last(
                &mut o,
                "next",
                string(
                    "nobody was asked and nobody needs to be: this desktop's current mode runs this without a card. Run the action. If it ran unasked, call record_unasked_action afterwards.",
                ),
            );
            assert(json::entries(o@) =~= not_needed(w.app@, w.action@, grade@, mode)->Object_0);
            Response::NotNeeded(Json::Object(o))
        },
        Decision::Ask => {
            let purpose = if is_blank(w.purpose.as_str()) {
                published_purpose.to_owned()
            } else {
                w.purpose.clone()
            };
            Response::Ask { purpose }
        },
    }
}

/// A note about the grade goes to what does not agree.
pub fn with_note(verified: Verified, note: &str) -> (r: Verified)
    ensures
        r.line@ == verified.line@,
        r.exe@ == verified.exe@,
        r.pid == verified.pid,
        r.attached_mind@ == verified.attached_mind@,
        text::strs(r.discrepancies@) == text::strs(verified.discrepancies@) + at_most_one(note@),
{
    let mut v = verified;
    let ghost was = v.discrepancies@;
    if !note.is_empty() {
        let mut list = v.discrepancies;
        list.push(note.to_owned());
        v.discrepancies = list;
    }
    assert(text::strs(v.discrepancies@) =~= text::strs(was) + at_most_one(note@));
    v
}

pub open spec fn secs(ns: u64) -> u64 {
    (ns as int / SECOND as int) as u64
}

pub open spec fn poll_next() -> Seq<char> {
    "poll approval_status; on `granted` call consume_approval with the identical app, action and args_json, and run the action only if that succeeds"@
}

/// What `request_approval` answers once the question is on the screen.
pub fn requested_answer(id: &str, status: Status) -> (r: Json)
    ensures
        r@ == Tree::Object(
            seq![
                ("request_id"@, Tree::Str(id@)),
                ("status"@, Tree::Str(approvals::status_word(status))),
                ("expires_in_secs"@, Tree::Num(json::whole(secs(REQUEST_TTL)))),
                ("next"@, Tree::Str(poll_next())),
            ],
        ),
{
    let mut o: Vec<(String, Json)> = Vec::new();
    put_last(&mut o, "request_id", string(id));
    put_last(&mut o, "status", string(status.as_str()));
    put_last(&mut o, "expires_in_secs", number(REQUEST_TTL / SECOND));
    put_last(
        &mut o,
        "next",
        string(
            "poll approval_status; on `granted` call consume_approval with the identical app, action and args_json, and run the action only if that succeeds",
        ),
    );
    assert(json::entries(o@) =~= seq![
        ("request_id"@, Tree::Str(id@)),
        ("status"@, Tree::Str(approvals::status_word(status))),
        ("expires_in_secs"@, Tree::Num(json::whole(secs(REQUEST_TTL)))),
        ("next"@, Tree::Str(poll_next())),
    ]);
    Json::Object(o)
}

/// How long a request that has waited so long still has.
pub open spec fn secs_left(age: u64) -> u64 {
    if age >= secs(REQUEST_TTL) {
        0
    } else {
        (secs(REQUEST_TTL) - age) as u64
    }
}

fn left_of(age_secs: u64) -> (r: u64)
    ensures
        r == secs_left(age_secs),
{
    let ttl: u64 = REQUEST_TTL / SECOND;
    if age_secs >= ttl {
        0
    } else {
        ttl - age_secs
    }
}

/// What `approval_status` says of a request: how old it is where it is still on show, and how long
/// it has where it is still waiting.
pub open spec fn status_tree(id: Seq<char>, status: Status, age: Option<u64>) -> Tree {
    let head = seq![
        ("request_id"@, Tree::Str(id)),
        ("status"@, Tree::Str(approvals::status_word(status))),
    ];
    match age {
        None => Tree::Object(head),
        Some(age) => {
            let aged = head.push(("age_secs"@, Tree::Num(json::whole(age))));
            if status == Status::Pending {
                Tree::Object(aged.push(("expires_in_secs"@, Tree::Num(json::whole(secs_left(age))))))
            } else {
                Tree::Object(aged)
            }
        },
    }
}

/// What `approval_status` answers.
pub fn status_answer(id: &str, status: Option<Status>, age_secs: Option<u64>) -> (r: Result<
    Json,
    String,
>)
    ensures
        match status {
            Some(s) => r matches Ok(answer) && answer@ == status_tree(id@, s, age_secs),
            None => r matches Err(why) && why@ == "no approval request `"@ + id@
                + "` on this machine. Requests are held in memory, so a shell restart drops them; ask again."@,
        },
{
    match status {
        None => {
            let mut out = "no approval request `".to_owned();
            out.append(id);
            out.append(
                "` on this machine. Requests are held in memory, so a shell restart drops them; ask again.",
            );
            Err(out)
        },
        Some(s) => {
            let mut o: Vec<(String, Json)> = Vec::new();
            put_last(&mut o, "request_id", string(id));
            put_last(&mut o, "status", string(s.as_str()));
            assert(json::entries(o@) =~= seq![
                ("request_id"@, Tree::Str(id@)),
                ("status"@, Tree::Str(approvals::status_word(s))),
            ]);
            if let Some(age) = age_secs {
                put_last(&mut o, "age_secs", number(age));
                if s == Status::Pending {
                    put_last(&mut o, "expires_in_secs", number(left_of(age)));
                }
            }
            Ok(Json::Object(o))
        },
    }
}

/// The grant a caller wants to spend.
#[derive(Debug)]
pub struct Spending {
    pub id: String,
    pub app: String,
    pub action: String,
    pub args: Json,
}

pub open spec fn spending_trouble(args: Tree) -> Option<Seq<char>> {
    if given(args, "request_id"@).len() == 0 {
        Some(missing("request_id"@))
    } else if given(args, "app"@).len() == 0 {
        Some(missing("app"@))
    } else if given(args, "action"@).len() == 0 {
        Some(missing("action"@))
    } else {
        match bound_args(json::field(args, "args_json"@)) {
            Err(why) => Some(why),
            Ok(_) => None,
        }
    }
}

/// The grant a caller wants to spend.
pub fn spending(args: &Json) -> (r: Result<Spending, String>)
    ensures
        match spending_trouble(args@) {
            Some(why) => r matches Err(said) && said@ == why,
            None => r matches Ok(s) && s.id@ == given(args@, "request_id"@) && s.app@ == given(
                args@,
                "app"@,
            ) && s.action@ == given(args@, "action"@) && bound_args(
                json::field(args@, "args_json"@),
            ) == Ok::<Tree, Seq<char>>(s.args@),
        },
{
    let id = match required(args, "request_id") {
        Ok(s) => s,
        Err(why) => {
            return Err(why);
        },
    };
    let app = match required(args, "app") {
        Ok(s) => s,
        Err(why) => {
            return Err(why);
        },
    };
    let action = match required(args, "action") {
        Ok(s) => s,
        Err(why) => {
            return Err(why);
        },
    };
    match args_value(args.get("args_json")) {
        Ok(bound) => Ok(Spending { id, app, action, args: bound }),
        Err(why) => Err(why),
    }
}

/// What `consume_approval` answers once the grant is spent.
pub fn consumed_answer(id: &str, app: &str, action: &str) -> (r: Json)
    ensures
        r@ == Tree::Object(
            seq![
                ("request_id"@, Tree::Str(id@)),
                ("consumed"@, Tree::Bool(true)),
                ("authorises"@, Tree::Str(app@ + "."@ + action@)),
                ("note"@, Tree::Str("one action, once. Run it now; this grant is spent."@)),
            ],
        ),
{
    let mut what = app.to_owned();
    what.append(".");
    what.append(action);
    let mut o: Vec<(String, Json)> = Vec::new();
    put_last(&mut o, "request_id", string(id));
    put_last(&mut o, "consumed", Json::Bool(true));
    put_last(&mut o, "authorises", Json::Str(what));
    put_last(&mut o, "note", string("one action, once. Run it now; this grant is spent."));
    assert(json::entries(o@) =~= seq![
        ("request_id"@, Tree::Str(id@)),
        ("consumed"@, Tree::Bool(true)),
        ("authorises"@, Tree::Str(app@ + "."@ + action@)),
        ("note"@, Tree::Str("one action, once. Run it now; this grant is spent."@)),
    ]);
    Json::Object(o)
}

/// What a mode is answered as.
pub open spec fn mode_tree(mode: Mode) -> Tree {
    Tree::Object(
        seq![
            ("mode"@, Tree::Str(mind_mode::mode_word(mode))),
            ("means"@, Tree::Str(mind_mode::mode_meaning(mode))),
            ("note"@, Tree::Str("only the person at this machine can loosen this again."@)),
        ],
    )
}

/// Tighten the mode, on a caller's word.
pub fn set_mind_mode(args: &Json, modes: &mut Modes, now: u64) -> (r: Result<Json, String>)
    requires
        mind_mode::sound(old(modes)@),
    ensures
        mind_mode::sound(final(modes)@),
        ({
            let word = given(args@, "mode"@);
            if word.len() == 0 {
                final(modes)@ == old(modes)@ && (r matches Err(why) && why@ == missing("mode"@))
            } else {
                match mind_mode::mode_named(word) {
                    None => final(modes)@ == old(modes)@ && (r matches Err(why) && why@
                        == mind_mode::not_a_mode_text(word)),
                    Some(Mode::Bypass) => final(modes)@ == old(modes)@ && (r matches Err(why)
                        && why@ == mind_mode::no_bypass_text()),
                    Some(mode) => {
                        &&& final(modes)@ == mind_mode::after_lowering(
                            old(modes)@,
                            mode,
                            now as int,
                        )
                        &&& match mind_mode::answer_to_lowering(old(modes)@, mode, now as int) {
                            Ok(m) => r matches Ok(answer) && answer@ == mode_tree(m),
                            Err(why) => r matches Err(said) && said@ == why,
                        }
                    },
                }
            }
        }),
{
    let word = match required(args, "mode") {
        Ok(s) => s,
        Err(why) => {
            return Err(why);
        },
    };
    match lower_from_socket(modes, word.as_str(), now) {
        Err(why) => Err(why),
        Ok(mode) => {
            let mut o: Vec<(String, Json)> = Vec::new();
            put_last(&mut o, "mode", string(mode.as_str()));
            put_last(&mut o, "means", string(mode.meaning()));
            put_last(
                &mut o,
                "note",
                string("only the person at this machine can loosen this again."),
            );
            assert(json::entries(o@) =~= mode_tree(mode)->Object_0);
            Ok(Json::Object(o))
        },
    }
}

/// An action that ran without anybody being asked, as it is reported.
#[derive(Debug)]
pub struct Unasked {
    pub app: String,
    pub action: String,
    pub grade: String,
    pub args: Json,
    pub mode: String,
    pub requester: String,
    pub outcome: String,
}

/// An action that ran without anybody being asked, as it is reported. What is not said is named
/// rather than left empty.
pub fn unasked(args: &Json, current: Mode) -> (r: Result<Unasked, String>)
    ensures
        match request_trouble(args@) {
            Some(why) => r matches Err(said) && said@ == why,
            None => r matches Ok(u) && u.app@ == given(args@, "app"@) && u.action@ == given(
                args@,
                "action"@,
            ) && u.grade@ == given(args@, "grade"@) && bound_args(
                json::field(args@, "args_json"@),
            ) == Ok::<Tree, Seq<char>>(u.args@) && u.mode@ == or_else(
                given(args@, "mode"@),
                mind_mode::mode_word(current),
            ) && u.requester@ == or_else(given(args@, "requester"@), "an unnamed caller"@)
                && u.outcome@ == or_else(given(args@, "outcome"@), "not reported"@),
        },
{
    match wanted(args) {
        Err(why) => Err(why),
        Ok(w) => Ok(
            Unasked {
                app: w.app,
                action: w.action,
                grade: w.grade,
                args: w.args,
                mode: said_or(args, "mode", current.as_str()),
                requester: w.requester,
                outcome: said_or(args, "outcome", "not reported"),
            },
        ),
    }
}

/// What `record_unasked_action` answers: the line that was written down.
pub fn recorded_answer(entry: &AuditEntry) -> (r: Json)
    ensures
        r@ == Tree::Object(
            seq![
                (
                    "recorded"@,
                    Tree::Str(
                        entry@.at + " · "@ + entry@.app + "."@ + entry@.action + " — "@
                            + entry@.outcome,
                    ),
                ),
            ],
        ),
{
    let mut o: Vec<(String, Json)> = Vec::new();
    let line = entry.line();
    let ghost said = line@;
    put_last(&mut o, "recorded", Json::Str(line));
    assert(json::entries(o@) =~= seq![("recorded"@, Tree::Str(said))]);
    Json::Object(o)
}

/// Whether nobody is signed in on this screen: boot, setup, lock and login.
pub open spec fn is_shut(screen: i32) -> bool {
    screen == 0 || screen == 2 || screen == 3 || screen == 32
}

pub open spec fn audit_withheld() -> Seq<char> {
    "this machine is locked, so the record of unasked actions was not put on screen. It is all still there: unlock it and open the mode chip in the status bar, or read `mind_audit_recent` in describe shell."@
}

/// Decide whether the record of unasked actions goes on the screen: never where whoever stands in
/// front of it may not be the person.
pub fn show_mind_audit(screen: i32, entries: u64) -> (r: Result<Json, String>)
    ensures
        if is_shut(screen) {
            r matches Err(why) && why@ == audit_withheld()
        } else {
            r matches Ok(answer) && answer@ == Tree::Object(
                seq![
                    ("showing"@, Tree::Str("the record of unasked actions"@)),
                    ("entries"@, Tree::Num(json::whole(entries))),
                    (
                        "note"@,
                        Tree::Str("it is on the person's screen now; nothing was changed."@),
                    ),
                ],
            )
        },
{
    if screen == 0 || screen == 2 || screen == 3 || screen == 32 {
        return Err(
            "this machine is locked, so the record of unasked actions was not put on screen. It is all still there: unlock it and open the mode chip in the status bar, or read `mind_audit_recent` in describe shell.".to_owned(),
        );
    }
    let mut o: Vec<(String, Json)> = Vec::new();
    put_last(&mut o, "showing", string("the record of unasked actions"));
    put_last(&mut o, "entries", number(entries));
    put_last(&mut o, "note", string("it is on the person's screen now; nothing was changed."));
    assert(json::entries(o@) =~= seq![
        ("showing"@, Tree::Str("the record of unasked actions"@)),
        ("entries"@, Tree::Num(json::whole(entries))),
        ("note"@, Tree::Str("it is on the person's screen now; nothing was changed."@)),
    ]);
    Ok(Json::Object(o))
}

// ── Getting in front of the person, and out of the way again ────────

pub open spec fn has_words() -> spec_fn(Seq<char>) -> bool {
    |line: Seq<char>| !text::blank(line)
}

/// The title on a line of the compositor's report: what stands behind the first colon.
pub open spec fn title_on(line: Seq<char>) -> Seq<char> {
    let colon = text::next_char(line, ':', 0);
    if colon < line.len() {
        text::trim(line.skip(colon + 1))
    } else {
        line
    }
}

/// The window the person was in, as far as the compositor says so unambiguously: exactly one line,
/// and not the shell itself.
pub open spec fn in_front(report: Seq<char>, shell: Seq<char>) -> Option<Seq<char>> {
    let lines = text::lines(report).filter(has_words());
    if lines.len() != 1 {
        None
    } else {
        let title = title_on(text::trim(lines[0]));
        if title.len() == 0 || title == shell {
            None
        } else {
            Some(title)
        }
    }
}

/// The window the person was in, as far as the compositor says so unambiguously.
pub fn window_in_front(report: &str, shell: &str) -> (r: Option<String>)
    ensures
        text::maybe(r) == in_front(report@, shell@),
{
    let lines = lines_of(report);
    let ghost ls = text::lines(report@);
    let ghost f = has_words();
    let mut found: Option<String> = None;
    let mut count: usize = 0;
    let mut i: usize = 0;
    proof {
        seqs::lemma_filter_none(ls, f);
    }
    while i < lines.len()
        invariant
            i <= lines@.len(),
            text::strs(lines@) == ls,
            f == has_words(),
            count == ls.take(i as int).filter(f).len(),
            count <= i,
            count > 0 ==> found is Some && found->0@ == ls.take(i as int).filter(f)[count - 1],
        decreases lines@.len() - i,
    {
        proof {
            seqs::lemma_filter_take(ls, f, i as int);
            assert(ls[i as int] == lines@[i as int]@);
        }
        if !is_blank(lines[i].as_str()) {
            found = Some(lines[i].clone());
            count += 1;
        }
        i += 1;
    }
    assert(ls.take(i as int) =~= ls);
    if count != 1 {
        return None;
    }
    match found {
        None => None,
        Some(line) => {
            let t = trimmed(line.as_str());
            let v = chars_of(t.as_str());
            let colon = next_at(v.as_slice(), ':', 0);
            let title = if colon < v.len() {
                trimmed(rest(v.as_slice(), colon + 1).as_str())
            } else {
                t
            };
            if title.as_str().is_empty() || same(title.as_str(), shell) {
                None
            } else {
                Some(title)
            }
        },
    }
}

/// The window to hand the screen back to once nothing waits any more.
pub struct ScreenOwed {
    to: Option<String>,
}

impl View for ScreenOwed {
    type V = Option<Seq<char>>;

    closed spec fn view(&self) -> Option<Seq<char>> {
        text::maybe(self.to)
    }
}

impl ScreenOwed {
    pub fn new() -> (r: ScreenOwed)
        ensures
            r@ is None,
    {
        ScreenOwed { to: None }
    }

    /// The shell comes forward over the window that is in front. Where one is remembered already,
    /// the shell is in front itself, and the window the person came from stays the one.
    pub fn take(&mut self, front: Option<String>)
        ensures
            final(self)@ == if old(self)@ is Some {
                old(self)@
            } else {
                text::maybe(front)
            },
    {
        if self.to.is_none() {
            self.to = front;
        }
    }

    /// The window that gets the screen back, where one is owed it. It is owed it once.
    pub fn give_back(&mut self) -> (r: Option<String>)
        ensures
            text::maybe(r) == old(self)@,
            final(self)@ is None,
    {
        self.to.take()
    }
}

// ── Cards onto the screen ───────────────────────────────────────────

/// One request as the person is shown it, with what this machine established about the caller.
pub struct Card {
    pub id: String,
    pub requester: String,
    pub verified: Verified,
    pub app: String,
    pub action: String,
    pub grade: String,
    pub purpose: String,
    /// The arguments, one line each.
    pub args: Vec<String>,
    pub warning: String,
    /// Whether a rule for the rest of the session may be offered.
    pub can_session: bool,
    pub status: Status,
    pub record: String,
    pub age_secs: u64,
}

/// A request with what this machine established about the caller.
pub fn card_for(card: approvals::Card, verified: Verified) -> (r: Card)
    ensures
        r.id@ == card.id@,
        r.requester@ == card.requester@,
        r.verified == verified,
        r.app@ == card.app@,
        r.action@ == card.action@,
        r.grade@ == card.grade@,
        r.purpose@ == card.purpose@,
        text::strs(r.args@) == text::lines(card.args_lines@),
        r.warning@ == card.warning@,
        r.can_session == approvals::rule_offered(card.grade@, card.purpose@),
        r.status == card.status,
        r.record@ == card.record@,
        r.age_secs == card.age_secs,
{
    let can_session = may_offer_session_rule(card.grade.as_str(), card.purpose.as_str());
    Card {
        id: card.id,
        requester: card.requester,
        verified,
        app: card.app,
        action: card.action,
        grade: card.grade,
        purpose: card.purpose,
        args: lines_of(card.args_lines.as_str()),
        warning: card.warning,
        can_session,
        status: card.status,
        record: card.record,
        age_secs: card.age_secs,
    }
}

impl Row for Card {
    /// What is reported of a request that waits: the claim and the fact beside it are two keys.
    open spec fn row(&self) -> Tree {
        Tree::Object(
            seq![
                ("id"@, Tree::Str(self.id@)),
                ("requester"@, Tree::Str(self.requester@)),
                ("verified"@, self.verified.row()),
                ("app"@, Tree::Str(self.app@)),
                ("action"@, Tree::Str(self.action@)),
                ("grade"@, Tree::Str(self.grade@)),
                ("age_secs"@, Tree::Num(json::whole(self.age_secs))),
            ],
        )
    }

    fn to_json(&self) -> (r: Json) {
        let mut o: Vec<(String, Json)> = Vec::new();
        put_last(&mut o, "id", string(self.id.as_str()));
        put_last(&mut o, "requester", string(self.requester.as_str()));
        put_last(&mut o, "verified", self.verified.to_json());
        put_last(&mut o, "app", string(self.app.as_str()));
        put_last(&mut o, "action", string(self.action.as_str()));
        put_last(&mut o, "grade", string(self.grade.as_str()));
        put_last(&mut o, "age_secs", number(self.age_secs));
        assert(json::entries(o@) =~= self.row()->Object_0);
        Json::Object(o)
    }
}

/// What is published of the requests that wait.
pub fn pending_for_describe(cards: &[Card]) -> (r: Json)
    ensures
        r@ == Tree::Array(json::rows(cards@)),
{
    array_of(cards)
}

/// What tells one state of a card from another: its age counts only while it waits.
pub open spec fn mark(c: Card) -> Seq<char> {
    let age = if c.status == Status::Pending {
        c.age_secs
    } else {
        0u64
    };
    c.id@ + ":"@ + approvals::status_word(c.status) + ":"@ + text::dec(age as nat)
}

pub open spec fn marks(cards: Seq<Card>) -> Seq<Seq<char>> {
    Seq::new(cards.len(), |i: int| mark(cards[i]))
}

/// What the screen is showing, so that a tick that changes nothing repaints nothing.
pub fn fingerprint(cards: &[Card]) -> (r: String)
    ensures
        r@ == text::join(marks(cards@), "|"@),
{
    let mut out: Vec<String> = Vec::new();
    let mut i: usize = 0;
    while i < cards.len()
        invariant
            i <= cards@.len(),
            out@.len() == i,
            forall|k: int| 0 <= k < i ==> (#[trigger] out@[k])@ == mark(cards@[k]),
        decreases cards@.len() - i,
    {
        let c = &cards[i];
        let age: u64 = if c.status == Status::Pending {
            c.age_secs
        } else {
            0
        };
        let mut one = c.id.clone();
        one.append(":");
        one.append(c.status.as_str());
        one.append(":");
        one.append(decimal(age).as_str());
        out.push(one);
        i += 1;
    }
    assert(text::strs(out@) =~= marks(cards@));
    joined(out.as_slice(), "|")
}

/// A card as it is drawn: one line a row, and no row blank that should say something.
pub struct ApprovalRow {
    pub id: String,
    pub requester: String,
    pub verified: String,
    pub discrepancies: Vec<String>,
    pub app: String,
    pub action: String,
    pub grade: String,
    pub purpose: String,
    pub args: Vec<String>,
    pub warning: String,
    pub can_session: bool,
    pub decision: String,
    pub record: String,
    pub age_text: String,
}

pub open spec fn decision_word(s: Status) -> Seq<char> {
    match s {
        Status::Pending => ""@,
        Status::Granted => "allowed"@,
        Status::Consumed => "allowed"@,
        Status::Denied => "denied"@,
        Status::Expired => "expired"@,
    }
}

/// Whether a row draws a card.
pub open spec fn draws(r: ApprovalRow, c: Card) -> bool {
    &&& r.id@ == c.id@
    &&& r.requester@ == c.requester@
    &&& r.verified@ == or_else(c.verified.line@, "could not be identified"@)
    &&& text::strs(r.discrepancies@) == text::strs(c.verified.discrepancies@)
    &&& r.app@ == c.app@
    &&& r.action@ == c.action@
    &&& r.grade@ == c.grade@
    &&& r.purpose@ == or_else(c.purpose@, "(the app publishes no description for this action)"@)
    &&& text::strs(r.args@) == text::strs(c.args@)
    &&& r.warning@ == c.warning@
    &&& r.can_session == c.can_session
    &&& r.decision@ == decision_word(c.status)
    &&& r.record@ == c.record@
    &&& r.age_text@ == if c.status == Status::Pending {
        text::dec(secs_left(c.age_secs) as nat) + "s left"@
    } else {
        ""@
    }
}

fn copied(v: &[String]) -> (r: Vec<String>)
    ensures
        text::strs(r@) == text::strs(v@),
{
    let mut out: Vec<String> = Vec::new();
    let mut i: usize = 0;
    while i < v.len()
        invariant
            i <= v@.len(),
            out@.len() == i,
            forall|k: int| 0 <= k < i ==> (#[trigger] out@[k])@ == v@[k]@,
        decreases v@.len() - i,
    {
        out.push(v[i].clone());
        i += 1;
    }
    assert(text::strs(out@) =~= text::strs(v@));
    out
}

fn text_or(said: &str, other: &str) -> (r: String)
    ensures
        r@ == or_else(said@, other@),
{
    if said.is_empty() {
        other.to_owned()
    } else {
        said.to_owned()
    }
}

/// A card as it is drawn.
pub fn row_for(card: &Card) -> (r: ApprovalRow)
    ensures
        draws(r, *card),
{
    let age_text = if card.status == Status::Pending {
        let mut t = decimal(left_of(card.age_secs));
        t.append("s left");
        t
    } else {
        "".to_owned()
    };
    let decision = match card.status {
        Status::Pending => "",
        Status::Granted => "allowed",
        Status::Consumed => "allowed",
        Status::Denied => "denied",
        Status::Expired => "expired",
    };
    ApprovalRow {
        id: card.id.clone(),
        requester: card.requester.clone(),
        verified: text_or(card.verified.line.as_str(), "could not be identified"),
        discrepancies: copied(card.verified.discrepancies.as_slice()),
        app: card.app.clone(),
        action: card.action.clone(),
        grade: card.grade.clone(),
        purpose: text_or(
            card.purpose.as_str(),
            "(the app publishes no description for this action)",
        ),
        args: copied(card.args.as_slice()),
        warning: card.warning.clone(),
        can_session: card.can_session,
        decision: decision.to_owned(),
        record: card.record.clone(),
        age_text,
    }
}

pub open spec fn waits() -> spec_fn(Card) -> bool {
    |c: Card| c.status == Status::Pending
}

/// The first `n` cards as they are shown: all that are decided, and of those that wait the first.
pub open spec fn shown_of(cards: Seq<Card>, n: int) -> Seq<Card>
    decreases n,
{
    if n <= 0 {
        Seq::empty()
    } else {
        let before = shown_of(cards, n - 1);
        if waits()(cards[n - 1]) && seqs::first(cards, waits()) < n - 1 {
            before
        } else {
            before.push(cards[n - 1])
        }
    }
}

pub open spec fn all_draw(rows: Seq<ApprovalRow>, cards: Seq<Card>) -> bool {
    &&& rows.len() == cards.len()
    &&& forall|i: int| 0 <= i < cards.len() ==> draws(#[trigger] rows[i], cards[i])
}

/// What goes on the screen.
pub struct Published {
    /// The whole conversation: what was decided, and the one card that waits.
    pub shown: Vec<ApprovalRow>,
    /// The one card that waits, to go over the other screens.
    pub in_front: Vec<ApprovalRow>,
    /// How many wait behind it.
    pub behind: i32,
    /// Whether the screen goes back to whatever the person was using.
    pub give_back: bool,
}

/// The card in front: the first that waits.
pub open spec fn front(cards: Seq<Card>) -> Seq<Card> {
    let i = seqs::first(cards, waits());
    if i < cards.len() {
        seq![cards[i]]
    } else {
        Seq::empty()
    }
}

/// One card at a time, however many wait: the first that waits is the one on screen and the rest
/// wait behind a count.
pub fn publish(cards: &[Card]) -> (r: Published)
    requires
        cards@.len() <= i32::MAX,
    ensures
        all_draw(r.shown@, shown_of(cards@, cards@.len() as int)),
        all_draw(r.in_front@, front(cards@)),
        r.give_back == (cards@.filter(waits()).len() == 0),
        r.behind == if r.give_back {
            0int
        } else {
            cards@.filter(waits()).len() - 1
        },
{
    let ghost f = waits();
    let mut shown: Vec<ApprovalRow> = Vec::new();
    let mut in_front: Vec<ApprovalRow> = Vec::new();
    let mut waiting: i32 = 0;
    let mut i: usize = 0;
    proof {
        seqs::lemma_filter_none(cards@, f);
        seqs::lemma_first(cards@, f);
    }
    while i < cards.len()
        invariant
            i <= cards@.len(),
            cards@.len() <= i32::MAX,
            f == waits(),
            waiting == cards@.take(i as int).filter(f).len(),
            0 <= waiting <= i,
            waiting == 0 <==> seqs::first(cards@, f) >= i,
            0 <= seqs::first(cards@, f) <= cards@.len(),
            seqs::first(cards@, f) < cards@.len() ==> f(cards@[seqs::first(cards@, f)]),
            forall|j: int| 0 <= j < seqs::first(cards@, f) ==> !f(#[trigger] cards@[j]),
            all_draw(shown@, shown_of(cards@, i as int)),
            seqs::first(cards@, f) < i ==> all_draw(in_front@, front(cards@)),
            seqs::first(cards@, f) >= i ==> in_front@.len() == 0,
        decreases cards@.len() - i,
    {
        proof {
            seqs::lemma_filter_take(cards@, f, i as int);
        }
        let pending = cards[i].status == Status::Pending;
        assert(pending == f(cards@[i as int]));
        if pending {
            if waiting == 0 {
                in_front.push(row_for(&cards[i]));
                shown.push(row_for(&cards[i]));
            }
            waiting += 1;
        } else {
            shown.push(row_for(&cards[i]));
        }
        i += 1;
    }
    assert(cards@.take(i as int) =~= cards@);
    let behind: i32 = if waiting == 0 {
        0
    } else {
        waiting - 1
    };
    Published { shown, in_front, behind, give_back: waiting == 0 }
}

// ── The mode onto the screen ────────────────────────────────────────

/// What the chip and the menu are showing, so that a tick that changes nothing repaints nothing.
pub fn mode_fingerprint(modes: &Modes, list: &[AuditEntry], now: u64) -> (r: String)
    ensures
        r@ == mind_mode::chip(modes@, now as int) + "|"@ + text::join(
            mind_mode::rule_names(modes@.rules),
            ","@,
        ) + "|"@ + text::dec(
            approvals::tail(mind_mode::audits(list@), AUDIT_PUBLISHED as int).len(),
        ),
{
    let last = recent(list, AUDIT_PUBLISHED);
    assert(mind_mode::audits(last@).len() == last@.len());
    let mut out = chip_label(modes, now);
    out.append("|");
    out.append(rules_summary(modes).as_str());
    out.append("|");
    out.append(decimal(last.len() as u64).as_str());
    out
}

/// A session rule as the menu shows it.
pub struct MindRule {
    pub label: String,
    pub app: String,
    pub action: String,
}

/// The session rules as the menu shows them.
pub fn rule_rows(modes: &Modes) -> (r: Vec<MindRule>)
    ensures
        r@.len() == modes@.rules.len(),
        forall|i: int|
            0 <= i < r@.len() ==> (#[trigger] r@[i]).app@ == modes@.rules[i].0 && r@[i].action@
                == modes@.rules[i].1 && r@[i].label@ == modes@.rules[i].0 + "."@
                + modes@.rules[i].1,
{
    let rules = modes.rules();
    let mut out: Vec<MindRule> = Vec::new();
    let mut i: usize = 0;
    while i < rules.len()
        invariant
            i <= rules@.len(),
            rules@.len() == modes@.rules.len(),
            forall|k: int|
                0 <= k < rules@.len() ==> modes@.rules[k] == (
                    (#[trigger] rules@[k]).app@,
                    rules@[k].action@,
                ),
            out@.len() == i,
            forall|k: int|
                0 <= k < i ==> (#[trigger] out@[k]).app@ == modes@.rules[k].0 && out@[k].action@
                    == modes@.rules[k].1 && out@[k].label@ == modes@.rules[k].0 + "."@
                    + modes@.rules[k].1,
        decreases rules@.len() - i,
    {
        let mut label = rules[i].app.clone();
        label.append(".");
        label.append(rules[i].action.as_str());
        assert(modes@.rules[i as int] == (rules@[i as int].app@, rules@[i as int].action@));
        out.push(
            MindRule { label, app: rules[i].app.clone(), action: rules[i].action.clone() },
        );
        i += 1;
    }
    out
}

/// An unasked action as the menu shows it.
pub struct AuditRow {
    pub at: String,
    pub what: String,
    pub args: String,
    pub outcome: String,
}

pub open spec fn audit_row_shows(r: AuditRow, e: mind_mode::Audited) -> bool {
    &&& r.at@ == e.at
    &&& r.what@ == e.app + "."@ + e.action
    &&& r.args@ == text::join(e.args, "  "@)
    &&& r.outcome@ == e.outcome
}

/// The unasked actions as the menu shows them: the newest first.
pub fn audit_rows(list: &[AuditEntry]) -> (r: Vec<AuditRow>)
    ensures
        ({
            let last = approvals::tail(mind_mode::audits(list@), AUDIT_PUBLISHED as int);
            r@.len() == last.len() && forall|i: int|
                0 <= i < r@.len() ==> audit_row_shows(#[trigger] r@[i], last[last.len() - 1 - i])
        }),
{
    let last = recent(list, AUDIT_PUBLISHED);
    let ghost all = approvals::tail(mind_mode::audits(list@), AUDIT_PUBLISHED as int);
    assert(mind_mode::audits(last@).len() == last@.len());
    let mut out: Vec<AuditRow> = Vec::new();
    let mut i: usize = last.len();
    while i > 0
        invariant
            i <= last@.len(),
            all == mind_mode::audits(last@),
            all.len() == last@.len(),
            out@.len() == last@.len() - i,
            forall|k: int|
                0 <= k < out@.len() ==> audit_row_shows(#[trigger] out@[k], all[all.len() - 1 - k]),
        decreases i,
    {
        i -= 1;
        let e = &last[i];
        assert(all[i as int] == e@);
        let mut what = e.app.clone();
        what.append(".");
        what.append(e.action.as_str());
        out.push(
            AuditRow {
                at: e.at.clone(),
                what,
                args: joined(e.args.as_slice(), "  "),
                outcome: e.outcome.clone(),
            },
        );
    }
    out
}

/// The mode a person picked in the menu. Bypass does not arrive there: it has an answer of its own,
/// with how long it is to last.
pub fn mode_chosen(word: &str) -> (r: Option<Mode>)
    ensures
        r == match mind_mode::mode_named(word@) {
            Some(Mode::Bypass) => None,
            other => other,
        },
{
    match Mode::parse(word) {
        Some(Mode::Bypass) => None,
        other => other,
    }
}

/// How long a person wants nothing asked.
pub fn bypass_chosen(word: &str) -> (r: Option<Bypass>)
    ensures
        r == mind_mode::bypass_named(word@),
{
    Bypass::parse(word)
}

/// The rules after "Allow for this session" on a request: one more for its action where the request
/// could be granted and its action may have a standing yes, and none where either fails.
pub open spec fn rules_after_session(
    shelf: approvals::Shelf,
    setting: mind_mode::Setting,
    id: Seq<char>,
    now: int,
) -> mind_mode::Setting {
    let i = seqs::first(shelf.records, approvals::called(id));
    let r = shelf.records[i];
    if approvals::answer_to_decision(shelf, id, now) is Ok && approvals::rule_offered(
        r.grade,
        r.purpose,
    ) && !mind_mode::has_rule(setting, r.app, r.action) {
        mind_mode::Setting { rules: setting.rules.push((r.app, r.action)), ..setting }
    } else {
        setting
    }
}

/// A person pressed "Allow for this session": the grant first, which is what the caller waits for,
/// and then the rule, which stops the same question coming back. Where only the rule is refused,
/// the one action stays granted, and the answer carries why there is no rule.
pub fn allow_for_session(store: &mut Store, modes: &mut Modes, id: &str, now: u64, at: &str) -> (r:
    Result<Option<String>, String>)
    requires
        old(store).wf(),
        mind_mode::sound(old(modes)@),
    ensures
        final(store).wf(),
        mind_mode::sound(final(modes)@),
        final(store)@ == approvals::after_decision(
            old(store)@,
            id@,
            Status::Granted,
            now as int,
            at@,
        ),
        final(modes)@ == rules_after_session(old(store)@, old(modes)@, id@, now as int),
        match approvals::answer_to_decision(old(store)@, id@, now as int) {
            Err(why) => r matches Err(said) && said@ == why,
            Ok(_) => {
                let asked = old(store)@.records[seqs::first(
                    old(store)@.records,
                    approvals::called(id@),
                )];
                r matches Ok(no_rule) && text::maybe(no_rule) == if approvals::rule_offered(
                    asked.grade,
                    asked.purpose,
                ) {
                    None
                } else {
                    Some(mind_mode::no_rule_text(asked.app, asked.action))
                }
            },
        },
{
    let card = store.card(id, now);
    match store.grant(id, now, at) {
        Err(why) => Err(why),
        Ok(()) => match card {
            None => Ok(None),
            Some(card) => match modes.person_add_rule(
                card.app.as_str(),
                card.action.as_str(),
                card.grade.as_str(),
                card.purpose.as_str(),
            ) {
                Ok(()) => Ok(None),
                Err(why) => Ok(Some(why)),
            },
        },
    }
}

/// What a part of the screen shows, so that a tick that changes nothing repaints nothing.
pub struct Shown {
    fingerprint: String,
}

impl View for Shown {
    type V = Seq<char>;

    closed spec fn view(&self) -> Seq<char> {
        self.fingerprint@
    }
}

impl Shown {
    pub fn new() -> (r: Shown)
        ensures
            r@.len() == 0,
    {
        Shown { fingerprint: String::new() }
    }

    /// Whether what is to be shown now differs from what is shown. From then on it is what is
    /// shown.
    pub fn changed(&mut self, now: String) -> (r: bool)
        ensures
            r == (old(self)@ != now@),
            final(self)@ == now@,
    {
        if same(self.fingerprint.as_str(), now.as_str()) {
            return false;
        }
        self.fingerprint = now;
        true
    }
}

// ── Published actions ───────────────────────────────────────────────

pub const ABOUT_REQUEST_APPROVAL: &'static str =
    "Ask the person at this machine to allow one action, once. Puts a card on their screen showing who is asking, what the action does, and every argument. Answer is `{request_id, status: \"pending\"}`; poll approval_status until it is granted or denied, then consume_approval before running the action. Asking is not being allowed: only a person pressing Allow creates a grant, and nothing on this surface can create one.";

pub const ABOUT_REQUEST_APPROVAL_GRADE: &'static str =
    "The action's permission grade as os_describe reports it: safe, standard, sensitive or dangerous";

pub const ABOUT_REQUEST_APPROVAL_ARGS_JSON: &'static str =
    "The exact arguments, as a JSON object. The grant is bound to these \u{2014} a different value later is a different action and will be refused";

pub const ABOUT_REQUEST_APPROVAL_PURPOSE: &'static str =
    "The action's own published description, so the card says what it does in the app's words";

pub const ABOUT_REQUEST_APPROVAL_REQUESTER: &'static str =
    "What to call you on the card, e.g. hermes. It is shown as `says the caller`: nothing checks it, and it grants nothing. Beside it the card shows the program this machine worked out for itself from the socket, which is not taken from here";

pub const ABOUT_APPROVAL_STATUS: &'static str =
    "Where one approval request stands: pending, granted, denied, expired or consumed. `denied` is an answer, not a failure \u{2014} do not ask again unless the person brings it up. `expired` means nobody answered in time.";

pub const ABOUT_CONSUME_APPROVAL: &'static str =
    "Spend a grant. Succeeds exactly once, and only if the person granted this request and the app, action and arguments are byte-for-byte what they were shown (key order aside). Anything else is refused, and the refusal says which part differed. Call it immediately before the action, and run the action only if it succeeded.";

pub const ABOUT_SET_MIND_MODE: &'static str =
    "Tighten what you may do on this desktop without being asked. Four modes, loosest first: `bypass` (nothing is asked), `auto` (only destructive actions are asked about), `ask` (anything that matters is asked about), `plan` (read only \u{2014} every change is refused). You can only move DOWN this list. A request to loosen it is refused: that is the person's decision, made at the keyboard, and `plan` is the useful one to set yourself before a long piece of work you want checked first.";

pub const ABOUT_SET_MIND_MODE_MODE: &'static str =
    "plan, ask or auto \u{2014} and only if it is tighter than the current mode";

pub const ABOUT_RECORD_UNASKED_ACTION: &'static str =
    "Write down one action that ran WITHOUT the person being asked \u{2014} because the desktop is in auto or bypass mode, or because a session rule covers it. Call it straight after the action, with what actually happened. It records; it cannot authorise anything, and not calling it does not stop anything running. The person reads these in the mode menu and in ~/.local/share/yantrik/mind-audit.jsonl.";

pub const ABOUT_RECORD_UNASKED_ACTION_REQUESTER: &'static str =
    "What to call yourself in the record. Self-declared; the log also keeps what this machine established from the socket, separately";

pub const ABOUT_SHOW_MIND_AUDIT: &'static str =
    "Put the record of actions that ran WITHOUT the person being asked on their screen \u{2014} the same list as the mode chip's \"See what it did without asking\". It shows what is already written down; it changes nothing, allows nothing, and does not clear anything. `describe shell` carries the same entries under `mind_audit_recent` if you only want to read them.";

/// The actions this module publishes.
pub open spec fn published() -> Seq<Listing> {
    Seq::<Listing>::empty().push(
        Listing::new("request_approval"@, ABOUT_REQUEST_APPROVAL@).risk("safe"@)
            .arg(Takes::new("app"@, ParamKind::Text).described("The app the action belongs to, e.g. calendar"@))
            .arg(Takes::new("action"@, ParamKind::Text).described("The action's exact name, e.g. delete_event"@))
            .arg(Takes::new("grade"@, ParamKind::Text).described(ABOUT_REQUEST_APPROVAL_GRADE@))
            .arg(Takes::new("args_json"@, ParamKind::Text).left_out().described(ABOUT_REQUEST_APPROVAL_ARGS_JSON@))
            .arg(Takes::new("purpose"@, ParamKind::Text).left_out().described(ABOUT_REQUEST_APPROVAL_PURPOSE@))
            .arg(Takes::new("requester"@, ParamKind::Text).left_out().described(ABOUT_REQUEST_APPROVAL_REQUESTER@)),
    ).push(
        Listing::new("approval_status"@, ABOUT_APPROVAL_STATUS@).risk("safe"@)
            .arg(Takes::new("request_id"@, ParamKind::Text).described("The id request_approval answered with"@)),
    ).push(
        Listing::new("consume_approval"@, ABOUT_CONSUME_APPROVAL@).risk("safe"@)
            .arg(Takes::new("request_id"@, ParamKind::Text))
            .arg(Takes::new("app"@, ParamKind::Text))
            .arg(Takes::new("action"@, ParamKind::Text))
            .arg(Takes::new("args_json"@, ParamKind::Text).left_out().described("The same JSON object the request carried"@)),
    ).push(
        Listing::new("set_mind_mode"@, ABOUT_SET_MIND_MODE@).risk("safe"@)
            .arg(Takes::new("mode"@, ParamKind::Text).described(ABOUT_SET_MIND_MODE_MODE@)),
    ).push(
        Listing::new("record_unasked_action"@, ABOUT_RECORD_UNASKED_ACTION@).risk("safe"@)
            .arg(Takes::new("app"@, ParamKind::Text))
            .arg(Takes::new("action"@, ParamKind::Text))
            .arg(Takes::new("grade"@, ParamKind::Text).described("The action's grade, as os_describe reports it"@))
            .arg(Takes::new("mode"@, ParamKind::Text).left_out().described("The mode it ran under: auto, bypass, or rule"@))
            .arg(Takes::new("args_json"@, ParamKind::Text).left_out().described("The exact arguments it ran with, as a JSON object"@))
            .arg(Takes::new("requester"@, ParamKind::Text).left_out().described(ABOUT_RECORD_UNASKED_ACTION_REQUESTER@))
            .arg(Takes::new("outcome"@, ParamKind::Text).left_out().described("What happened: ok, failed, or a short phrase"@)),
    ).push(
        Listing::new("show_mind_audit"@, ABOUT_SHOW_MIND_AUDIT@).risk("safe"@),
    )
}

/// The actions this module publishes.
pub fn actions() -> (r: Vec<Action>)
    ensures
        surface::shown(r@) == published(),
{
    let mut out: Vec<Action> = Vec::new();
    assert(surface::shown(out@) =~= Seq::<Listing>::empty());
    add_action(
        &mut out,
        Action::new("request_approval", ABOUT_REQUEST_APPROVAL).risk("safe")
            .arg(Param::text("app").describe("The app the action belongs to, e.g. calendar"))
            .arg(Param::text("action").describe("The action's exact name, e.g. delete_event"))
            .arg(Param::text("grade").describe(ABOUT_REQUEST_APPROVAL_GRADE))
            .arg(Param::text("args_json").optional().describe(ABOUT_REQUEST_APPROVAL_ARGS_JSON))
            .arg(Param::text("purpose").optional().describe(ABOUT_REQUEST_APPROVAL_PURPOSE))
            .arg(Param::text("requester").optional().describe(ABOUT_REQUEST_APPROVAL_REQUESTER)),
    );
    add_action(
        &mut out,
        Action::new("approval_status", ABOUT_APPROVAL_STATUS).risk("safe")
            .arg(Param::text("request_id").describe("The id request_approval answered with")),
    );
    add_action(
        &mut out,
        Action::new("consume_approval", ABOUT_CONSUME_APPROVAL).risk("safe")
            .arg(Param::text("request_id"))
            .arg(Param::text("app"))
            .arg(Param::text("action"))
            .arg(Param::text("args_json").optional().describe("The same JSON object the request carried")),
    );
    add_action(
        &mut out,
        Action::new("set_mind_mode", ABOUT_SET_MIND_MODE).risk("safe")
            .arg(Param::text("mode").describe(ABOUT_SET_MIND_MODE_MODE)),
    );
    add_action(
        &mut out,
        Action::new("record_unasked_action", ABOUT_RECORD_UNASKED_ACTION).risk("safe")
            .arg(Param::text("app"))
            .arg(Param::text("action"))
            .arg(Param::text("grade").describe("The action's grade, as os_describe reports it"))
            .arg(Param::text("mode").optional().describe("The mode it ran under: auto, bypass, or rule"))
            .arg(Param::text("args_json").optional().describe("The exact arguments it ran with, as a JSON object"))
            .arg(Param::text("requester").optional().describe(ABOUT_RECORD_UNASKED_ACTION_REQUESTER))
            .arg(Param::text("outcome").optional().describe("What happened: ok, failed, or a short phrase")),
    );
    add_action(
        &mut out,
        Action::new("show_mind_audit", ABOUT_SHOW_MIND_AUDIT).risk("safe"),
    );
    out
}

// ── Laws ────────────────────────────────────────────────────────────

/// A rule for the session comes only with a grant, and only where a standing yes may be offered;
/// from then on its action is not asked about, in any mode and whatever it is graded.
pub proof fn law_a_session_rule_comes_with_a_grant(
    shelf: approvals::Shelf,
    setting: mind_mode::Setting,
    id: Seq<char>,
    now: int,
    later: int,
    grade: Seq<char>,
    lasting: bool,
    ceiling: Seq<char>,
)
    ensures
        ({
            let after = rules_after_session(shelf, setting, id, now);
            let r = shelf.records[seqs::first(shelf.records, approvals::called(id))];
            let granted = approvals::answer_to_decision(shelf, id, now) is Ok;
            &&& after != setting ==> granted && approvals::rule_offered(r.grade, r.purpose)
            &&& granted && approvals::rule_offered(r.grade, r.purpose) ==> !(mind_mode::verdict(
                after,
                grade,
                r.app,
                r.action,
                lasting,
                ceiling,
                later,
            ) is Ask)
        }),
{
    let after = rules_after_session(shelf, setting, id, now);
    let r = shelf.records[seqs::first(shelf.records, approvals::called(id))];
    let rule = (r.app, r.action);
    if after != setting {
        assert(after.rules[setting.rules.len() as int] == rule);
        assert(mind_mode::has_rule(after, r.app, r.action));
    }
}

/// A card always has a verified row: a caller nobody could identify is said to be one.
pub proof fn law_a_card_never_has_a_blank_row(r: ApprovalRow, c: Card)
    requires
        draws(r, c),
    ensures
        r.verified@.len() > 0,
        r.purpose@.len() > 0,
{
    reveal_strlit("could not be identified");
    reveal_strlit("(the app publishes no description for this action)");
}

/// Arguments bind to the same grant whether they arrive as an object or as the text of it.
pub proof fn law_both_shapes_bind_alike(e: Seq<json::Entry>, s: Seq<char>)
    requires
        json::parsed(text::trim(s)) == Ok::<Tree, Seq<char>>(Tree::Object(e)),
        !text::blank(s),
    ensures
        bound_args(Some(Tree::Str(s))) == bound_args(Some(Tree::Object(e))),
{
}

/// A grade that agrees is passed over in silence, and one that does not is said, on one row.
pub proof fn law_a_wrong_grade_is_said(claimed: Seq<char>, published: Seq<char>)
    ensures
        note(claimed, published).len() == 0 <==> text::lower(text::trim(claimed)) == text::lower(
            published,
        ),
        note(claimed, published).len() <= NOTE_CHARS + 1,
{
    let whole = "Caller said `"@ + text::trim(claimed) + "`; the app publishes `"@ + published
        + "`."@;
    reveal_strlit("Caller said `");
    text::lemma_clipped_len(whole, NOTE_CHARS as nat);
}

/// However many requests wait, one card is in front: the one that has waited longest.
pub proof fn law_one_card_at_a_time(cards: Seq<Card>)
    ensures
        front(cards).len() <= 1,
        front(cards).len() == 0 <==> cards.filter(waits()).len() == 0,
{
    seqs::lemma_first(cards, waits());
    seqs::lemma_filter_from(cards, waits());
    if seqs::first(cards, waits()) < cards.len() {
        assert(cards.contains(cards[seqs::first(cards, waits())]));
    } else if cards.filter(waits()).len() > 0 {
        let c = cards.filter(waits())[0];
        let i = choose|i: int| 0 <= i < cards.len() && cards[i] == c;
        assert(!waits()(cards[i]));
    }
}

// ── What is read of a request ───────────────────────────────────────

/// An argument that is text is taken without the white space around it, one that is left out or
/// null is nothing, and anything else is its JSON text.
pub proof fn law_how_an_argument_is_taken(args: Tree, key: Seq<char>)
    ensures
        match json::field(args, key) {
            None => given(args, key).len() == 0,
            Some(t) => match t {
                Tree::Null => given(args, key).len() == 0,
                Tree::Str(s) => given(args, key) == text::trim(s),
                _ => given(args, key) == json::compact(json::tidy(t)),
            },
        },
{
}

/// A grant binds to an object: one that is given, one that is spelled out, and the empty one where
/// nothing is given. Nothing else is taken for one.
pub proof fn law_a_grant_binds_to_an_object(raw: Option<Tree>)
    ensures
        raw is None ==> bound_args(raw) == Ok::<Tree, Seq<char>>(Tree::Object(Seq::empty())),
        raw matches Some(t) ==> match t {
            Tree::Null => bound_args(raw) == Ok::<Tree, Seq<char>>(Tree::Object(Seq::empty())),
            Tree::Object(e) => bound_args(raw) == Ok::<Tree, Seq<char>>(t),
            Tree::Str(s) => {
                &&& text::blank(s) ==> bound_args(raw) == Ok::<Tree, Seq<char>>(
                    Tree::Object(Seq::empty()),
                )
                &&& !text::blank(s) ==> (bound_args(raw) is Ok <==> json::parsed(text::trim(s))
                    is Ok && json::parsed(text::trim(s))->Ok_0 is Object)
                &&& !text::blank(s) && bound_args(raw) is Ok ==> bound_args(raw) == json::parsed(
                    text::trim(s),
                )
            },
            _ => bound_args(raw) is Err,
        },
{
}

/// An action is graded by what its app publishes under its name, the first of that name.
pub proof fn law_an_action_is_graded_by_its_app(
    reply: Tree,
    list: Seq<Tree>,
    i: int,
    action: Seq<char>,
    grade: Seq<char>,
)
    requires
        json::field(reply, "actions"@) == Some(Tree::Array(list)),
        0 <= i < list.len(),
        json::field(list[i], "name"@) == Some(Tree::Str(action)),
        forall|j: int|
            0 <= j < i ==> json::field(#[trigger] list[j], "name"@) != Some(Tree::Str(action)),
    ensures
        json::field(list[i], "permission"@) == Some(Tree::Str(grade)) ==> described(reply, action)
            == Some((grade, json::text_under(list[i], "description"@))),
        !(json::field(list[i], "permission"@) matches Some(Tree::Str(_))) ==> described(
            reply,
            action,
        ) is None,
{
    seqs::lemma_first_is(list, named(action), i);
}

/// An action that its app does not publish is not asked about, and neither is one whose app could
/// not say: only a published grade is ever put before a person.
pub proof fn law_only_a_published_grade_is_asked_about(
    app: Seq<char>,
    action: Seq<char>,
    inquiry: Inquiry,
)
    ensures
        detail(app, action, inquiry) is Ok <==> match inquiry {
            Inquiry::Shell(g) => g is Some,
            Inquiry::Described(reply) => described(reply@, action) is Some,
            _ => false,
        },
        inquiry matches Inquiry::Shell(Some(g)) ==> detail(app, action, inquiry)->Ok_0.0 == g@,
        inquiry matches Inquiry::Described(reply) ==> described(reply@, action) is Some ==> detail(
            app,
            action,
            inquiry,
        )->Ok_0 == described(reply@, action)->0,
{
}

/// What an app is reached by: the shell under either of its names, then what its route says, then
/// its own name where it runs.
pub proof fn law_how_an_app_is_reached(
    key: Seq<char>,
    routed: Option<Seq<char>>,
    running: Seq<Seq<char>>,
)
    ensures
        key.len() == 0 ==> surface(key, routed, running) is None,
        key == "shell"@ || key == "yantrik"@ ==> surface(key, routed, running) == Some("shell"@),
        key.len() > 0 && key != "shell"@ && key != "yantrik"@ ==> surface(key, routed, running)
            == if routed is Some {
            routed
        } else if exists|i: int| 0 <= i < running.len() && #[trigger] running[i] == key {
            Some(key)
        } else {
            None
        },
{
    reveal_strlit("shell");
    reveal_strlit("yantrik");
    assert("shell"@.len() == 5 && "yantrik"@.len() == 7);
}

/// A request is taken where it names an app, an action and a grade and its arguments are an object;
/// otherwise the first thing that is missing is said.
pub proof fn law_what_a_request_needs(args: Tree)
    ensures
        request_trouble(args) is None <==> {
            &&& given(args, "app"@).len() > 0
            &&& given(args, "action"@).len() > 0
            &&& given(args, "grade"@).len() > 0
            &&& bound_args(json::field(args, "args_json"@)) is Ok
        },
        spending_trouble(args) is None <==> {
            &&& given(args, "request_id"@).len() > 0
            &&& given(args, "app"@).len() > 0
            &&& given(args, "action"@).len() > 0
            &&& bound_args(json::field(args, "args_json"@)) is Ok
        },
        given(args, "app"@).len() == 0 ==> request_trouble(args) == Some(
            "`"@ + "app"@ + "` is required and was empty"@,
        ),
{
}

/// An action lasts where either its app or its caller says that it cannot be undone.
pub proof fn law_either_may_say_that_it_lasts(published: Seq<char>, declared: Seq<char>)
    ensures
        lasting(published, declared) <==> approvals::says_final(published)
            || approvals::says_final(declared),
{
}

/// A card that waits counts down from two minutes, and never below nothing; a card that was decided
/// does not.
pub proof fn law_a_card_counts_down(id: Seq<char>, status: Status, age: u64)
    ensures
        age < 120 ==> secs_left(age) == 120 - age,
        age >= 120 ==> secs_left(age) == 0,
        status == Status::Pending ==> status_tree(id, status, Some(age)) == Tree::Object(
            seq![
                ("request_id"@, Tree::Str(id)),
                ("status"@, Tree::Str("pending"@)),
                ("age_secs"@, Tree::Num(json::whole(age))),
                ("expires_in_secs"@, Tree::Num(json::whole(secs_left(age)))),
            ],
        ),
        status != Status::Pending ==> status_tree(id, status, Some(age)) == Tree::Object(
            seq![
                ("request_id"@, Tree::Str(id)),
                ("status"@, Tree::Str(approvals::status_word(status))),
                ("age_secs"@, Tree::Num(json::whole(age))),
            ],
        ),
{
    let head = seq![
        ("request_id"@, Tree::Str(id)),
        ("status"@, Tree::Str(approvals::status_word(status))),
    ];
    let aged = head.push(("age_secs"@, Tree::Num(json::whole(age))));
    assert(aged =~= seq![
        ("request_id"@, Tree::Str(id)),
        ("status"@, Tree::Str(approvals::status_word(status))),
        ("age_secs"@, Tree::Num(json::whole(age))),
    ]);
    assert(aged.push(("expires_in_secs"@, Tree::Num(json::whole(secs_left(age))))) =~= seq![
        ("request_id"@, Tree::Str(id)),
        ("status"@, Tree::Str(approvals::status_word(status))),
        ("age_secs"@, Tree::Num(json::whole(age))),
        ("expires_in_secs"@, Tree::Num(json::whole(secs_left(age)))),
    ]);
}

/// The screens on which the machine is shut: while it starts, while it is set up, while it is
/// locked and while nobody has logged in.
pub proof fn law_when_the_machine_is_shut(screen: i32)
    ensures
        is_shut(screen) <==> crate::control::screen_called(screen) == "boot"@
            || crate::control::screen_called(screen) == "onboarding"@
            || crate::control::screen_called(screen) == "lock"@ || crate::control::screen_called(
            screen,
        ) == "login"@,
{
    crate::control::law_what_the_screens_are_called(screen);
    reveal_strlit("boot");
    reveal_strlit("onboarding");
    reveal_strlit("lock");
    reveal_strlit("login");
    reveal_strlit("desktop");
    reveal_strlit("bond");
    reveal_strlit("personality");
    reveal_strlit("memory");
    reveal_strlit("settings");
    reveal_strlit("files");
    reveal_strlit("notifications");
    reveal_strlit("system");
    reveal_strlit("images");
    reveal_strlit("editor");
    reveal_strlit("media");
    reveal_strlit("about");
    reveal_strlit("packages");
    reveal_strlit("devices");
    reveal_strlit("permissions");
    reveal_strlit("unknown");
    assert("boot"@[1] == 'o' && "boot"@[2] == 'o' && "bond"@[2] == 'n' && "lock"@[0] == 'l'
        && "login"@[0] == 'l' && "about"@[0] == 'a' && "media"@[0] == 'm' && "files"@[0] == 'f'
        && "boot"@[0] == 'b');
    assert("onboarding"@.len() == 10 && "boot"@.len() == 4 && "lock"@.len() == 4 && "login"@.len()
        == 5 && "desktop"@.len() == 7 && "bond"@.len() == 4 && "personality"@.len() == 11
        && "memory"@.len() == 6 && "settings"@.len() == 8 && "files"@.len() == 5
        && "notifications"@.len() == 13 && "system"@.len() == 6 && "images"@.len() == 6
        && "editor"@.len() == 6 && "media"@.len() == 5 && "about"@.len() == 5 && "packages"@.len()
        == 8 && "devices"@.len() == 7 && "permissions"@.len() == 11 && "unknown"@.len() == 7);
}

/// The window in front is known where the report names one and it is not the shell's own.
pub proof fn law_which_window_is_in_front(id: Seq<char>, title: Seq<char>, shell: Seq<char>)
    requires
        !id.contains(':'),
        !id.contains('\n'),
        !title.contains('\n'),
        text::neat(id),
        text::neat(title),
        title.last() != '\r',
    ensures
        in_front(id + ": "@ + title, shell) == if title == shell {
            None
        } else {
            Some(title)
        },
        in_front(Seq::empty(), shell) is None,
{
    reveal_strlit(": ");
    let s = id + ": "@ + title;
    let none = Seq::<char>::empty();
    assert(!s.contains('\n')) by {
        if s.contains('\n') {
            let i = choose|i: int| 0 <= i < s.len() && s[i] == '\n';
            if i < id.len() {
                assert(id.contains(id[i]));
            } else if i >= id.len() + 2 {
                assert(title.contains(title[i - id.len() - 2]));
            }
        }
    }
    assert(s[0] == id[0] && s.last() == title.last());
    text::lemma_neat(s);
    text::law_lines_are_read_as_written(s, none);
    let f = has_words();
    reveal(Seq::filter);
    assert(seq![s].drop_last() =~= Seq::<Seq<char>>::empty());
    assert(f(s));
    assert(seq![s].filter(f) =~= seq![s]);
    text::lemma_next_char(s, ':', 0);
    let colon = text::next_char(s, ':', 0);
    assert(s[id.len() as int] == ':');
    assert(colon == id.len()) by {
        if colon < id.len() {
            assert(id.contains(id[colon]));
        }
    }
    text::law_what_is_white(' ');
    text::law_trimming_takes_the_white_space_off(seq![' '], title, none);
    assert(s.skip(colon + 1) =~= seq![' '] + title + none);
    assert(text::lines(none).len() == 0);
    assert(text::lines(none) =~= Seq::<Seq<char>>::empty());
    assert(Seq::<Seq<char>>::empty().filter(f).len() == 0);
}

/// Everything that was decided is shown, and of what waits the card that came first.
pub proof fn law_what_is_shown_of_the_cards(cards: Seq<Card>, n: int, i: int)
    requires
        0 <= i < n <= cards.len(),
    ensures
        cards[i].status != Status::Pending ==> shown_of(cards, n).contains(cards[i]),
        cards[i].status == Status::Pending && (forall|j: int|
            0 <= j < i ==> (#[trigger] cards[j]).status != Status::Pending) ==> shown_of(
            cards,
            n,
        ).contains(cards[i]) && front(cards) == seq![cards[i]],
        shown_of(cards, n).filter(waits()).len() <= 1,
    decreases n,
{
    reveal(Seq::filter);
    let before = shown_of(cards, n - 1);
    let all = shown_of(cards, n);
    let f = waits();
    seqs::lemma_first(cards, f);
    let first = seqs::first(cards, f);
    if cards[i].status == Status::Pending && forall|j: int|
        0 <= j < i ==> (#[trigger] cards[j]).status != Status::Pending {
        seqs::lemma_first_is(cards, f, i);
    }
    lemma_few_wait(cards, n);
    if i < n - 1 {
        law_what_is_shown_of_the_cards(cards, n - 1, i);
        if before.contains(cards[i]) {
            let k = choose|k: int| 0 <= k < before.len() && before[k] == cards[i];
            assert(all[k] == cards[i]);
        }
    } else if all.len() > before.len() {
        assert(all[before.len() as int] == cards[i]);
    }
}

proof fn lemma_few_wait(cards: Seq<Card>, n: int)
    requires
        0 <= n <= cards.len(),
    ensures
        shown_of(cards, n).filter(waits()).len() == if seqs::first(cards, waits()) < n {
            1nat
        } else {
            0nat
        },
    decreases n,
{
    reveal(Seq::filter);
    let f = waits();
    seqs::lemma_first(cards, f);
    if n > 0 {
        lemma_few_wait(cards, n - 1);
        let before = shown_of(cards, n - 1);
        let c = cards[n - 1];
        assert(before.push(c).drop_last() =~= before);
        if f(c) {
            assert(seqs::first(cards, f) <= n - 1);
        }
    }
}

/// A decision is told in one word: a card that waits has none, and a grant is told the same before
/// and after it was used.
pub proof fn law_a_decision_in_a_word()
    ensures
        decision_word(Status::Pending).len() == 0,
        decision_word(Status::Granted) == "allowed"@,
        decision_word(Status::Consumed) == "allowed"@,
        decision_word(Status::Denied) == "denied"@,
        decision_word(Status::Expired) == "expired"@,
{
    reveal_strlit("");
}

/// Allowing for a session adds the rule for that very action, once, where it may be allowed so, and
/// touches neither the mode nor any other rule.
pub proof fn law_a_session_adds_one_rule(
    shelf: approvals::Shelf,
    setting: mind_mode::Setting,
    id: Seq<char>,
    now: int,
)
    ensures
        ({
            let after = rules_after_session(shelf, setting, id, now);
            let r = shelf.records[seqs::first(shelf.records, approvals::called(id))];
            let may = approvals::answer_to_decision(shelf, id, now) is Ok
                && approvals::rule_offered(r.grade, r.purpose);
            &&& after.mode == setting.mode && after.until == setting.until && after.previous
                == setting.previous
            &&& may && !setting.rules.contains((r.app, r.action)) ==> after.rules
                == setting.rules.push((r.app, r.action))
            &&& !may || setting.rules.contains((r.app, r.action)) ==> after.rules == setting.rules
        }),
{
}

/// Asking, spending what was granted and tightening the mode are safe: none of them allows
/// anything.
pub proof fn law_how_the_approvals_actions_are_graded(i: int)
    ensures
        published().len() == 6,
        0 <= i < 6 ==> published()[i].grade == "safe"@,
        published()[0].name == "request_approval"@,
        published()[1].name == "approval_status"@,
        published()[2].name == "consume_approval"@,
        published()[3].name == "set_mind_mode"@,
        published()[4].name == "record_unasked_action"@,
        published()[5].name == "show_mind_audit"@,
{
    let p = published();
    assert(p[0].grade == "safe"@ && p[1].grade == "safe"@ && p[2].grade == "safe"@ && p[3].grade
        == "safe"@ && p[4].grade == "safe"@ && p[5].grade == "safe"@);
}

/// What is put before a person is what the table says to ask, in the caller's words where it has
/// any and in the app's otherwise; in a bypass nothing is.
pub proof fn law_what_is_put_before_a_person(
    w: Wanted,
    grade: &str,
    published_purpose: &str,
    modes: Modes,
    ceiling: &str,
    now: u64,
    r: Response,
)
    requires
        call_ensures(respond, (&w, grade, published_purpose, &modes, ceiling, now), r),
    ensures
        mind_mode::in_force(modes@, now as int) == Mode::Bypass ==> !(r is Ask),
        mind_mode::in_force(modes@, now as int) == Mode::Plan ==> !(r is Ask),
        mind_mode::in_force(modes@, now as int) == Mode::Plan && r is NotNeeded ==> grade@
            == "safe"@,
        r matches Response::Ask { purpose } ==> (text::blank(w.purpose@) ==> purpose@
            == published_purpose@) && (!text::blank(w.purpose@) ==> purpose@ == w.purpose@),
        mind_mode::rank(grade@) is None ==> r is Refused,
{
}

/// A request takes over what it was given, and one without a name is an unnamed caller's.
pub proof fn law_what_a_request_takes_over(args: Json, r: Result<Wanted, String>)
    requires
        call_ensures(wanted, (&args,), r),
    ensures
        r is Ok <==> request_trouble(args@) is None,
        r matches Ok(w) ==> {
            &&& w.app@ == given(args@, "app"@)
            &&& w.action@ == given(args@, "action"@)
            &&& w.grade@ == given(args@, "grade"@)
            &&& w.purpose@ == given(args@, "purpose"@)
            &&& given(args@, "requester"@).len() > 0 ==> w.requester@ == given(args@, "requester"@)
            &&& given(args@, "requester"@).len() == 0 ==> w.requester@ == "an unnamed caller"@
        },
{
}

/// A record of what ran unasked says under which mode, and what came of it, or that it was not
/// reported.
pub proof fn law_what_a_record_says(args: Json, current: Mode, r: Result<Unasked, String>)
    requires
        call_ensures(unasked, (&args, current), r),
    ensures
        r is Ok <==> request_trouble(args@) is None,
        r matches Ok(u) ==> {
            &&& u.app@ == given(args@, "app"@)
            &&& u.action@ == given(args@, "action"@)
            &&& given(args@, "mode"@).len() > 0 ==> u.mode@ == given(args@, "mode"@)
            &&& given(args@, "mode"@).len() == 0 ==> u.mode@ == mind_mode::mode_word(current)
            &&& given(args@, "outcome"@).len() > 0 ==> u.outcome@ == given(args@, "outcome"@)
            &&& given(args@, "outcome"@).len() == 0 ==> u.outcome@ == "not reported"@
        },
{
}

/// Whoever is on the socket is told as this machine knows them, and a borrowed name is told beside
/// it; what cannot be known is told to be unknown, and nothing is made up.
pub proof fn law_who_is_told_to_ask(
    claimed: &str,
    identity: CallerIdentity,
    minds: &[Mind],
    r: Verified,
    nobody: Verified,
)
    requires
        call_ensures(who_is_asking, (claimed, Some(&identity), minds), r),
        call_ensures(who_is_asking, (claimed, None::<&CallerIdentity>, minds), nobody),
    ensures
        r.line@ == caller_identity::line_of(identity@),
        identity@.mind matches Some(m) ==> r.attached_mind@ == m,
        identity@.mind is None ==> r.attached_mind@.len() == 0,
        identity@.recognisable matches Some(f) ==> r.pid == f.pid && r.exe@ == f.exe,
        ({
            let said = caller_identity::borrowed(claimed@, identity@, minds@);
            &&& said.len() == 0 ==> r.discrepancies@.len() == 0
            &&& said.len() > 0 ==> text::strs(r.discrepancies@) == seq![said]
        }),
        nobody.line@ == "could not be identified"@,
        nobody.discrepancies@.len() == 0 && nobody.pid == 0,
{
    assert(text::strs(r.discrepancies@).len() == r.discrepancies@.len());
}

/// The grade that counts is the one the app publishes, whatever the caller says it is.
pub proof fn law_the_published_grade_counts(
    app: &str,
    action: &str,
    claimed: &str,
    inquiry: Inquiry,
    r: Result<Settled, String>,
)
    requires
        call_ensures(settle_grade, (app, action, claimed, &inquiry), r),
    ensures
        r is Ok <==> detail(app@, action@, inquiry) is Ok,
        r matches Ok(s) ==> {
            &&& s.grade@ == detail(app@, action@, inquiry)->Ok_0.0
            &&& s.purpose@ == detail(app@, action@, inquiry)->Ok_0.1
            &&& s.note@.len() == 0 <==> text::lower(text::trim(claimed@)) == text::lower(s.grade@)
        },
{
    if detail(app@, action@, inquiry) is Ok {
        law_a_wrong_grade_is_said(claimed@, detail(app@, action@, inquiry)->Ok_0.0);
    }
}

/// The record of what ran unasked is not put on a screen that is shut.
pub proof fn law_nothing_is_shown_on_a_shut_screen(screen: i32, entries: u64, r: Result<Json, String>)
    requires
        call_ensures(show_mind_audit, (screen, entries), r),
    ensures
        r is Err <==> screen == 0 || screen == 2 || screen == 3 || screen == 32,
{
}

/// Whoever asks over the socket can tighten the mode and nothing more: after it the mode is the one
/// that was named, or what it was, and never a looser one.
pub proof fn law_the_mode_is_only_tightened(
    args: Json,
    modes: &mut Modes,
    now: u64,
    r: Result<Json, String>,
)
    requires
        call_ensures(set_mind_mode, (&args, modes, now), r),
        mind_mode::sound(old(modes)@),
    ensures
        ({
            let before = mind_mode::in_force(old(modes)@, now as int);
            let after = mind_mode::in_force(final(modes)@, now as int);
            let word = given(args@, "mode"@);
            &&& mind_mode::looseness(after) <= mind_mode::looseness(before)
            &&& r is Ok ==> mind_mode::mode_named(word) == Some(after)
            &&& r is Err ==> after == before
            &&& word.len() > 0 && mind_mode::mode_named(word) == Some(Mode::Plan) ==> r is Ok
            &&& mind_mode::mode_named(word) == Some(Mode::Bypass) ==> r is Err
            &&& final(modes)@.rules == old(modes)@.rules
        }),
{
}

/// The window that the person came from gets the screen back, once, however often the shell comes
/// forward meanwhile.
pub proof fn law_the_screen_is_given_back_once(
    first: &mut ScreenOwed,
    second: &mut ScreenOwed,
    third: &mut ScreenOwed,
    front: Option<String>,
    later: Option<String>,
    r: Option<String>,
)
    requires
        old(first)@ is None,
        front is Some,
        call_ensures(ScreenOwed::take, (first, front), ()),
        old(second)@ == final(first)@,
        call_ensures(ScreenOwed::take, (second, later), ()),
        old(third)@ == final(second)@,
        call_ensures(ScreenOwed::give_back, (third,), r),
    ensures
        text::maybe(r) == text::maybe(front),
        final(third)@ is None,
{
}

/// Allowing for a session grants the request that waits, whether or not a rule may stand for it,
/// and says why there is none.
pub proof fn law_a_session_grants_what_waits(
    store: &mut Store,
    modes: &mut Modes,
    id: &str,
    now: u64,
    at: &str,
    r: Result<Option<String>, String>,
)
    requires
        call_ensures(allow_for_session, (store, modes, id, now, at), r),
    ensures
        r is Ok <==> approvals::answer_to_decision(old(store)@, id@, now as int) is Ok,
        r is Err ==> final(modes)@ == old(modes)@,
        r is Ok ==> ({
            let i = seqs::first(old(store)@.records, approvals::called(id@));
            let asked = old(store)@.records[i];
            &&& r->Ok_0 is None <==> approvals::rule_offered(asked.grade, asked.purpose)
            &&& r->Ok_0 is None ==> mind_mode::has_rule(final(modes)@, asked.app, asked.action)
            &&& r->Ok_0 is Some ==> final(modes)@ == old(modes)@
        }),
{
    let i = seqs::first(old(store)@.records, approvals::called(id@));
    let asked = old(store)@.records[i];
    let rules = old(modes)@.rules;
    let one = (asked.app, asked.action);
    assert(rules.push(one)[rules.len() as int] == one);
}

/// The screen is painted once for what it shows: the same again paints nothing.
pub proof fn law_the_same_again_paints_nothing(
    first: &mut Shown,
    second: &mut Shown,
    now: String,
    next: String,
    r: bool,
    q: bool,
)
    requires
        call_ensures(Shown::changed, (first, now), r),
        old(second)@ == final(first)@,
        call_ensures(Shown::changed, (second, next), q),
    ensures
        r <==> old(first)@ != now@,
        q <==> next@ != now@,
{
}

/// A row of what ran unasked says when, what, with what, and what came of it.
pub proof fn law_what_a_row_of_the_record_says(r: AuditRow, e: mind_mode::Audited)
    requires
        audit_row_shows(r, e),
    ensures
        r.at@ == e.at,
        r.what@ == e.app + "."@ + e.action,
        r.outcome@ == e.outcome,
        e.args.len() == 0 ==> r.args@.len() == 0,
        e.args.len() == 1 ==> r.args@ == e.args[0],
        e.args.len() == 2 ==> r.args@ == e.args[0] + "  "@ + e.args[1],
{
    reveal_with_fuel(text::join, 3);
    assert(e.args.len() == 2 ==> e.args.drop_last().drop_last().len() == 0);
}

/// What is told of a mode is its word, and what needs no card is told to be run, under the mode
/// that says so.
pub proof fn law_what_is_told_of_a_mode(
    app: Seq<char>,
    action: Seq<char>,
    grade: Seq<char>,
    mode: Mode,
)
    ensures
        mode_tree(mode)->Object_0[0] == ("mode"@, Tree::Str(mind_mode::mode_word(mode))),
        not_needed(app, action, grade, mode)->Object_0[0] == ("status"@, Tree::Str("not_needed"@)),
        not_needed(app, action, grade, mode)->Object_0[1] == ("app"@, Tree::Str(app)),
        not_needed(app, action, grade, mode)->Object_0[2] == ("action"@, Tree::Str(action)),
        not_needed(app, action, grade, mode)->Object_0[3] == ("grade"@, Tree::Str(grade)),
        not_needed(app, action, grade, mode)->Object_0[4] == (
            "mode"@,
            Tree::Str(mind_mode::mode_word(mode)),
        ),
{
}

/// A request is told to wait two minutes; what became of one is told by its word, and how long a
/// person still has only while it waits; and one that is not there is an error.
pub proof fn law_what_is_told_of_a_request(
    id: &str,
    status: Status,
    age: u64,
    made: Json,
    r: Result<Json, String>,
    none: Result<Json, String>,
)
    requires
        call_ensures(requested_answer, (id, status), made),
        call_ensures(status_answer, (id, Some(status), Some(age)), r),
        call_ensures(status_answer, (id, None::<Status>, Some(age)), none),
    ensures
        made@->Object_0[0] == ("request_id"@, Tree::Str(id@)),
        made@->Object_0[1] == ("status"@, Tree::Str(approvals::status_word(status))),
        made@->Object_0[2] == ("expires_in_secs"@, Tree::Num(json::whole(120))),
        r is Ok,
        r->Ok_0@->Object_0[0] == ("request_id"@, Tree::Str(id@)),
        r->Ok_0@->Object_0[1] == ("status"@, Tree::Str(approvals::status_word(status))),
        r->Ok_0@->Object_0[2] == ("age_secs"@, Tree::Num(json::whole(age))),
        r->Ok_0@->Object_0.len() == if status == Status::Pending { 4int } else { 3int },
        none is Err,
{
}

/// What is spent is what was given: the request, the app, the action and the arguments it binds to.
pub proof fn law_what_is_spent(args: Json, r: Result<Spending, String>)
    requires
        call_ensures(spending, (&args,), r),
    ensures
        r matches Ok(s) ==> s.id@ == given(args@, "request_id"@) && s.app@ == given(args@, "app"@)
            && s.action@ == given(args@, "action"@),
        r matches Ok(s) ==> bound_args(json::field(args@, "args_json"@)) == Ok::<Tree, Seq<char>>(
            s.args@,
        ),
        given(args@, "request_id"@).len() == 0 ==> r is Err,
        bound_args(json::field(args@, "args_json"@)) is Err ==> r is Err,
{
}

/// What ran unasked is shown newest first, the last ten of it, and every rule under its app and its
/// action.
pub proof fn law_what_ran_unasked_is_shown_newest_first(
    list: &[AuditEntry],
    rows: Vec<AuditRow>,
    modes: Modes,
    rules: Vec<MindRule>,
    i: int,
    k: int,
)
    requires
        call_ensures(audit_rows, (list,), rows),
        call_ensures(rule_rows, (&modes,), rules),
        0 <= i < list@.len() && i < 10,
        0 <= k < modes@.rules.len(),
    ensures
        rows@.len() == if list@.len() <= 10 { list@.len() } else { 10 },
        audit_row_shows(rows@[i], list@[list@.len() - 1 - i]@),
        rules@.len() == modes@.rules.len(),
        rules@[k].label@ == modes@.rules[k].0 + "."@ + modes@.rules[k].1,
        rules@[k].app@ == modes@.rules[k].0 && rules@[k].action@ == modes@.rules[k].1,
{
    let all = mind_mode::audits(list@);
    let last = approvals::tail(all, 10);
    assert(rows@.len() == last.len());
    assert(last[last.len() - 1 - i] == all[all.len() - 1 - i]);
    assert(audit_row_shows(rows@[i], last[last.len() - 1 - i]));
}

/// A bypass is not chosen by its word alone, and every other mode is.
pub proof fn law_a_bypass_is_not_a_word(word: &str, r: Option<Mode>)
    requires
        call_ensures(mode_chosen, (word,), r),
    ensures
        r != Some(Mode::Bypass),
        mind_mode::mode_named(word@) != Some(Mode::Bypass) ==> r == mind_mode::mode_named(word@),
{
}

/// A note is told behind what was told before, and an empty one is not told.
pub proof fn law_a_note_is_told_last(v: Verified, note: &str, r: Verified)
    requires
        call_ensures(with_note, (v, note), r),
    ensures
        r.line@ == v.line@ && r.exe@ == v.exe@ && r.pid == v.pid && r.attached_mind@
            == v.attached_mind@,
        note@.len() == 0 ==> text::strs(r.discrepancies@) == text::strs(v.discrepancies@),
        note@.len() > 0 ==> text::strs(r.discrepancies@) == text::strs(v.discrepancies@).push(
            note@,
        ),
{
    assert(text::strs(v.discrepancies@) + seq![note@] =~= text::strs(v.discrepancies@).push(note@));
    assert(text::strs(v.discrepancies@) + Seq::<Seq<char>>::empty() =~= text::strs(
        v.discrepancies@,
    ));
}

/// The screen goes back once nothing waits; until then one card is in front, and the others that
/// wait are counted behind it.
pub proof fn law_who_has_the_screen(cards: &[Card], r: Published, i: int)
    requires
        cards@.len() <= i32::MAX,
        call_ensures(publish, (cards,), r),
    ensures
        r.give_back <==> cards@.filter(waits()).len() == 0,
        r.give_back ==> r.behind == 0,
        !r.give_back ==> r.behind == cards@.filter(waits()).len() - 1,
        0 <= i < cards@.len() && cards@[i].status == Status::Pending ==> !r.give_back,
{
    seqs::lemma_filter_from(cards@, waits());
    if 0 <= i < cards@.len() && cards@[i].status == Status::Pending {
        assert(cards@.contains(cards@[i]));
        assert(waits()(cards@[i]));
        assert(cards@.filter(waits()).contains(cards@[i]));
    }
}

/// Where nothing is known of the process that asks, nothing is told of one: neither a number nor a
/// program.
pub proof fn law_no_process_is_made_up(
    claimed: &str,
    identity: CallerIdentity,
    minds: &[Mind],
    r: Verified,
)
    requires
        call_ensures(who_is_asking, (claimed, Some(&identity), minds), r),
        identity@.recognisable is None,
    ensures
        identity@.direct is None ==> r.pid == 0 && r.exe@.len() == 0,
        identity@.direct matches Some(f) ==> r.pid == f.pid && r.exe@ == f.exe,
{
}

} // verus!
