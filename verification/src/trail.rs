//! The tool trail: the lines a mind writes in its answer when it calls a tool.
//!
//! A trail line starts with a gear. What follows is the tool's name and, as far as the mind says
//! it, what the tool touched and the arguments it was given:
//!
//! * `⚙️ os_act studio.generate {"args":{"prompt":"a red kite"}}` — name, target, arguments;
//! * `⚙️ os_apps` or `⚙️ os_apps...` — a name and nothing more;
//! * `⚙️ os_act(['app', 'action', 'args'])` — the arguments are on the line after it.
//!
//! Anything else after a gear is prose.
use crate::json;
use crate::json::{parse as parse_json, pretty, render, Entry, Json, Tree};
use crate::text;
use crate::text::{
    chars_of, end_of, leading, next_at, part, rest, start_of, trim_start_of, trimmed, word_ends,
};
use vstd::prelude::*;

verus! {

pub const GEAR: char = '\u{2699}';

/// What makes the gear a picture rather than a letter.
pub const PICTURE: char = '\u{fe0f}';

/// A tool call, as the trail tells it.
#[derive(Debug, PartialEq)]
pub struct ToolCall {
    pub name: String,
    /// What the tool touched, such as `notes.create`. Empty where the trail does not say.
    pub target: String,
    /// The arguments it was given, where the trail says.
    pub args: Option<Json>,
}

/// What a [`ToolCall`] says.
pub struct Call {
    pub name: Seq<char>,
    pub target: Seq<char>,
    pub args: Option<Tree>,
}

impl View for ToolCall {
    type V = Call;

    open spec fn view(&self) -> Call {
        Call {
            name: self.name@,
            target: self.target@,
            args: match self.args {
                Some(a) => Some(a@),
                None => None,
            },
        }
    }
}

/// Whether the first visible character is the gear.
pub open spec fn on_trail(line: Seq<char>) -> bool {
    let t = text::trim_start(line);
    t.len() > 0 && t[0] == GEAR
}

/// What follows the gear.
pub open spec fn told(line: Seq<char>) -> Seq<char> {
    text::trim(text::without_leading(text::without_leading(text::trim_start(line), GEAR), PICTURE))
}

pub fn is_trail(line: &str) -> (r: bool)
    ensures
        r == on_trail(line@),
{
    let v = chars_of(line);
    let i = start_of(v.as_slice());
    assert(i < v@.len() ==> text::trim_start(line@)[0] == v@[i as int]);
    i < v.len() && v[i] == GEAR
}

/// What follows the gear of a line.
pub fn after_gear(line: &str) -> (r: String)
    ensures
        r@ == told(line@),
{
    let v = chars_of(trim_start_of(line).as_str());
    let i = leading(v.as_slice(), GEAR);
    let w = chars_of(rest(v.as_slice(), i).as_str());
    let k = leading(w.as_slice(), PICTURE);
    trimmed(rest(w.as_slice(), k).as_str())
}

/// Whether the arguments are on the next line: a name, then its argument names in brackets.
pub open spec fn waits(line: Seq<char>) -> bool {
    let t = told(line);
    let i = text::next_char(t, '(', 0);
    let keys = text::trim_end(t.skip(i + 1));
    &&& i < t.len()
    &&& text::trim(t.take(i)).len() > 0
    &&& !t.take(i).contains(' ')
    &&& keys.len() > 0
    &&& keys.last() == ')'
}

pub fn verbose(line: &str) -> (r: bool)
    ensures
        r == waits(line@),
{
    let t = after_gear(line);
    let v = chars_of(t.as_str());
    let i = next_at(v.as_slice(), '(', 0);
    if i >= v.len() {
        return false;
    }
    let name = part(v.as_slice(), 0, i);
    assert(name@ =~= told(line@).take(i as int));
    let letters = chars_of(name.as_str());
    let space = next_at(letters.as_slice(), ' ', 0);
    proof {
        text::lemma_next_char(name@, ' ', 0);
        assert(name@.contains(' ') <==> space < name@.len()) by {
            if name@.contains(' ') {
                let k = choose|k: int| 0 <= k < name@.len() && name@[k] == ' ';
                assert(name@[k] == ' ');
            } else if space < name@.len() {
                assert(name@[space as int] == ' ');
            }
        }
    }
    let keys = chars_of(rest(v.as_slice(), i + 1).as_str());
    let e = end_of(keys.as_slice());
    let closed = e > 0 && keys[e - 1] == ')';
    assert(e > 0 ==> text::trim_end(keys@).last() == keys@[e - 1]);
    !trimmed(name.as_str()).as_str().is_empty() && space >= letters.len() && closed
}

/// The name of a call told in brackets.
pub open spec fn bracketed_name(line: Seq<char>) -> Seq<char> {
    let t = told(line);
    text::trim(t.take(text::next_char(t, '(', 0)))
}

/// A name without the dots that stand for what is left out.
pub open spec fn without_dots(s: Seq<char>) -> Seq<char>
    decreases s.len(),
{
    if s.len() > 0 && s.last() == '.' {
        without_dots(s.drop_last())
    } else {
        s
    }
}

/// A call of which only the name is told.
pub open spec fn bare(name: Seq<char>) -> Call {
    Call { name, target: Seq::empty(), args: None }
}

pub open spec fn str_field(t: Tree, key: Seq<char>) -> Option<Seq<char>> {
    match json::field(t, key) {
        Some(Tree::Str(s)) => Some(s),
        _ => None,
    }
}

/// A call told with an object: what it touched is named beside it or in it, and the arguments are
/// the object's own `args` where it has them.
pub open spec fn with_object(name: Seq<char>, target: Seq<char>, o: Tree) -> Call {
    Call {
        name,
        target: if target.len() > 0 {
            target
        } else {
            match (str_field(o, "app"@), str_field(o, "action"@)) {
                (Some(app), Some(action)) => app + "."@ + action,
                (Some(app), None) => app,
                _ => Seq::empty(),
            }
        },
        args: match json::field(o, "args"@) {
            Some(a) => Some(a),
            None => Some(o),
        },
    }
}

/// The object a text spells, where it spells one.
pub open spec fn object_in(s: Seq<char>) -> Option<Tree> {
    match json::read(s) {
        Some(Tree::Object(v)) => Some(Tree::Object(v)),
        _ => None,
    }
}

/// The call a line tells, and whether the next line went into it.
pub open spec fn call_on(line: Seq<char>, next: Option<Seq<char>>) -> Option<(Call, bool)> {
    let t = told(line);
    if !on_trail(line) || t.len() == 0 {
        None
    } else if waits(line) {
        match next {
            Some(n) => match object_in(text::trim(n)) {
                Some(o) => Some((with_object(bracketed_name(line), Seq::empty(), o), true)),
                None => Some((bare(bracketed_name(line)), false)),
            },
            None => Some((bare(bracketed_name(line)), false)),
        }
    } else {
        let w = text::word_end(t, 0);
        let name = t.take(w);
        let tail = text::trim_start(t.skip(w));
        if tail.len() == 0 {
            Some((bare(without_dots(name)), false))
        } else if tail[0] == '{' {
            match object_in(tail) {
                Some(o) => Some((with_object(name, Seq::empty(), o), false)),
                None => None,
            }
        } else {
            let w2 = text::word_end(tail, 0);
            let target = tail.take(w2);
            let tail2 = text::trim_start(tail.skip(w2));
            if tail2.len() == 0 {
                Some((Call { name, target, args: None }, false))
            } else if tail2[0] == '{' {
                match object_in(tail2) {
                    Some(o) => Some((with_object(name, target, o), false)),
                    None => None,
                }
            } else {
                None
            }
        }
    }
}

fn object_of(s: &str) -> (r: Option<Json>)
    ensures
        (r matches Some(o) ==> object_in(s@) == Some(o@)),
        r is None ==> object_in(s@) is None,
{
    match parse_json(s) {
        Some(Json::Object(v)) => Some(Json::Object(v)),
        _ => None,
    }
}

fn told_with(name: String, target: String, o: Json) -> (r: ToolCall)
    ensures
        r@ == with_object(name@, target@, o@),
{
    let known = !target.as_str().is_empty();
    let app: Option<&str> = match o.get("app") {
        Some(v) => v.as_str(),
        None => None,
    };
    let action: Option<&str> = match o.get("action") {
        Some(v) => v.as_str(),
        None => None,
    };
    let what = if known {
        target
    } else {
        match (app, action) {
            (Some(app), Some(action)) => {
                let mut t = app.to_owned();
                t.append(".");
                t.append(action);
                t
            },
            (Some(app), None) => app.to_owned(),
            _ => String::new(),
        }
    };
    let args = match o.get("args") {
        Some(a) => a.copy(),
        None => o.copy(),
    };
    ToolCall { name, target: what, args: Some(args) }
}

/// The call a line tells, and whether the next line went into it.
pub fn parse(line: &str, next: Option<&str>) -> (r: Option<(ToolCall, bool)>)
    ensures
        (r matches Some(c) ==> call_on(
            line@,
            match next {
                Some(n) => Some(n@),
                None => None,
            },
        ) == Some((c.0@, c.1))),
        r is None ==> call_on(
            line@,
            match next {
                Some(n) => Some(n@),
                None => None,
            },
        ) is None,
{
    let t = after_gear(line);
    if !is_trail(line) || t.as_str().is_empty() {
        return None;
    }
    let v = chars_of(t.as_str());
    if verbose(line) {
        let i = next_at(v.as_slice(), '(', 0);
        let head = part(v.as_slice(), 0, i);
        assert(head@ =~= v@.take(i as int));
        let name = trimmed(head.as_str());
        if let Some(n) = next {
            if let Some(o) = object_of(trimmed(n).as_str()) {
                return Some((told_with(name, String::new(), o), true));
            }
        }
        return Some((ToolCall { name, target: String::new(), args: None }, false));
    }
    let w = word_ends(v.as_slice(), 0);
    let name = part(v.as_slice(), 0, w);
    assert(name@ =~= v@.take(w as int));
    let tail = trim_start_of(rest(v.as_slice(), w).as_str());
    let u = chars_of(tail.as_str());
    if u.len() == 0 {
        let n = chars_of(name.as_str());
        let mut e: usize = n.len();
        assert(n@.take(e as int) =~= n@);
        while e > 0 && n[e - 1] == '.'
            invariant
                e <= n@.len(),
                n@ == name@,
                without_dots(name@) == without_dots(n@.take(e as int)),
            decreases e,
        {
            assert(n@.take(e as int).drop_last() =~= n@.take(e - 1));
            e -= 1;
        }
        let plain = part(n.as_slice(), 0, e);
        assert(plain@ =~= n@.take(e as int));
        assert(plain@ == without_dots(name@));
        return Some((ToolCall { name: plain, target: String::new(), args: None }, false));
    }
    if u[0] == '{' {
        return match object_of(tail.as_str()) {
            Some(o) => Some((told_with(name, String::new(), o), false)),
            None => None,
        };
    }
    let w2 = word_ends(u.as_slice(), 0);
    let target = part(u.as_slice(), 0, w2);
    assert(target@ =~= u@.take(w2 as int));
    let tail2 = trim_start_of(rest(u.as_slice(), w2).as_str());
    let x = chars_of(tail2.as_str());
    if x.len() == 0 {
        return Some((ToolCall { name, target, args: None }, false));
    }
    if x[0] == '{' {
        return match object_of(tail2.as_str()) {
            Some(o) => Some((told_with(name, target, o), false)),
            None => None,
        };
    }
    None
}

/// ` key=value` for each argument, in the order of the keys.
pub open spec fn pairs(v: Seq<Entry>) -> Seq<char>
    decreases v.len(),
{
    if v.len() == 0 {
        Seq::empty()
    } else {
        pairs(v.drop_last()) + " "@ + v.last().0 + "="@ + json::compact(v.last().1)
    }
}

/// The call in one line.
pub open spec fn one_line(c: Call) -> Seq<char> {
    let head = if c.target.len() > 0 {
        c.name + " "@ + c.target
    } else {
        c.name
    };
    match c.args {
        Some(a) => match json::tidy(a) {
            Tree::Object(v) => head + pairs(v),
            _ => head,
        },
        None => head,
    }
}

impl ToolCall {
    /// The call in one line: its name, what it touched, and its arguments.
    pub fn summary(&self) -> (r: String)
        ensures
            r@ == one_line(self@),
    {
        let mut out = self.name.clone();
        if !self.target.as_str().is_empty() {
            out.append(" ");
            out.append(self.target.as_str());
        }
        match &self.args {
            Some(a) => {
                let tidied = a.tidied();
                let ghost head = out@;
                match &tidied {
                    Json::Object(v) => {
                        proof {
                            json::lemma_tidy_values(a@->Object_0);
                            json::lemma_entries(v@);
                        }
                        let ghost es = json::entries(v@);
                        let mut i: usize = 0;
                        assert(head + pairs(es.take(0)) =~= head);
                        while i < v.len()
                            invariant
                                i <= v@.len(),
                                es == json::entries(v@),
                                es.len() == v@.len(),
                                forall|k: int|
                                    0 <= k < v@.len() ==> #[trigger] es[k] == (v@[k].0@, v@[k].1@),
                                forall|k: int|
                                    0 <= k < v@.len() ==> json::tidy((#[trigger] es[k]).1) == es[k].1,
                                out@ == head + pairs(es.take(i as int)),
                            decreases v@.len() - i,
                        {
                            let ghost earlier = out@;
                            out.append(" ");
                            out.append(v[i].0.as_str());
                            out.append("=");
                            out.append(render(&v[i].1).as_str());
                            i += 1;
                            proof {
                                let t = es.take(i as int);
                                assert(t.drop_last() =~= es.take(i - 1));
                                assert(t.last() == es[i - 1]);
                                assert(out@ =~= head + pairs(t));
                            }
                        }
                        assert(es.take(i as int) =~= es);
                    },
                    _ => {},
                }
            },
            None => {},
        }
        out
    }

    /// The whole arguments, laid out to be read. Empty where the trail does not tell them.
    pub fn detail(&self) -> (r: String)
        ensures
            r@ == match self@.args {
                Some(a) => json::indented(json::tidy(a)),
                None => Seq::empty(),
            },
    {
        match &self.args {
            Some(a) => pretty(a),
            None => String::new(),
        }
    }

    /// The same call, written again.
    pub fn copy(&self) -> (r: ToolCall)
        ensures
            r@ == self@,
    {
        ToolCall {
            name: self.name.clone(),
            target: self.target.clone(),
            args: match &self.args {
                Some(a) => Some(a.copy()),
                None => None,
            },
        }
    }
}

// ── Laws ────────────────────────────────────────────────────────────

/// A line of the trail: a gear, drawn as a picture or not, and what is told behind it, with white
/// space anywhere around.
pub open spec fn trail_line(before: Seq<char>, picture: bool, t: Seq<char>, behind: Seq<char>) -> Seq<
    char,
> {
    before + ((if picture {
        seq!['\u{2699}', '\u{fe0f}', ' ']
    } else {
        seq!['\u{2699}', ' ']
    }) + t) + behind
}

/// Whether a text is one word.
pub open spec fn is_word(s: Seq<char>) -> bool {
    s.len() > 0 && forall|i: int| 0 <= i < s.len() ==> !text::is_white(#[trigger] s[i])
}

proof fn lemma_without_leading(s: Seq<char>, c: char)
    ensures
        s.len() > 0 && s[0] != c ==> text::without_leading(s, c) == s,
        s.len() > 0 && s[0] == c ==> text::without_leading(s, c) == text::without_leading(s.skip(1), c),
{
    if s.len() > 0 && s[0] == c {
        assert(s.drop_first() =~= s.skip(1));
    }
}

/// What is told on a line of the trail is what stands behind the gear.
pub proof fn law_the_gear_goes(before: Seq<char>, picture: bool, t: Seq<char>, behind: Seq<char>)
    requires
        text::all_white(before),
        text::all_white(behind),
        text::neat(t),
    ensures
        on_trail(trail_line(before, picture, t, behind)),
        told(trail_line(before, picture, t, behind)) == t,
{
    let head = if picture {
        seq!['\u{2699}', '\u{fe0f}', ' ']
    } else {
        seq!['\u{2699}', ' ']
    };
    let mid = head + t;
    assert(mid[0] == GEAR && mid.last() == t.last());
    assert(!text::is_white(GEAR));
    text::law_trimming_takes_the_white_space_off(before, mid, behind);
    let line = trail_line(before, picture, t, behind);
    let s = mid + behind;
    assert(text::trim_start(line) == s);
    lemma_without_leading(s, GEAR);
    let one = s.skip(1);
    lemma_without_leading(one, GEAR);
    lemma_without_leading(one, PICTURE);
    let two = one.skip(1);
    lemma_without_leading(two, PICTURE);
    let blank = seq![' '];
    text::law_what_is_white(' ');
    text::law_trimming_takes_the_white_space_off(blank, t, behind);
    if picture {
        assert(one[0] == PICTURE && two[0] == ' ');
        assert(two =~= blank + t + behind);
    } else {
        assert(one[0] == ' ');
        assert(one =~= blank + t + behind);
    }
}

proof fn lemma_first_word(w: Seq<char>, rest: Seq<char>)
    requires
        is_word(w),
        rest.len() == 0 || text::is_white(rest[0]),
    ensures
        text::word_end(w + rest, 0) == w.len(),
        (w + rest).take(w.len() as int) == w,
        (w + rest).skip(w.len() as int) == rest,
{
    let s = w + rest;
    text::lemma_word_end(s, 0);
    let e = text::word_end(s, 0);
    if e < w.len() {
        assert(s[e] == w[e]);
    }
    if e > w.len() {
        assert(s[w.len() as int] == rest[0]);
    }
    assert(s.take(w.len() as int) =~= w);
    assert(s.skip(w.len() as int) =~= rest);
}

proof fn lemma_after_blank(s: Seq<char>)
    requires
        s.len() > 0,
        !text::is_white(s[0]),
    ensures
        text::trim_start(seq![' '] + s) == s,
{
    text::law_what_is_white(' ');
    let t = seq![' '] + s;
    assert(t[0] == ' ');
    assert(t.drop_first() =~= s);
    assert(text::trim_start(s) == s);
}

/// A bracket behind a blank opens no list of names.
proof fn lemma_does_not_wait(line: Seq<char>, w: Seq<char>, rest: Seq<char>)
    requires
        told(line) == w + rest,
        !w.contains('('),
        rest.len() == 0 || rest[0] == ' ',
    ensures
        !waits(line),
{
    let t = w + rest;
    text::lemma_next_char(t, '(', 0);
    let i = text::next_char(t, '(', 0);
    if i < t.len() {
        if i < w.len() {
            assert(w.contains(w[i]));
        } else {
            assert(t[w.len() as int] == rest[0]);
            assert(t.take(i)[w.len() as int] == ' ');
            assert(t.take(i).contains(' '));
        }
    }
}

/// A name alone is a call by that name, however many dots trail behind it.
pub proof fn law_a_name_is_a_call(
    before: Seq<char>,
    picture: bool,
    name: Seq<char>,
    dots: nat,
    behind: Seq<char>,
    next: Option<Seq<char>>,
)
    requires
        text::all_white(before),
        text::all_white(behind),
        is_word(name),
        !name.contains('('),
        name.last() != '.',
    ensures
        call_on(
            trail_line(before, picture, name + Seq::new(dots, |i: int| '.'), behind),
            next,
        ) == Some((Call { name, target: Seq::empty(), args: None }, false)),
{
    let t = name + Seq::new(dots, |i: int| '.');
    assert(is_word(t)) by {
        assert forall|i: int| 0 <= i < t.len() implies !text::is_white(#[trigger] t[i]) by {
            if i < name.len() {
                assert(t[i] == name[i]);
            } else {
                assert(t[i] == '.');
            }
        }
    }
    assert(!t.contains('(')) by {
        if t.contains('(') {
            let i = choose|i: int| 0 <= i < t.len() && t[i] == '(';
            assert(name.contains(name[i]));
        }
    }
    let none = Seq::<char>::empty();
    let line = trail_line(before, picture, t, behind);
    law_the_gear_goes(before, picture, t, behind);
    assert(t + none =~= t);
    lemma_does_not_wait(line, t, none);
    lemma_first_word(t, none);
    assert(text::trim_start(none) == none);
    lemma_dots(name, dots);
}

proof fn lemma_dots(name: Seq<char>, dots: nat)
    requires
        name.len() > 0,
        name.last() != '.',
    ensures
        without_dots(name + Seq::new(dots, |i: int| '.')) == name,
    decreases dots,
{
    let t = name + Seq::new(dots, |i: int| '.');
    if dots == 0 {
        assert(t =~= name);
    } else {
        let fewer = (dots - 1) as nat;
        assert(t.drop_last() =~= name + Seq::new(fewer, |i: int| '.'));
        lemma_dots(name, fewer);
    }
}

/// A name and what it touched are a call of that name on it, and prose behind the two is no call.
pub proof fn law_a_name_and_a_target_are_a_call(
    before: Seq<char>,
    picture: bool,
    name: Seq<char>,
    target: Seq<char>,
    more: Seq<char>,
    behind: Seq<char>,
    next: Option<Seq<char>>,
)
    requires
        text::all_white(before),
        text::all_white(behind),
        is_word(name),
        is_word(target),
        !name.contains('('),
        target[0] != '{',
        text::neat(more),
        more[0] != '{',
    ensures
        call_on(trail_line(before, picture, name + (seq![' '] + target), behind), next) == Some(
            (Call { name, target, args: None }, false),
        ),
        call_on(
            trail_line(
                before,
                picture,
                name + (seq![' '] + (target + (seq![' '] + more))),
                behind,
            ),
            next,
        ) is None,
{
    text::law_what_is_white(' ');
    let none = Seq::<char>::empty();
    let rest = seq![' '] + target;
    let t = name + rest;
    assert(t[0] == name[0] && t.last() == target.last());
    law_the_gear_goes(before, picture, t, behind);
    let line = trail_line(before, picture, t, behind);
    lemma_does_not_wait(line, name, rest);
    lemma_first_word(name, rest);
    lemma_after_blank(target);
    lemma_first_word(target, none);
    assert(target + none =~= target);
    assert(text::trim_start(none) == none);
    let tail = target + (seq![' '] + more);
    let longer = seq![' '] + tail;
    let u = name + longer;
    assert(u[0] == name[0] && u.last() == more.last());
    law_the_gear_goes(before, picture, u, behind);
    let other = trail_line(before, picture, u, behind);
    lemma_does_not_wait(other, name, longer);
    lemma_first_word(name, longer);
    assert(tail[0] == target[0]);
    lemma_after_blank(tail);
    lemma_first_word(target, seq![' '] + more);
    lemma_after_blank(more);
}

/// An object behind the name, with or without what was touched before it, is what the call was
/// given; text in its place that only starts like one makes no call.
pub proof fn law_an_object_is_what_a_call_was_given(
    before: Seq<char>,
    picture: bool,
    name: Seq<char>,
    target: Seq<char>,
    object: Seq<char>,
    behind: Seq<char>,
    next: Option<Seq<char>>,
)
    requires
        text::all_white(before),
        text::all_white(behind),
        is_word(name),
        is_word(target),
        !name.contains('('),
        target[0] != '{',
        text::neat(object),
        object[0] == '{',
    ensures
        ({
            let beside = call_on(
                trail_line(before, picture, name + (seq![' '] + object), behind),
                next,
            );
            let on_it = call_on(
                trail_line(
                    before,
                    picture,
                    name + (seq![' '] + (target + (seq![' '] + object))),
                    behind,
                ),
                next,
            );
            match json::read(object) {
                Some(Tree::Object(v)) => {
                    &&& beside is Some && on_it is Some
                    &&& !(beside->0).1 && !(on_it->0).1
                    &&& (beside->0).0.name == name && (on_it->0).0.name == name
                    &&& (on_it->0).0.target == target
                    &&& (beside->0).0.args == (on_it->0).0.args
                    &&& json::field(Tree::Object(v), "args"@) is Some ==> (on_it->0).0.args
                        == json::field(Tree::Object(v), "args"@)
                    &&& json::field(Tree::Object(v), "args"@) is None ==> (on_it->0).0.args
                        == Some(Tree::Object(v))
                },
                _ => beside is None && on_it is None,
            }
        }),
{
    text::law_what_is_white(' ');
    let rest = seq![' '] + object;
    let t = name + rest;
    assert(t[0] == name[0] && t.last() == object.last());
    law_the_gear_goes(before, picture, t, behind);
    let line = trail_line(before, picture, t, behind);
    lemma_does_not_wait(line, name, rest);
    lemma_first_word(name, rest);
    lemma_after_blank(object);
    let tail = target + (seq![' '] + object);
    let longer = seq![' '] + tail;
    let u = name + longer;
    assert(u[0] == name[0] && u.last() == object.last());
    law_the_gear_goes(before, picture, u, behind);
    let other = trail_line(before, picture, u, behind);
    lemma_does_not_wait(other, name, longer);
    lemma_first_word(name, longer);
    assert(tail[0] == target[0]);
    lemma_after_blank(tail);
    lemma_first_word(target, seq![' '] + object);
    lemma_after_blank(object);
}

/// What was touched, where only the object says it, is its app and action, or its app alone.
pub proof fn law_an_object_says_what_was_touched(
    name: Seq<char>,
    v: Seq<Entry>,
    app: Seq<char>,
    action: Seq<char>,
)
    requires
        json::field(Tree::Object(v), "app"@) == Some(Tree::Str(app)),
    ensures
        json::field(Tree::Object(v), "action"@) == Some(Tree::Str(action)) ==> with_object(
            name,
            Seq::empty(),
            Tree::Object(v),
        ).target == app + "."@ + action,
        !(json::field(Tree::Object(v), "action"@) matches Some(Tree::Str(_))) ==> with_object(
            name,
            Seq::empty(),
            Tree::Object(v),
        ).target == app,
{
}

/// A name with its argument names in brackets takes the object on the next line, and that line with
/// it; with no object there it is a call of which only the name is told, and the line stays.
pub proof fn law_brackets_take_the_next_line(
    before: Seq<char>,
    picture: bool,
    name: Seq<char>,
    keys: Seq<char>,
    behind: Seq<char>,
    next: Option<Seq<char>>,
)
    requires
        text::all_white(before),
        text::all_white(behind),
        is_word(name),
        !name.contains('('),
    ensures
        ({
            let line = trail_line(before, picture, name + (seq!['('] + keys).push(')'), behind);
            match next {
                Some(n) => match json::read(text::trim(n)) {
                    Some(Tree::Object(v)) => {
                        let c = call_on(line, next);
                        &&& c is Some && (c->0).1
                        &&& (c->0).0.name == name
                        &&& json::field(Tree::Object(v), "args"@) is Some ==> (c->0).0.args
                            == json::field(Tree::Object(v), "args"@)
                        &&& json::field(Tree::Object(v), "args"@) is None ==> (c->0).0.args
                            == Some(Tree::Object(v))
                    },
                    _ => call_on(line, next) == Some(
                        (Call { name, target: Seq::empty(), args: None }, false),
                    ),
                },
                None => call_on(line, next) == Some(
                    (Call { name, target: Seq::empty(), args: None }, false),
                ),
            }
        }),
{
    let inner = (seq!['('] + keys).push(')');
    let t = name + inner;
    assert(t[0] == name[0] && t.last() == ')');
    text::law_what_is_white(')');
    law_the_gear_goes(before, picture, t, behind);
    text::lemma_next_char(t, '(', 0);
    let i = text::next_char(t, '(', 0);
    assert(t[name.len() as int] == '(');
    assert(i == name.len()) by {
        if i < name.len() {
            assert(name.contains(name[i]));
        }
    }
    assert(t.take(i) =~= name);
    text::lemma_neat(name);
    assert(!name.contains(' ')) by {
        if name.contains(' ') {
            let k = choose|k: int| 0 <= k < name.len() && name[k] == ' ';
            assert(text::is_white(name[k]));
        }
    }
    let closing = t.skip(i + 1);
    assert(closing.last() == ')');
    assert(text::trim_end(closing) == closing);
}

/// A line whose first printed character is no gear, or with nothing behind the gear, is no call.
pub proof fn law_without_a_gear_no_call(line: Seq<char>, next: Option<Seq<char>>)
    requires
        text::trim_start(line).len() == 0 || text::trim_start(line)[0] != '\u{2699}' || told(
            line,
        ).len() == 0,
    ensures
        call_on(line, next) is None,
{
}

/// A call in one line names the tool, what it touched where that is known, and every argument, in
/// the order of the keys, each as its JSON text.
pub proof fn law_one_line_tells_every_argument(c: Call, v: Seq<Entry>, e: Entry)
    ensures
        c.target.len() == 0 && c.args is None ==> one_line(c) == c.name,
        c.target.len() > 0 && c.args is None ==> one_line(c) == c.name + " "@ + c.target,
        c.args matches Some(a) ==> (json::tidy(a) matches Tree::Object(w) ==> one_line(c)
            == one_line(Call { args: None, ..c }) + pairs(w)),
        pairs(Seq::empty()).len() == 0,
        pairs(v.push(e)) == pairs(v) + " "@ + e.0 + "="@ + json::compact(e.1),
{
    assert(v.push(e).drop_last() =~= v);
}

} // verus!
