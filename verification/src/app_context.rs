//! What the shell starts with: the settings and the configuration read together, the clock told in
//! words, a community theme, and the answers of a chat.
//!
//! What time it is, which zone the machine is on, and what its files hold are the caller's to read.
use crate::config_store;
use crate::json;
use crate::json::{put_last, string, Json, Tree};
use crate::seqs;
use crate::text;
use crate::text::{
    after_last, chars_of, copied, decimal, find_in, fits, is_blank, joined, leading, lines_of, lowered, next_at,
    part, rest, same, trimmed, words_of,
};
use vstd::prelude::*;

verus! {

// ── The clock ───────────────────────────────────────────────────────

/// A number with zeroes before it, to at least so many digits.
pub open spec fn padded(n: nat, width: nat) -> Seq<char> {
    let d = text::dec(n);
    if d.len() >= width {
        d
    } else {
        Seq::new((width - d.len()) as nat, |i: int| '0') + d
    }
}

/// A year, to at least four places.
pub open spec fn year_text(year: int) -> Seq<char> {
    if year < 0 {
        seq!['-'] + padded((-year) as nat, 3)
    } else {
        padded(year as nat, 4)
    }
}

fn pad(n: u64, width: usize) -> (r: String)
    ensures
        r@ == padded(n as nat, width as nat),
{
    let d = decimal(n);
    let v = chars_of(d.as_str());
    if v.len() >= width {
        return d;
    }
    let mut out = String::new();
    let mut i: usize = 0;
    let zeroes: usize = width - v.len();
    assert(out@ =~= Seq::new(0, |i: int| '0'));
    while i < zeroes
        invariant
            i <= zeroes,
            out@ == Seq::new(i as nat, |i: int| '0'),
        decreases zeroes - i,
    {
        out.push('0');
        i += 1;
        assert(out@ =~= Seq::new(i as nat, |i: int| '0'));
    }
    out.append(d.as_str());
    out
}

fn magnitude(n: i64) -> (r: u64)
    ensures
        r == if n < 0 {
            -(n as int)
        } else {
            n as int
        },
{
    if n < 0 {
        (-(n + 1)) as u64 + 1
    } else {
        n as u64
    }
}

fn year_of(year: i64) -> (r: String)
    ensures
        r@ == year_text(year as int),
{
    if year < 0 {
        let mut out = String::new();
        out.push('-');
        assert(out@ =~= seq!['-']);
        out.append(pad(magnitude(year), 3).as_str());
        out
    } else {
        pad(year as u64, 4)
    }
}

/// The time of day, as the top bar shows it.
pub open spec fn hhmm(hour: u32, minute: u32) -> Seq<char> {
    padded(hour as nat, 2) + ":"@ + padded(minute as nat, 2)
}

/// The time of day, as the top bar shows it.
pub fn current_time_hhmm(hour: u32, minute: u32) -> (r: String)
    ensures
        r@ == hhmm(hour, minute),
{
    let mut out = pad(hour as u64, 2);
    out.append(":");
    out.append(pad(minute as u64, 2).as_str());
    out
}

/// A greeting for an hour of the day.
pub open spec fn greeting(hour: u32) -> Seq<char> {
    if 5 <= hour <= 11 {
        "Good morning"@
    } else if 12 <= hour <= 17 {
        "Good afternoon"@
    } else if 18 <= hour <= 21 {
        "Good evening"@
    } else {
        "Good night"@
    }
}

/// A greeting for an hour of the day.
pub fn time_of_day_greeting(hour: u32) -> (r: String)
    ensures
        r@ == greeting(hour),
{
    if 5 <= hour && hour <= 11 {
        "Good morning".to_owned()
    } else if 12 <= hour && hour <= 17 {
        "Good afternoon".to_owned()
    } else if 18 <= hour && hour <= 21 {
        "Good evening".to_owned()
    } else {
        "Good night".to_owned()
    }
}

pub open spec fn day_names() -> Seq<Seq<char>> {
    seq![
        "Sunday"@,
        "Monday"@,
        "Tuesday"@,
        "Wednesday"@,
        "Thursday"@,
        "Friday"@,
        "Saturday"@,
    ]
}

pub open spec fn month_names() -> Seq<Seq<char>> {
    seq![
        "January"@,
        "February"@,
        "March"@,
        "April"@,
        "May"@,
        "June"@,
        "July"@,
        "August"@,
        "September"@,
        "October"@,
        "November"@,
        "December"@,
    ]
}

pub open spec fn short_days() -> Seq<Seq<char>> {
    seq!["Sun"@, "Mon"@, "Tue"@, "Wed"@, "Thu"@, "Fri"@, "Sat"@]
}

pub open spec fn short_months() -> Seq<Seq<char>> {
    seq![
        "Jan"@,
        "Feb"@,
        "Mar"@,
        "Apr"@,
        "May"@,
        "Jun"@,
        "Jul"@,
        "Aug"@,
        "Sep"@,
        "Oct"@,
        "Nov"@,
        "Dec"@,
    ]
}

fn day_name(wday: u32) -> (r: &'static str)
    requires
        wday < 7,
    ensures
        r@ == day_names()[wday as int],
{
    let names: Vec<&'static str> = vec![
        "Sunday", "Monday", "Tuesday", "Wednesday", "Thursday", "Friday", "Saturday",
    ];
    names[wday as usize]
}

fn month_name(mon: u32) -> (r: &'static str)
    requires
        mon < 12,
    ensures
        r@ == month_names()[mon as int],
{
    let names: Vec<&'static str> = vec![
        "January", "February", "March", "April", "May", "June", "July", "August", "September",
        "October", "November", "December",
    ];
    names[mon as usize]
}

fn short_day(wday: u32) -> (r: &'static str)
    requires
        wday < 7,
    ensures
        r@ == short_days()[wday as int],
{
    let names: Vec<&'static str> = vec!["Sun", "Mon", "Tue", "Wed", "Thu", "Fri", "Sat"];
    names[wday as usize]
}

fn short_month(mon: u32) -> (r: &'static str)
    requires
        mon < 12,
    ensures
        r@ == short_months()[mon as int],
{
    let names: Vec<&'static str> = vec![
        "Jan", "Feb", "Mar", "Apr", "May", "Jun", "Jul", "Aug", "Sep", "Oct", "Nov", "Dec",
    ];
    names[mon as usize]
}

/// The date in words, as in "Tuesday, March 4". Days and months count from zero, with Sunday and
/// January first.
pub fn current_date_text(wday: u32, mon: u32, mday: u32) -> (r: String)
    requires
        wday < 7,
        mon < 12,
    ensures
        r@ == day_names()[wday as int] + ", "@ + month_names()[mon as int] + " "@ + text::dec(
            mday as nat,
        ),
{
    let mut out = day_name(wday).to_owned();
    out.append(", ");
    out.append(month_name(mon));
    out.append(" ");
    out.append(decimal(mday as u64).as_str());
    out
}

/// The date in short, as in "Thu 4 Sep".
pub fn current_date_short(wday: u32, mon: u32, mday: u32) -> (r: String)
    requires
        wday < 7,
        mon < 12,
    ensures
        r@ == short_days()[wday as int] + " "@ + text::dec(mday as nat) + " "@
            + short_months()[mon as int],
{
    let mut out = short_day(wday).to_owned();
    out.append(" ");
    out.append(decimal(mday as u64).as_str());
    out.append(" ");
    out.append(short_month(mon));
    out
}

/// One instant, broken down into the local date and time, and the offset that holds then.
pub struct ClockParts {
    pub year: i64,
    pub month: u32,
    pub day: u32,
    pub weekday: u32,
    pub hour: u32,
    pub minute: u32,
    /// Seconds east of UTC.
    pub offset_secs: i64,
}

/// An offset from UTC, with its sign and its minutes.
pub open spec fn offset_words(offset_secs: int) -> Seq<char> {
    let m = if offset_secs < 0 {
        -offset_secs
    } else {
        offset_secs
    };
    let sign = if offset_secs < 0 {
        "-"@
    } else {
        "+"@
    };
    sign + padded((m / 3600) as nat, 2) + ":"@ + padded((m % 3600 / 60) as nat, 2)
}

/// "±HH:MM" from seconds east of UTC. Half-hour and three-quarter-hour zones are real.
pub fn offset_text(offset_secs: i64) -> (r: String)
    ensures
        r@ == offset_words(offset_secs as int),
{
    let m: u64 = magnitude(offset_secs);
    let mut out = if offset_secs < 0 {
        "-".to_owned()
    } else {
        "+".to_owned()
    };
    out.append(pad(m / 3600, 2).as_str());
    out.append(":");
    out.append(pad((m % 3600) / 60, 2).as_str());
    out
}

/// The clock told in full.
pub open spec fn clock_tree(p: ClockParts, zone: Seq<char>) -> Tree {
    Tree::Object(
        seq![
            (
                "date"@,
                Tree::Str(
                    year_text(p.year as int) + "-"@ + padded(p.month as nat, 2) + "-"@ + padded(
                        p.day as nat,
                        2,
                    ),
                ),
            ),
            ("weekday"@, Tree::Str(day_names()[(p.weekday % 7) as int])),
            ("time"@, Tree::Str(hhmm(p.hour, p.minute))),
            ("utc_offset"@, Tree::Str(offset_words(p.offset_secs as int))),
            ("zone"@, Tree::Str(zone)),
        ],
    )
}

/// The clock told in full, from an instant's parts and a zone.
pub fn clock_object(parts: &ClockParts, zone: &str) -> (r: Json)
    ensures
        r@ == clock_tree(*parts, zone@),
{
    let mut date = year_of(parts.year);
    date.append("-");
    date.append(pad(parts.month as u64, 2).as_str());
    date.append("-");
    date.append(pad(parts.day as u64, 2).as_str());
    let mut o: Vec<(String, Json)> = Vec::new();
    put_last(&mut o, "date", Json::Str(date));
    put_last(&mut o, "weekday", string(day_name(parts.weekday % 7)));
    put_last(&mut o, "time", Json::Str(current_time_hhmm(parts.hour, parts.minute)));
    put_last(&mut o, "utc_offset", Json::Str(offset_text(parts.offset_secs)));
    put_last(&mut o, "zone", string(zone));
    assert(json::entries(o@) =~= clock_tree(*parts, zone@)->Object_0);
    Json::Object(o)
}

pub open spec fn zone_marker() -> Seq<char> {
    "zoneinfo/"@
}

/// What stands behind the first `zoneinfo/`, up to another one.
pub open spec fn zone_after(s: Seq<char>) -> Option<Seq<char>> {
    match text::find(s, zone_marker(), 0) {
        None => None,
        Some(i) => {
            let name = s.skip(i + zone_marker().len());
            match text::find(name, zone_marker(), 0) {
                None => Some(name),
                Some(j) => Some(name.take(j)),
            }
        },
    }
}

/// The zone the clock is on, as far as the machine names one.
pub open spec fn zone_of(tz: Option<Seq<char>>, link: Option<Seq<char>>) -> Seq<char> {
    match tz {
        Some(tz) => {
            let name = text::without_leading(text::trim(tz), ':');
            if name.len() == 0 {
                Seq::empty()
            } else {
                match zone_after(name) {
                    Some(zone) => zone,
                    None => name,
                }
            }
        },
        None => match link {
            Some(target) => match zone_after(target) {
                Some(zone) => zone,
                None => Seq::empty(),
            },
            None => Seq::empty(),
        },
    }
}

fn after_zoneinfo(s: &str) -> (r: Option<String>)
    ensures
        match r {
            Some(z) => zone_after(s@) == Some(z@),
            None => zone_after(s@) is None,
        },
{
    let v = chars_of(s);
    let marker = chars_of("zoneinfo/");
    match find_in(v.as_slice(), marker.as_slice(), 0) {
        None => None,
        Some(i) => {
            let whole: usize = v.len();
            assert(i + marker@.len() <= whole);
            let name = rest(v.as_slice(), i + marker.len());
            let w = chars_of(name.as_str());
            match find_in(w.as_slice(), marker.as_slice(), 0) {
                None => Some(name),
                Some(j) => {
                    assert(name@.subrange(0, j as int) =~= name@.take(j as int));
                    Some(part(w.as_slice(), 0, j))
                },
            }
        },
    }
}

/// Which of the machine's zone sayings wins, or that none does, and the answer is nothing.
pub fn zone_name_from(tz_env: Option<&str>, localtime_target: Option<&str>) -> (r: String)
    ensures
        r@ == zone_of(text::maybe_str(tz_env), text::maybe_str(localtime_target)),
{
    if let Some(tz) = tz_env {
        let t = trimmed(tz);
        let v = chars_of(t.as_str());
        let i = leading(v.as_slice(), ':');
        let name = rest(v.as_slice(), i);
        if name.as_str().is_empty() {
            assert(name@ =~= Seq::<char>::empty());
            return name;
        }
        return match after_zoneinfo(name.as_str()) {
            Some(zone) => zone,
            None => name,
        };
    }
    if let Some(target) = localtime_target {
        if let Some(zone) = after_zoneinfo(target) {
            return zone;
        }
    }
    let none = String::new();
    assert(none@ =~= Seq::<char>::empty());
    none
}

// ── A community theme ───────────────────────────────────────────────

pub open spec fn hex_value(c: char) -> Option<int> {
    if '0' <= c <= '9' {
        Some(c as int - '0' as int)
    } else if 'a' <= c <= 'f' {
        Some(c as int - 'a' as int + 10)
    } else if 'A' <= c <= 'F' {
        Some(c as int - 'A' as int + 10)
    } else {
        None
    }
}

/// The byte two characters spell: two digits, or one with a plus before it.
pub open spec fn hex_byte(a: char, b: char) -> Option<int> {
    match hex_value(b) {
        None => None,
        Some(low) => if a == '+' {
            Some(low)
        } else {
            match hex_value(a) {
                None => None,
                Some(high) => Some(16 * high + low),
            }
        },
    }
}

/// A colour: red, green, blue, and how solid it is.
#[derive(Clone, Copy, PartialEq, Eq, Debug, Structural)]
pub struct Rgba {
    pub r: u8,
    pub g: u8,
    pub b: u8,
    pub a: u8,
}

/// The colour a text of `#RRGGBB` or `#RRGGBBAA` spells, however many `#` stand before it.
pub open spec fn colour_in(s: Seq<char>) -> Option<Rgba> {
    let h = text::without_leading(s, '#');
    if h.len() == 6 || h.len() == 8 {
        let r = hex_byte(h[0], h[1]);
        let g = hex_byte(h[2], h[3]);
        let b = hex_byte(h[4], h[5]);
        let a = if h.len() == 8 {
            hex_byte(h[6], h[7])
        } else {
            Some(255)
        };
        if r is Some && g is Some && b is Some && a is Some {
            Some(Rgba { r: r->0 as u8, g: g->0 as u8, b: b->0 as u8, a: a->0 as u8 })
        } else {
            None
        }
    } else {
        None
    }
}

fn hex_of(c: char) -> (r: Option<u8>)
    ensures
        match r {
            Some(n) => hex_value(c) == Some(n as int) && n < 16,
            None => hex_value(c) is None,
        },
{
    let n: u32 = c as u32;
    if '0' <= c && c <= '9' {
        Some((n - 48) as u8)
    } else if 'a' <= c && c <= 'f' {
        Some((n - 87) as u8)
    } else if 'A' <= c && c <= 'F' {
        Some((n - 55) as u8)
    } else {
        None
    }
}

fn byte_of(a: char, b: char) -> (r: Option<u8>)
    ensures
        match r {
            Some(n) => hex_byte(a, b) == Some(n as int),
            None => hex_byte(a, b) is None,
        },
{
    match hex_of(b) {
        None => None,
        Some(low) => {
            if a == '+' {
                Some(low)
            } else {
                match hex_of(a) {
                    None => None,
                    Some(high) => Some(16 * high + low),
                }
            }
        },
    }
}

/// The colour a text spells.
pub fn parse_hex_color(hex: &str) -> (r: Option<Rgba>)
    ensures
        r == colour_in(hex@),
{
    let v = chars_of(hex);
    let i = leading(v.as_slice(), '#');
    let h = chars_of(rest(v.as_slice(), i).as_str());
    if h.len() != 6 && h.len() != 8 {
        return None;
    }
    let r = byte_of(h[0], h[1]);
    let g = byte_of(h[2], h[3]);
    let b = byte_of(h[4], h[5]);
    let a = if h.len() == 8 {
        byte_of(h[6], h[7])
    } else {
        Some(255)
    };
    match (r, g, b, a) {
        (Some(r), Some(g), Some(b), Some(a)) => Some(Rgba { r, g, b, a }),
        _ => None,
    }
}

/// What a theme file says so far: whether it is on, and each colour by name, the last one said.
#[verifier::ext_equal]
pub struct Said {
    pub enabled: bool,
    pub colours: Map<Seq<char>, Seq<char>>,
}

/// A text without the quotation marks around it.
pub open spec fn unquoted(s: Seq<char>) -> Seq<char> {
    without_trailing(text::without_leading(s, '"'), '"')
}

pub open spec fn without_trailing(s: Seq<char>, c: char) -> Seq<char>
    decreases s.len(),
{
    if s.len() > 0 && s.last() == c {
        without_trailing(s.drop_last(), c)
    } else {
        s
    }
}

/// What a theme file says after one more line.
pub open spec fn after_theme_line(said: Said, line: Seq<char>) -> Said {
    let t = text::trim(line);
    let colon = text::next_char(t, ':', 0);
    if t.len() == 0 || t[0] == '#' || colon >= t.len() {
        said
    } else {
        let key = text::trim(t.take(colon));
        let value = unquoted(text::trim(t.skip(colon + 1)));
        if key == "enabled"@ {
            Said { enabled: value == "true"@, ..said }
        } else if value.len() > 0 && value[0] == '#' && key != "name"@ {
            Said { colours: said.colours.insert(key, value), ..said }
        } else {
            said
        }
    }
}

/// What the first `n` lines of a theme file say.
pub open spec fn theme_lines(lines: Seq<Seq<char>>, n: int) -> Said
    decreases n,
{
    if n <= 0 {
        Said { enabled: false, colours: Map::empty() }
    } else {
        after_theme_line(theme_lines(lines, n - 1), lines[n - 1])
    }
}

/// What a theme file says.
pub open spec fn theme_said(content: Seq<char>) -> Said {
    let lines = text::lines(content);
    theme_lines(lines, lines.len() as int)
}

/// The names a theme may give a colour.
pub open spec fn tokens() -> Seq<Seq<char>> {
    seq![
        "bg_deep"@,
        "bg_surface"@,
        "bg_card"@,
        "bg_elevated"@,
        "amber"@,
        "cyan"@,
        "text_primary"@,
        "text_secondary"@,
        "text_dim"@,
        "accent"@,
    ]
}

fn token_names() -> (r: Vec<&'static str>)
    ensures
        r@.len() == tokens().len(),
        forall|i: int| 0 <= i < r@.len() ==> (#[trigger] r@[i])@ == tokens()[i],
{
    vec![
        "bg_deep", "bg_surface", "bg_card", "bg_elevated", "amber", "cyan", "text_primary",
        "text_secondary", "text_dim", "accent",
    ]
}

/// The colour a theme gives to a name.
pub open spec fn token_colour(said: Said, token: Seq<char>) -> Option<Rgba> {
    if said.colours.contains_key(token) {
        colour_in(said.colours[token])
    } else {
        None
    }
}

/// A theme that is on: a colour for each name in order, where it gives one, and how many it names.
pub struct Theme {
    pub colours: Vec<Option<Rgba>>,
    pub named: usize,
}

fn ends_at(v: &[char], c: char) -> (i: usize)
    ensures
        i <= v@.len(),
        v@.take(i as int) == without_trailing(v@, c),
{
    let mut i: usize = v.len();
    assert(v@.take(i as int) =~= v@);
    while i > 0 && v[i - 1] == c
        invariant
            i <= v@.len(),
            without_trailing(v@.take(i as int), c) == without_trailing(v@, c),
        decreases i,
    {
        assert(v@.take(i as int).drop_last() =~= v@.take(i - 1));
        i -= 1;
    }
    i
}

fn unquote(s: &str) -> (r: String)
    ensures
        r@ == unquoted(s@),
{
    let v = chars_of(s);
    let i = leading(v.as_slice(), '"');
    let w = chars_of(rest(v.as_slice(), i).as_str());
    let k = ends_at(w.as_slice(), '"');
    assert(w@.subrange(0, k as int) =~= w@.take(k as int));
    part(w.as_slice(), 0, k)
}

/// What names stand for, the last one said.
pub open spec fn as_map(v: Seq<(String, String)>) -> Map<Seq<char>, Seq<char>>
    decreases v.len(),
{
    if v.len() == 0 {
        Map::empty()
    } else {
        as_map(v.drop_last()).insert(v.last().0@, v.last().1@)
    }
}

/// No name stands twice.
spec fn once_each(v: Seq<(String, String)>) -> bool {
    forall|i: int, j: int| 0 <= i < j < v.len() ==> (#[trigger] v[i]).0@ != (#[trigger] v[j]).0@
}

proof fn lemma_as_map(v: Seq<(String, String)>)
    requires
        once_each(v),
    ensures
        as_map(v).dom().finite(),
        as_map(v).len() == v.len(),
        forall|i: int|
            0 <= i < v.len() ==> as_map(v).contains_key((#[trigger] v[i]).0@) && as_map(v)[v[i].0@]
                == v[i].1@,
        forall|k: Seq<char>| #[trigger]
            as_map(v).contains_key(k) ==> exists|i: int| 0 <= i < v.len() && (#[trigger] v[i]).0@ == k,
    decreases v.len(),
{
    if v.len() > 0 {
        let t = v.drop_last();
        assert(once_each(t)) by {
            assert forall|i: int, j: int| 0 <= i < j < t.len() implies (#[trigger] t[i]).0@ != (
            #[trigger] t[j]).0@ by {
                assert(v[i].0@ != v[j].0@);
            }
        }
        lemma_as_map(t);
        let key = v.last().0@;
        assert(!as_map(t).contains_key(key)) by {
            if as_map(t).contains_key(key) {
                let i = choose|i: int| 0 <= i < t.len() && (#[trigger] t[i]).0@ == key;
                assert(v[i].0@ != v[v.len() - 1].0@);
            }
        }
        assert forall|i: int| 0 <= i < v.len() implies as_map(v).contains_key((#[trigger] v[i]).0@)
            && as_map(v)[v[i].0@] == v[i].1@ by {
            if i < t.len() {
                assert(t[i] == v[i]);
                assert(v[i].0@ != v[v.len() - 1].0@);
            }
        }
        assert forall|k: Seq<char>| #[trigger] as_map(v).contains_key(k) implies exists|i: int|
            0 <= i < v.len() && (#[trigger] v[i]).0@ == k by {
            if k == key {
                assert(v[v.len() - 1].0@ == k);
            } else {
                assert(as_map(t).contains_key(k));
                let i = choose|i: int| 0 <= i < t.len() && (#[trigger] t[i]).0@ == k;
                assert(v[i].0@ == k);
            }
        }
    }
}

fn index_of(v: &Vec<(String, String)>, key: &str) -> (r: Option<usize>)
    ensures
        match r {
            Some(i) => i < v@.len() && v@[i as int].0@ == key@,
            None => forall|i: int| 0 <= i < v@.len() ==> (#[trigger] v@[i]).0@ != key@,
        },
{
    let mut i: usize = 0;
    while i < v.len()
        invariant
            i <= v@.len(),
            forall|k: int| 0 <= k < i ==> (#[trigger] v@[k]).0@ != key@,
        decreases v@.len() - i,
    {
        if same(v[i].0.as_str(), key) {
            return Some(i);
        }
        i += 1;
    }
    None
}

fn say(v: &mut Vec<(String, String)>, key: String, value: String)
    requires
        once_each(old(v)@),
    ensures
        once_each(final(v)@),
        as_map(final(v)@) == as_map(old(v)@).insert(key@, value@),
{
    let ghost was = v@;
    let ghost k = key@;
    let ghost x = value@;
    match index_of(v, key.as_str()) {
        Some(i) => {
            v.set(i, (key, value));
            proof {
                assert(once_each(v@)) by {
                    assert forall|a: int, b: int| 0 <= a < b < v@.len() implies (
                    #[trigger] v@[a]).0@ != (#[trigger] v@[b]).0@ by {
                        assert(was[a].0@ != was[b].0@);
                    }
                }
                lemma_as_map(was);
                lemma_as_map(v@);
                let m = as_map(v@);
                let n = as_map(was).insert(k, x);
                assert forall|q: Seq<char>| m.contains_key(q) == n.contains_key(q) by {
                    if m.contains_key(q) {
                        let a = choose|a: int| 0 <= a < v@.len() && (#[trigger] v@[a]).0@ == q;
                        assert(was[a].0@ == q);
                    }
                    if n.contains_key(q) {
                        if q == k {
                            assert(v@[i as int].0@ == q);
                        } else {
                            let a = choose|a: int| 0 <= a < was.len() && (#[trigger] was[a]).0@ == q;
                            assert(v@[a].0@ == q);
                        }
                    }
                }
                assert forall|q: Seq<char>| m.contains_key(q) implies m[q] == n[q] by {
                    let a = choose|a: int| 0 <= a < v@.len() && (#[trigger] v@[a]).0@ == q;
                    if a == i {
                        assert(v@[a].1@ == x);
                    } else {
                        assert(was[a] == v@[a]);
                        assert(was[a].0@ == q);
                        if a < i {
                            assert(was[a].0@ != was[i as int].0@);
                        } else {
                            assert(was[i as int].0@ != was[a].0@);
                        }
                    }
                }
                assert(m =~= n);
            }
        },
        None => {
            v.push((key, value));
            proof {
                assert(v@.drop_last() =~= was);
            }
        },
    }
}

/// The theme a file asks for, where it is on.
pub fn theme_overrides(content: &str) -> (r: Option<Theme>)
    ensures
        ({
            let said = theme_said(content@);
            match r {
                Some(theme) => {
                    &&& said.enabled
                    &&& theme.named == said.colours.len()
                    &&& theme.colours@ == Seq::new(
                        tokens().len(),
                        |i: int| token_colour(said, tokens()[i]),
                    )
                },
                None => !said.enabled,
            }
        }),
{
    let lines = lines_of(content);
    let ghost ls = text::lines(content@);
    let mut enabled = false;
    let mut colours: Vec<(String, String)> = Vec::new();
    let mut i: usize = 0;
    assert(as_map(colours@) =~= Map::empty());
    while i < lines.len()
        invariant
            i <= lines@.len(),
            text::strs(lines@) == ls,
            once_each(colours@),
            theme_lines(ls, i as int) == (Said { enabled, colours: as_map(colours@) }),
        decreases lines@.len() - i,
    {
        let t = trimmed(lines[i].as_str());
        assert(t@ == text::trim(ls[i as int]));
        let v = chars_of(t.as_str());
        let ghost said = theme_lines(ls, i as int);
        if v.len() > 0 && v[0] != '#' {
            let colon = next_at(v.as_slice(), ':', 0);
            if colon < v.len() {
                assert(v@.subrange(0, colon as int) =~= v@.take(colon as int));
                let key = trimmed(part(v.as_slice(), 0, colon).as_str());
                let value = unquote(trimmed(rest(v.as_slice(), colon + 1).as_str()).as_str());
                let w = chars_of(value.as_str());
                if same(key.as_str(), "enabled") {
                    enabled = same(value.as_str(), "true");
                } else if w.len() > 0 && w[0] == '#' && !same(key.as_str(), "name") {
                    say(&mut colours, key, value);
                }
            }
        }
        i += 1;
    }
    if !enabled {
        return None;
    }
    proof {
        lemma_as_map(colours@);
    }
    let ghost said = theme_said(content@);
    let names = token_names();
    let mut out: Vec<Option<Rgba>> = Vec::new();
    let mut k: usize = 0;
    while k < names.len()
        invariant
            k <= names@.len(),
            names@.len() == tokens().len(),
            forall|i: int| 0 <= i < names@.len() ==> (#[trigger] names@[i])@ == tokens()[i],
            once_each(colours@),
            said.colours == as_map(colours@),
            out@.len() == k,
            forall|i: int|
                0 <= i < k ==> #[trigger] out@[i] == token_colour(said, tokens()[i]),
        decreases names@.len() - k,
    {
        proof {
            lemma_as_map(colours@);
            assert(names@[k as int]@ == tokens()[k as int]);
        }
        match index_of(&colours, names[k]) {
            Some(j) => {
                out.push(parse_hex_color(colours[j].1.as_str()));
            },
            None => {
                out.push(None);
            },
        }
        k += 1;
    }
    assert(out@ =~= Seq::new(tokens().len(), |i: int| token_colour(said, tokens()[i])));
    Some(Theme { colours: out, named: colours.len() })
}

// ── Starting up ─────────────────────────────────────────────────────

/// A clipboard operation of the file browser.
#[derive(Clone, Debug)]
pub enum FileClipOp {
    Copy { src_dir: String, name: String },
    Cut { src_dir: String, name: String },
}

/// What a person has chosen, as it was kept.
pub struct Saved {
    pub dark_mode: bool,
    pub tool_permission: String,
    pub auto_lock_secs: i32,
    pub dnd_mode: bool,
    pub accent_color: String,
    pub wallpaper: String,
    pub user_name: String,
    pub companion_name: String,
}

/// What the companion is configured as.
pub struct Config {
    pub user_name: String,
    pub companion_name: String,
    pub hub_repo: String,
    pub max_context_tokens: u64,
    pub max_tokens: u64,
    pub backend: String,
    pub api_base_url: Option<String>,
    /// The endpoint that will be used, once everything that says so is read.
    pub resolved_api_base_url: Option<String>,
    pub api_model: Option<String>,
    /// The backends that answer from elsewhere and are shown by name.
    pub clouds: Vec<Cloud>,
}

/// A backend that answers from elsewhere: what it is configured as, and what it is called.
pub struct Cloud {
    pub backend: String,
    pub name: String,
}

/// The desktop's background.
pub enum Wallpaper {
    /// One the shell draws.
    Preset(String),
    /// A picture in a file, which has to be loaded.
    File(String),
}

pub open spec fn is_preset(s: Seq<char>) -> bool {
    ||| s == "serenity"@
    ||| s == "first-light"@
    ||| s == "nightfall"@
    ||| s == "aurora"@
    ||| s == "sunset"@
    ||| s == "ocean"@
    ||| s == "nebula"@
}

/// What background a machine starts with: a scene where nothing was chosen.
pub fn wallpaper(saved: &str) -> (r: Wallpaper)
    ensures
        if saved@.len() == 0 {
            r matches Wallpaper::Preset(p) && p@ == "serenity"@
        } else if is_preset(saved@) {
            r matches Wallpaper::Preset(p) && p@ == saved@
        } else {
            r matches Wallpaper::File(p) && p@ == saved@
        },
{
    if saved.is_empty() {
        return Wallpaper::Preset("serenity".to_owned());
    }
    if same(saved, "serenity") || same(saved, "first-light") || same(saved, "nightfall") || same(
        saved,
        "aurora",
    ) || same(saved, "sunset") || same(saved, "ocean") || same(saved, "nebula") {
        Wallpaper::Preset(saved.to_owned())
    } else {
        Wallpaper::File(saved.to_owned())
    }
}

/// What background is shown once a picture was loaded, or could not be: none, then.
pub fn picture_shown(saved: &str, loaded: bool) -> (r: String)
    ensures
        r@ == if loaded {
            saved@
        } else {
            ""@
        },
{
    if loaded {
        saved.to_owned()
    } else {
        "".to_owned()
    }
}

/// A name a person chose, or the one that is configured.
pub open spec fn chosen(saved: Seq<char>, configured: Seq<char>) -> Seq<char> {
    if saved.len() > 0 {
        saved
    } else {
        configured
    }
}

fn choose_name(saved: &str, configured: &str) -> (r: String)
    ensures
        r@ == chosen(saved@, configured@),
{
    if saved.is_empty() {
        configured.to_owned()
    } else {
        saved.to_owned()
    }
}

/// What a model is called: by its id, or by the last part of the repository it is in.
pub open spec fn model_name(c: Config) -> Option<Seq<char>> {
    match c.api_model {
        Some(m) if !text::blank(m@) => Some(m@),
        _ => {
            let repo = text::trim(c.hub_repo@);
            if repo.len() == 0 {
                None
            } else {
                Some(repo.skip(text::last_char(repo, '/') + 1))
            }
        },
    }
}

pub open spec fn has_backend(backend: Seq<char>) -> spec_fn(Cloud) -> bool {
    |c: Cloud| c.backend@ == backend
}

/// What is answering, as the status bar says it. A service elsewhere is named, because which one it
/// is is the question that is asked.
pub open spec fn provider(c: Config) -> Option<Seq<char>> {
    let i = seqs::first(c.clouds@, has_backend(text::lower(c.backend@)));
    match model_name(c) {
        None => None,
        Some(model) => Some(
            if i < c.clouds@.len() {
                c.clouds@[i].name@ + " \u{b7} "@ + model
            } else {
                model
            },
        ),
    }
}

fn model_of(c: &Config) -> (r: Option<String>)
    ensures
        match r {
            Some(m) => model_name(*c) == Some(m@),
            None => model_name(*c) is None,
        },
{
    if let Some(m) = &c.api_model {
        if !is_blank(m.as_str()) {
            return Some(m.clone());
        }
    }
    let repo = trimmed(c.hub_repo.as_str());
    if repo.as_str().is_empty() {
        return None;
    }
    let v = chars_of(repo.as_str());
    let i = after_last(v.as_slice(), '/');
    Some(rest(v.as_slice(), i))
}

/// What is answering, as the status bar says it.
pub fn provider_label(c: &Config) -> (r: Option<String>)
    ensures
        match r {
            Some(l) => provider(*c) == Some(l@),
            None => provider(*c) is None,
        },
{
    let backend = lowered(c.backend.as_str());
    match model_of(c) {
        None => None,
        Some(model) => {
            let ghost f = has_backend(backend@);
            let mut i: usize = 0;
            while i < c.clouds.len()
                invariant
                    i <= c.clouds@.len(),
                    f == has_backend(backend@),
                    backend@ == text::lower(c.backend@),
                    model_name(*c) == Some(model@),
                    seqs::first(c.clouds@, f) == seqs::first_from(c.clouds@, f, i as int),
                decreases c.clouds@.len() - i,
            {
                if same(c.clouds[i].backend.as_str(), backend.as_str()) {
                    let mut out = c.clouds[i].name.clone();
                    out.append(" \u{b7} ");
                    out.append(model.as_str());
                    return Some(out);
                }
                i += 1;
            }
            Some(model)
        },
    }
}

/// Whether a line of the display tool's report names a resolution.
pub open spec fn names_resolution() -> spec_fn(Seq<char>) -> bool {
    |line: Seq<char>|
        {
            let t = text::trim(line);
            t.contains('x') && t.len() > 0 && text::is_digit(t[0])
        }
}

/// The resolution a report names first.
pub open spec fn resolution_in(report: Seq<char>) -> Option<Seq<char>> {
    let lines = text::lines(report);
    let i = seqs::first(lines, names_resolution());
    if i < lines.len() {
        first_word(text::trim(lines[i]))
    } else {
        None
    }
}

pub open spec fn first_word(s: Seq<char>) -> Option<Seq<char>> {
    let w = text::words(s);
    if w.len() > 0 {
        Some(w[0])
    } else {
        None
    }
}

fn has_char(v: &[char], c: char) -> (r: bool)
    ensures
        r == v@.contains(c),
{
    let i = next_at(v, c, 0);
    proof {
        text::lemma_next_char(v@, c, 0);
        if v@.contains(c) {
            let k = choose|k: int| 0 <= k < v@.len() && v@[k] == c;
            if i >= v@.len() {
                assert(v@[k] != c);
            }
        }
    }
    i < v.len()
}

/// The first word of a text: the address a report of addresses names first.
pub fn first_word_of(s: &str) -> (r: Option<String>)
    ensures
        match r {
            Some(w) => first_word(s@) == Some(w@),
            None => first_word(s@) is None,
        },
{
    let words = words_of(s);
    assert(text::strs(words@).len() == words@.len());
    if words.len() == 0 {
        return None;
    }
    assert(text::strs(words@)[0] == words@[0]@);
    Some(words[0].clone())
}

/// The resolution the display tool's report names first.
pub fn display_resolution(report: &str) -> (r: Option<String>)
    ensures
        match r {
            Some(w) => resolution_in(report@) == Some(w@),
            None => resolution_in(report@) is None,
        },
{
    let lines = lines_of(report);
    let ghost ls = text::lines(report@);
    let ghost f = names_resolution();
    let mut i: usize = 0;
    while i < lines.len()
        invariant
            i <= lines@.len(),
            text::strs(lines@) == ls,
            ls == text::lines(report@),
            f == names_resolution(),
            seqs::first(ls, f) == seqs::first_from(ls, f, i as int),
        decreases lines@.len() - i,
    {
        let t = trimmed(lines[i].as_str());
        assert(t@ == text::trim(ls[i as int]));
        let v = chars_of(t.as_str());
        if has_char(v.as_slice(), 'x') && v.len() > 0 && '0' <= v[0] && v[0] <= '9' {
            return first_word_of(t.as_str());
        }
        i += 1;
    }
    None
}

/// What the screens show first.
pub struct FirstLook {
    pub dark: bool,
    pub tool_permission: String,
    pub auto_lock_secs: i32,
    pub do_not_disturb: bool,
    pub accent: String,
    pub wallpaper: Wallpaper,
    pub greeting: String,
    pub user_name: String,
    pub companion_name: String,
    pub model: String,
    pub max_context: i32,
    pub max_tokens: i32,
    pub backend: String,
    pub api_url: Option<String>,
    pub api_model: Option<String>,
    pub provider: Option<String>,
}

/// The state the shell's parts share.
pub struct AppContext {
    pub user_name: String,
    pub companion_name: String,
    pub config_path: Option<String>,
    /// The endpoint that first-boot probes test.
    pub llm_base_url: Option<String>,
    pub browser_path: String,
    pub browser_show_hidden: bool,
    pub file_clipboard: Option<FileClipOp>,
    pub browser_history_back: Vec<String>,
    pub browser_history_forward: Vec<String>,
    pub browser_sort_field: String,
    pub browser_sort_ascending: bool,
    pub browser_filter: String,
    pub browser_multi_selection: Vec<usize>,
    pub editor_file_path: String,
    pub terminal_active: usize,
}

/// What the screens show first, given what was kept, what is configured, and the hour.
pub open spec fn looks(f: FirstLook, saved: Saved, config: Config, hour: u32) -> bool {
    &&& f.dark == saved.dark_mode
    &&& f.tool_permission@ == saved.tool_permission@
    &&& f.auto_lock_secs == saved.auto_lock_secs
    &&& f.do_not_disturb == saved.dnd_mode
    &&& f.accent@ == saved.accent_color@
    &&& if saved.wallpaper@.len() == 0 {
        f.wallpaper matches Wallpaper::Preset(p) && p@ == "serenity"@
    } else if is_preset(saved.wallpaper@) {
        f.wallpaper matches Wallpaper::Preset(p) && p@ == saved.wallpaper@
    } else {
        f.wallpaper matches Wallpaper::File(p) && p@ == saved.wallpaper@
    }
    &&& f.greeting@ == greeting(hour) + ", "@ + config.user_name@
    &&& f.user_name@ == chosen(saved.user_name@, config.user_name@)
    &&& f.companion_name@ == chosen(saved.companion_name@, config.companion_name@)
    &&& f.model@ == config.hub_repo@
    &&& f.max_context == config.max_context_tokens as i32
    &&& f.max_tokens == config.max_tokens as i32
    &&& f.backend@ == config.backend@
    &&& text::maybe(f.api_url) == text::maybe(config.resolved_api_base_url)
    &&& text::maybe(f.api_model) == text::maybe(config.api_model)
    &&& text::maybe(f.provider) == provider(config)
}

impl AppContext {
    /// What the shell starts with: the names a person chose go before the ones that are
    /// configured, the file browser is at home, sorted by name, with nothing picked out.
    pub fn init(saved: &Saved, config: &Config, config_path: Option<String>, hour: u32) -> (r: (
        AppContext,
        FirstLook,
    ))
        ensures
            looks(r.1, *saved, *config, hour),
            r.0.user_name@ == chosen(saved.user_name@, config.user_name@),
            r.0.companion_name@ == chosen(saved.companion_name@, config.companion_name@),
            text::maybe(r.0.config_path) == text::maybe(config_path),
            text::maybe(r.0.llm_base_url) == text::maybe(config.api_base_url),
            r.0.browser_path@ == "~"@,
            !r.0.browser_show_hidden,
            r.0.file_clipboard is None,
            r.0.browser_history_back@.len() == 0,
            r.0.browser_history_forward@.len() == 0,
            r.0.browser_sort_field@ == "name"@,
            r.0.browser_sort_ascending,
            r.0.browser_filter@.len() == 0,
            r.0.browser_multi_selection@.len() == 0,
            r.0.editor_file_path@.len() == 0,
            r.0.terminal_active == 0,
    {
        let mut hello = time_of_day_greeting(hour);
        hello.append(", ");
        hello.append(config.user_name.as_str());
        let user_name = choose_name(saved.user_name.as_str(), config.user_name.as_str());
        let companion_name = choose_name(
            saved.companion_name.as_str(),
            config.companion_name.as_str(),
        );
        let look = FirstLook {
            dark: saved.dark_mode,
            tool_permission: saved.tool_permission.clone(),
            auto_lock_secs: saved.auto_lock_secs,
            do_not_disturb: saved.dnd_mode,
            accent: saved.accent_color.clone(),
            wallpaper: wallpaper(saved.wallpaper.as_str()),
            greeting: hello,
            user_name: user_name.clone(),
            companion_name: companion_name.clone(),
            model: config.hub_repo.clone(),
            max_context: #[verifier::truncate]
            (config.max_context_tokens as i32),
            max_tokens: #[verifier::truncate]
            (config.max_tokens as i32),
            backend: config.backend.clone(),
            api_url: copied(&config.resolved_api_base_url),
            api_model: copied(&config.api_model),
            provider: provider_label(config),
        };
        let context = AppContext {
            user_name,
            companion_name,
            config_path,
            llm_base_url: copied(&config.api_base_url),
            browser_path: "~".to_owned(),
            browser_show_hidden: false,
            file_clipboard: None,
            browser_history_back: Vec::new(),
            browser_history_forward: Vec::new(),
            browser_sort_field: "name".to_owned(),
            browser_sort_ascending: true,
            browser_filter: String::new(),
            browser_multi_selection: Vec::new(),
            editor_file_path: String::new(),
            terminal_active: 0,
        };
        (context, look)
    }
}

// ── Chat ────────────────────────────────────────────────────────────

/// How much of a conversation goes with a message.
pub const CONTEXT_LINES: usize = 6;

/// The last lines of a conversation.
pub open spec fn latest(context: Seq<Seq<char>>) -> Seq<Seq<char>> {
    if context.len() <= CONTEXT_LINES {
        context
    } else {
        context.skip(context.len() - CONTEXT_LINES)
    }
}

/// What is asked of the mind when a message comes in.
pub open spec fn prompt(message: Seq<char>, context: Seq<Seq<char>>) -> Seq<char> {
    if context.len() == 0 {
        message
    } else {
        "[Chat context]\n"@ + text::join(latest(context), "\n"@) + "\n\n[Latest message]\n"@
            + message
    }
}

/// What is asked of the mind when a message comes in.
pub fn chat_prompt(message: &str, context: &[String]) -> (r: String)
    ensures
        r@ == prompt(message@, text::strs(context@)),
{
    if context.len() == 0 {
        return message.to_owned();
    }
    let total: usize = context.len();
    let from: usize = if total <= CONTEXT_LINES {
        0
    } else {
        total - CONTEXT_LINES
    };
    let mut last: Vec<String> = Vec::new();
    let mut i: usize = from;
    while i < total
        invariant
            from <= i <= total,
            total == context@.len(),
            last@.len() == i - from,
            forall|k: int| 0 <= k < i - from ==> (#[trigger] last@[k])@ == context@[from + k]@,
        decreases total - i,
    {
        last.push(context[i].clone());
        i += 1;
    }
    assert(text::strs(last@) =~= latest(text::strs(context@)));
    let mut out = "[Chat context]\n".to_owned();
    out.append(joined(last.as_slice(), "\n").as_str());
    out.append("\n\n[Latest message]\n");
    out.append(message);
    out
}

/// An answer as it comes in.
pub struct Reply {
    text: String,
    replacing: bool,
    done: bool,
}

/// What an answer holds.
#[verifier::ext_equal]
pub struct Answer {
    pub text: Seq<char>,
    /// Whether what comes next replaces what there is.
    pub replacing: bool,
    pub done: bool,
}

impl View for Reply {
    type V = Answer;

    closed spec fn view(&self) -> Answer {
        Answer { text: self.text@, replacing: self.replacing, done: self.done }
    }
}

/// An answer after one more piece.
pub open spec fn after_piece(a: Answer, piece: Seq<char>) -> Answer {
    if a.done {
        a
    } else if piece == "__DONE__"@ {
        Answer { done: true, ..a }
    } else if piece == "__REPLACE__"@ {
        Answer { text: Seq::empty(), replacing: true, ..a }
    } else if a.replacing {
        Answer { text: piece, replacing: false, ..a }
    } else {
        Answer { text: a.text + piece, ..a }
    }
}

/// What is answered: nothing where there is nothing to say, and otherwise what was said, cut to
/// what is allowed, dots and all. The dots stand even where there is no room for them.
pub open spec fn reply_text(said: Seq<char>, max: Option<usize>) -> Option<Seq<char>> {
    if said.len() == 0 {
        None
    } else {
        match max {
            Some(max) if config_store::byte_len(said) > max => {
                let room = if max >= 3 {
                    (max - 3) as usize
                } else {
                    0usize
                };
                Some(said.take(text::fitting(said, room as int) as int) + "..."@)
            },
            _ => Some(said),
        }
    }
}

impl Reply {
    pub fn new() -> (r: Reply)
        ensures
            r@ == (Answer { text: Seq::empty(), replacing: false, done: false }),
    {
        let r = Reply { text: String::new(), replacing: false, done: false };
        assert(r@ =~= Answer { text: Seq::empty(), replacing: false, done: false });
        r
    }

    /// One more piece came in. Says whether more is to come.
    pub fn piece(&mut self, piece: &str) -> (r: bool)
        ensures
            final(self)@ == after_piece(old(self)@, piece@),
            r == !final(self)@.done,
    {
        if self.done {
            return false;
        }
        if same(piece, "__DONE__") {
            self.done = true;
            return false;
        }
        if same(piece, "__REPLACE__") {
            self.text = String::new();
            self.replacing = true;
            assert(self.text@ =~= Seq::<char>::empty());
            return true;
        }
        if self.replacing {
            self.text = piece.to_owned();
            self.replacing = false;
        } else {
            let mut text = self.text.clone();
            text.append(piece);
            self.text = text;
        }
        true
    }

    /// What is answered, cut where it is longer than the limit in bytes.
    pub fn finish(&self, max_reply_length: Option<usize>) -> (r: Option<String>)
        ensures
            text::maybe(r) == reply_text(self@.text, max_reply_length),
    {
        let text = self.text.clone();
        if text.as_str().is_empty() {
            return None;
        }
        if let Some(max) = max_reply_length {
            if text.as_str().len() > max {
                let room: usize = if max >= 3 {
                    max - 3
                } else {
                    0
                };
                let v = chars_of(text.as_str());
                let k = fits(v.as_slice(), room);
                assert(v@.subrange(0, k as int) =~= v@.take(k as int));
                let mut out = part(v.as_slice(), 0, k);
                out.append("...");
                return Some(out);
            }
        }
        Some(text)
    }
}

/// How much of a background job's result is passed on.
pub const PREVIEW_CHARS: usize = 200;

/// What is passed on of a background job that is done.
pub struct JobDone {
    pub tool_name: String,
    pub preview: String,
}

/// What is passed on of a background job that is done.
pub fn job_done(app: &str, job_id: &str, result: &str) -> (r: JobDone)
    ensures
        r.tool_name@ == "bg_job:"@ + app@ + ":"@ + job_id@,
        r.preview@ == if result@.len() <= PREVIEW_CHARS {
            result@
        } else {
            result@.take(PREVIEW_CHARS as int)
        },
{
    let mut tool_name = "bg_job:".to_owned();
    tool_name.append(app);
    tool_name.append(":");
    tool_name.append(job_id);
    let v = chars_of(result);
    let preview = if v.len() <= PREVIEW_CHARS {
        result.to_owned()
    } else {
        assert(v@.subrange(0, PREVIEW_CHARS as int) =~= v@.take(PREVIEW_CHARS as int));
        part(v.as_slice(), 0, PREVIEW_CHARS)
    };
    JobDone { tool_name, preview }
}

// ── Laws ────────────────────────────────────────────────────────────

/// The clock never names a zone but the one that is looked at first: where the environment names
/// one, the link beside it does not count.
pub proof fn law_the_zone_is_never_a_guess(
    tz: Seq<char>,
    link: Option<Seq<char>>,
    other: Option<Seq<char>>,
)
    ensures
        zone_of(Some(tz), link) == zone_of(Some(tz), other),
        zone_of(None, None) == Seq::<char>::empty(),
{
}

/// What is said last in a theme file counts: a line that switches it off does so whatever the
/// lines before it said.
pub proof fn law_the_last_line_counts(lines: Seq<Seq<char>>, other: Seq<Seq<char>>, line: Seq<char>)
    requires
        text::trim(text::trim(line).take(text::next_char(text::trim(line), ':', 0))) == "enabled"@,
        text::trim(line).len() > 0,
        text::trim(line)[0] != '#',
        text::next_char(text::trim(line), ':', 0) < text::trim(line).len(),
    ensures
        theme_lines(lines.push(line), lines.len() as int + 1).enabled == theme_lines(
            other.push(line),
            other.len() as int + 1,
        ).enabled,
{
    assert(lines.push(line)[lines.len() as int] == line);
    assert(other.push(line)[other.len() as int] == line);
}

/// An answer that is cut takes no more bytes than it may, where it may take as many as the dots do.
pub proof fn law_a_cut_answer_fits(said: Seq<char>, max: usize)
    requires
        3 <= max,
        config_store::byte_len(said) > max,
        said.len() > 0,
    ensures
        vstd::utf8::encode_utf8(said.take(text::fitting(said, max - 3) as int)).len() + 3 <= max,
        reply_text(said, Some(max)) == Some(
            said.take(text::fitting(said, max - 3) as int) + "..."@,
        ),
{
    text::lemma_fitting(said, max - 3);
    text::lemma_bytes_in(said.take(text::fitting(said, max - 3) as int));
}

/// An answer that was replaced holds nothing of what stood before.
pub proof fn law_a_replaced_answer_starts_over(a: Answer, b: Answer, piece: Seq<char>)
    requires
        !a.done,
        !b.done,
        piece != "__DONE__"@,
        piece != "__REPLACE__"@,
    ensures
        after_piece(after_piece(a, "__REPLACE__"@), piece).text == piece,
        after_piece(after_piece(a, "__REPLACE__"@), piece) == after_piece(
            after_piece(b, "__REPLACE__"@),
            piece,
        ),
{
    reveal_strlit("__DONE__");
    reveal_strlit("__REPLACE__");
    assert("__DONE__"@.len() != "__REPLACE__"@.len());
}

// ── What is shown, exactly ──────────────────────────────────────────

proof fn lemma_zeros(k: nat, d: Seq<char>)
    requires
        text::all_digits(d),
    ensures
        text::all_digits(Seq::new(k, |i: int| '0') + d),
        text::spelled(Seq::new(k, |i: int| '0') + d) == text::spelled(d),
    decreases d.len() + k,
{
    let s = Seq::new(k, |i: int| '0') + d;
    assert forall|i: int| 0 <= i < s.len() implies text::is_digit(#[trigger] s[i]) by {
        if i >= k {
            assert(s[i] == d[i - k]);
        }
    }
    if d.len() > 0 {
        let t = d.drop_last();
        assert forall|i: int| 0 <= i < t.len() implies text::is_digit(#[trigger] t[i]) by {
            assert(text::is_digit(d[i]));
        }
        lemma_zeros(k, t);
        assert(s.drop_last() =~= Seq::new(k, |i: int| '0') + t);
    } else if k > 0 {
        lemma_zeros((k - 1) as nat, d);
        assert(s.drop_last() =~= Seq::new((k - 1) as nat, |i: int| '0') + d);
    } else {
        assert(s =~= d);
    }
}

/// A number is written in at least so many digits and reads as itself; none but zeros are added,
/// and none where it has enough.
pub proof fn law_a_padded_number_reads_as_itself(n: nat, width: nat)
    ensures
        text::all_digits(padded(n, width)),
        text::spelled(padded(n, width)) == n,
        padded(n, width).len() >= width,
        text::dec(n).len() >= width ==> padded(n, width) == text::dec(n),
        text::dec(n).len() < width ==> padded(n, width).len() == width,
{
    text::law_a_number_reads_as_itself(n);
    let d = text::dec(n);
    if d.len() < width {
        lemma_zeros((width - d.len()) as nat, d);
    }
}

/// The day is greeted by its hour: the morning from five, the afternoon from noon, the evening from
/// six, and the night from ten until five.
pub proof fn law_the_greeting_fits_the_hour(hour: u32)
    ensures
        hour < 5 ==> greeting(hour) == "Good night"@,
        5 <= hour < 12 ==> greeting(hour) == "Good morning"@,
        12 <= hour < 18 ==> greeting(hour) == "Good afternoon"@,
        18 <= hour < 22 ==> greeting(hour) == "Good evening"@,
        22 <= hour ==> greeting(hour) == "Good night"@,
{
}

/// An offset is its sign, its hours and its minutes, two digits each, east of Greenwich and on it
/// with a plus.
pub proof fn law_an_offset_is_hours_and_minutes(hours: nat, minutes: nat)
    requires
        minutes < 60,
    ensures
        offset_words(3600int * hours + 60 * minutes) == "+"@ + padded(hours, 2) + ":"@ + padded(
            minutes,
            2,
        ),
        hours + minutes > 0 ==> offset_words(-(3600 * hours + 60 * minutes)) == "-"@ + padded(
            hours,
            2,
        ) + ":"@ + padded(minutes, 2),
{
    let m = 3600 * hours + 60 * minutes;
    assert(m / 3600 == hours && m % 3600 == 60 * minutes && m % 3600 / 60 == minutes);
}

/// A time zone is what stands behind the folder of the zones, in the setting as in the link, and a
/// setting that is a name already stands for itself, with a colon in front or not.
pub proof fn law_a_zone_is_its_name(before: Seq<char>, name: Seq<char>, link: Option<Seq<char>>)
    requires
        text::neat(name),
        name[0] != ':',
        !text::contains(name, "zoneinfo/"@),
        ({
            let whole = before + "zoneinfo/"@ + name;
            forall|j: int| 0 <= j < before.len() ==> !text::at(whole, j, "zoneinfo/"@)
        }),
    ensures
        zone_of(None, Some(before + "zoneinfo/"@ + name)) == name,
        zone_of(Some(name), link) == name,
        zone_of(Some(seq![':'] + name), link) == name,
        text::neat(before) && before[0] != ':' ==> zone_of(
            Some(before + "zoneinfo/"@ + name),
            link,
        ) == name,
{
    let mark = "zoneinfo/"@;
    reveal_strlit("zoneinfo/");
    let whole = before + mark + name;
    let i = before.len() as int;
    text::lemma_find_is_contains(whole, mark, 0);
    assert(whole.subrange(i, i + mark.len()) =~= mark);
    assert(text::at(whole, i, mark));
    assert(text::find(whole, mark, 0) == Some(i));
    assert(whole.skip(i + mark.len()) =~= name);
    text::lemma_find_is_contains(name, mark, 0);
    text::lemma_neat(name);
    assert(text::without_leading(name, ':') == name);
    let c = seq![':'] + name;
    assert(c[0] == ':' && c.last() == name.last());
    text::law_what_is_white(':');
    text::lemma_neat(c);
    assert(c.drop_first() =~= name);
    if text::neat(before) {
        assert(whole[0] == before[0] && whole.last() == name.last());
        text::lemma_neat(whole);
    }
}

/// A digit to the base of sixteen.
pub open spec fn hex_digit(n: int, large: bool) -> char {
    if n < 10 {
        (48 + n) as char
    } else if large {
        (55 + n) as char
    } else {
        (87 + n) as char
    }
}

/// A colour as it is written: a hash, and two digits for each of red, green and blue.
pub open spec fn written(r: u8, g: u8, b: u8, large: bool) -> Seq<char> {
    seq![
        '#',
        hex_digit((r / 16) as int, large),
        hex_digit((r % 16) as int, large),
        hex_digit((g / 16) as int, large),
        hex_digit((g % 16) as int, large),
        hex_digit((b / 16) as int, large),
        hex_digit((b % 16) as int, large),
    ]
}

proof fn lemma_hex(n: u8, large: bool)
    ensures
        hex_byte(hex_digit((n / 16) as int, large), hex_digit((n % 16) as int, large)) == Some(
            n as int,
        ),
        hex_digit((n / 16) as int, large) != '#',
{
    assert(16 * (n / 16) + n % 16 == n);
    let (h, l) = ((n / 16) as int, (n % 16) as int);
    assert(0 <= h < 16 && 0 <= l < 16);
    assert(hex_value(hex_digit(h, large)) == Some(h));
    assert(hex_value(hex_digit(l, large)) == Some(l));
    assert(hex_digit(h, large) != '+');
}

/// A colour reads as it was written, in capitals or not, and opaque where nothing else is said.
pub proof fn law_a_colour_reads_as_written(r: u8, g: u8, b: u8, a: u8, large: bool)
    ensures
        colour_in(written(r, g, b, large)) == Some(Rgba { r, g, b, a: 255 }),
        colour_in(
            written(r, g, b, large) + seq![
                hex_digit((a / 16) as int, large),
                hex_digit((a % 16) as int, large),
            ],
        ) == Some(Rgba { r, g, b, a }),
{
    lemma_hex(r, large);
    lemma_hex(g, large);
    lemma_hex(b, large);
    lemma_hex(a, large);
    let s = written(r, g, b, large);
    let h = s.drop_first();
    assert(h[0] != '#');
    assert(text::without_leading(h, '#') == h);
    assert(text::without_leading(s, '#') == h);
    let t = s + seq![hex_digit((a / 16) as int, large), hex_digit((a % 16) as int, large)];
    let k = t.drop_first();
    assert(k[0] == h[0]);
    assert(text::without_leading(k, '#') == k);
    assert(text::without_leading(t, '#') == k);
}

/// A colour has six digits or eight; anything of another length is none, and neither is one with a
/// character in it that is no digit, a plus in front of one aside.
pub proof fn law_what_is_no_colour(s: Seq<char>, i: int)
    requires
        s.len() > 0,
        s[0] != '#',
    ensures
        s.len() != 6 && s.len() != 8 ==> colour_in(s) is None,
        0 <= i < s.len() && s[i] != '+' && hex_value(s[i]) is None ==> colour_in(s) is None,
{
    assert(text::without_leading(s, '#') == s);
}

/// In a theme file a line names a colour or switches the theme on; a comment, a line without a
/// colon, a name and anything that is no colour change nothing.
pub proof fn law_what_a_theme_line_says(
    said: Said,
    before: Seq<char>,
    key: Seq<char>,
    value: Seq<char>,
    behind: Seq<char>,
)
    requires
        text::all_white(before),
        text::all_white(behind),
        text::neat(key),
        key[0] != '#',
        !key.contains(':'),
        text::neat(value),
        value[0] != '"',
        value.last() != '"',
    ensures
        ({
            let bare = after_theme_line(said, before + (key + ": "@ + value) + behind);
            let quoted = after_theme_line(
                said,
                before + (key + ": "@ + (seq!['"'] + value).push('"')) + behind,
            );
            &&& bare == quoted
            &&& key == "enabled"@ ==> bare == (Said { enabled: value == "true"@, ..said })
            &&& key != "enabled"@ && key != "name"@ && value[0] == '#' ==> bare == (Said {
                colours: said.colours.insert(key, value),
                ..said
            })
            &&& key != "enabled"@ && value[0] != '#' ==> bare == said
            &&& key == "name"@ ==> bare == said
            &&& after_theme_line(said, before + (seq!['#'] + key) + behind) == said
            &&& after_theme_line(said, before) == said
        }),
{
    reveal_strlit(": ");
    reveal_strlit("enabled");
    reveal_strlit("name");
    text::law_what_is_white(' ');
    text::law_what_is_white('"');
    text::law_what_is_white('#');
    let none = Seq::<char>::empty();
    let wrapped = (seq!['"'] + value).push('"');
    lemma_theme_line(before, key, value, behind);
    assert(wrapped[0] == '"' && wrapped.last() == '"');
    lemma_theme_line(before, key, wrapped, behind);
    assert(text::without_leading(value, '"') == value);
    assert(without_trailing(value, '"') == value);
    assert(wrapped.drop_first() =~= value.push('"'));
    assert(value.push('"')[0] == value[0]);
    assert(text::without_leading(value.push('"'), '"') == value.push('"'));
    assert(text::without_leading(wrapped, '"') == value.push('"'));
    assert(value.push('"').drop_last() =~= value);
    assert(without_trailing(value.push('"'), '"') == value);
    let comment = seq!['#'] + key;
    assert(comment[0] == '#' && comment.last() == key.last());
    text::law_trimming_takes_the_white_space_off(before, comment, behind);
    text::law_trimming_takes_the_white_space_off(before, none, none);
    assert(before + none + none =~= before);
}

proof fn lemma_theme_line(before: Seq<char>, key: Seq<char>, value: Seq<char>, behind: Seq<char>)
    requires
        text::all_white(before),
        text::all_white(behind),
        text::neat(key),
        !key.contains(':'),
        text::neat(value),
    ensures
        ({
            let t = key + ": "@ + value;
            let colon = text::next_char(t, ':', 0);
            &&& text::trim(before + t + behind) == t
            &&& colon == key.len()
            &&& t.len() > colon
            &&& t[0] == key[0]
            &&& text::trim(t.take(colon)) == key
            &&& text::trim(t.skip(colon + 1)) == value
        }),
{
    reveal_strlit(": ");
    let t = key + ": "@ + value;
    assert(t[0] == key[0] && t.last() == value.last());
    text::law_trimming_takes_the_white_space_off(before, t, behind);
    text::lemma_next_char(t, ':', 0);
    let colon = text::next_char(t, ':', 0);
    assert(t[key.len() as int] == ':');
    assert(colon == key.len()) by {
        if colon < key.len() {
            assert(key.contains(key[colon]));
        }
    }
    assert(t.take(colon) =~= key);
    text::lemma_neat(key);
    text::law_what_is_white(' ');
    let none = Seq::<char>::empty();
    text::law_trimming_takes_the_white_space_off(seq![' '], value, none);
    assert(t.skip(colon + 1) =~= seq![' '] + value + none);
}

/// The pictures that come with the desktop.
pub open spec fn pictures() -> Seq<Seq<char>> {
    seq![
        "serenity"@,
        "first-light"@,
        "nightfall"@,
        "aurora"@,
        "sunset"@,
        "ocean"@,
        "nebula"@,
    ]
}

/// The pictures that come with the desktop are known by name, and anything else is a file.
pub proof fn law_the_pictures_of_the_desktop(s: Seq<char>)
    ensures
        is_preset(s) <==> pictures().contains(s),
{
    let all = pictures();
    assert(all[0] == "serenity"@ && all[1] == "first-light"@ && all[2] == "nightfall"@ && all[3]
        == "aurora"@ && all[4] == "sunset"@ && all[5] == "ocean"@ && all[6] == "nebula"@);
}

/// A model is called as it was chosen, or else by the last part of where it comes from; a cloud it
/// runs in is named before it.
pub proof fn law_what_a_model_is_called(c: Config, folder: Seq<char>, name: Seq<char>, i: int)
    requires
        !name.contains('/'),
        text::neat(name),
        0 <= i < c.clouds@.len(),
    ensures
        c.api_model matches Some(m) && !text::blank(m@) ==> model_name(c) == Some(c.api_model->0@),
        c.api_model is None && c.hub_repo@ == folder.push('/') + name && text::neat(folder)
            ==> model_name(c) == Some(name),
        c.api_model is None && c.hub_repo@ == name ==> model_name(c) == Some(name),
        c.api_model is None && text::blank(c.hub_repo@) ==> model_name(c) is None && provider(
            c,
        ) is None,
        model_name(c) is Some && c.clouds@[i].backend@ == text::lower(c.backend@) && (forall|j: int|
            0 <= j < i ==> (#[trigger] c.clouds@[j]).backend@ != text::lower(c.backend@))
            ==> provider(c) == Some(c.clouds@[i].name@ + " \u{b7} "@ + model_name(c)->0),
        model_name(c) is Some && (forall|j: int|
            0 <= j < c.clouds@.len() ==> (#[trigger] c.clouds@[j]).backend@ != text::lower(
                c.backend@,
            )) ==> provider(c) == model_name(c),
{
    let repo = folder.push('/') + name;
    text::law_the_last_is_the_last(folder, '/', name);
    assert(repo.skip(folder.len() + 1int) =~= name);
    assert(name.skip(0) =~= name);
    text::lemma_neat(name);
    if text::neat(folder) {
        assert(repo[0] == folder[0] && repo.last() == name.last());
        text::lemma_neat(repo);
    }
    let f = has_backend(text::lower(c.backend@));
    if f(c.clouds@[i]) && forall|j: int| 0 <= j < i ==> (#[trigger] c.clouds@[j]).backend@
        != text::lower(c.backend@) {
        seqs::lemma_first_is(c.clouds@, f, i);
    }
    if forall|j: int|
        0 <= j < c.clouds@.len() ==> (#[trigger] c.clouds@[j]).backend@ != text::lower(c.backend@) {
        seqs::lemma_first_none(c.clouds@, f);
    }
}

/// A message goes out with the last six lines of the conversation before it, or alone where there
/// are none.
pub proof fn law_a_message_goes_out_with_six_lines(message: Seq<char>, context: Seq<Seq<char>>)
    ensures
        context.len() == 0 ==> prompt(message, context) == message,
        0 < context.len() <= 6 ==> prompt(message, context) == "[Chat context]\n"@ + text::join(
            context,
            "\n"@,
        ) + "\n\n[Latest message]\n"@ + message,
        context.len() > 6 ==> prompt(message, context) == prompt(
            message,
            context.skip(context.len() - 6),
        ),
{
}

/// An answer grows piece by piece until it is done, and then no more.
pub proof fn law_an_answer_grows(a: Answer, piece: Seq<char>)
    requires
        piece != "__DONE__"@,
        piece != "__REPLACE__"@,
    ensures
        !a.done && !a.replacing ==> after_piece(a, piece) == (Answer {
            text: a.text + piece,
            replacing: false,
            done: false,
        }),
        a.done ==> after_piece(a, piece) == a,
        !a.done ==> after_piece(a, "__DONE__"@) == (Answer { done: true, ..a }),
        after_piece(after_piece(a, "__DONE__"@), piece).text == a.text,
{
}

/// An answer that fits is not cut, and nothing at all is no answer.
pub proof fn law_an_answer_that_fits_is_whole(said: Seq<char>, max: usize)
    ensures
        said.len() == 0 ==> reply_text(said, Some(max)) is None && reply_text(said, None) is None,
        said.len() > 0 ==> reply_text(said, None) == Some(said),
        said.len() > 0 && config_store::byte_len(said) <= max ==> reply_text(said, Some(max))
            == Some(said),
{
}

/// The resolution is the first word of the first line that starts with a digit and has an x in it.
pub proof fn law_where_the_resolution_stands(report: Seq<char>, i: int, word: Seq<char>, rest: Seq<char>)
    requires
        0 <= i < text::lines(report).len(),
        text::trim(text::lines(report)[i]) == word + rest,
        word.len() > 0,
        forall|k: int| 0 <= k < word.len() ==> !text::is_white(#[trigger] word[k]),
        rest.len() == 0 || text::is_white(rest[0]),
        '0' <= word[0] <= '9',
        word.contains('x'),
        forall|j: int|
            0 <= j < i ==> {
                let t = text::trim(#[trigger] text::lines(report)[j]);
                t.len() == 0 || !('0' <= t[0] <= '9') || !t.contains('x')
            },
    ensures
        resolution_in(report) == Some(word),
{
    let lines = text::lines(report);
    let t = text::trim(lines[i]);
    let k = choose|k: int| 0 <= k < word.len() && word[k] == 'x';
    assert(t[k] == 'x' && t[0] == word[0]);
    assert(names_resolution()(lines[i]));
    seqs::lemma_first_is(lines, names_resolution(), i);
    let none = Seq::<char>::empty();
    if rest.len() == 0 {
        text::law_words_stand_between_the_white_space(none, word, ' ', rest);
        assert(none + word =~= t);
    } else {
        let more = rest.skip(1);
        text::law_words_stand_between_the_white_space(none, word, rest[0], more);
        assert(none + word + (seq![rest[0]] + more) =~= t);
    }
}

/// A machine starts with the picture that was chosen, one of the desktop's or a file, and with the
/// first of the desktop's where none was.
pub proof fn law_what_picture_a_machine_starts_with(saved: &str, r: Wallpaper)
    requires
        call_ensures(wallpaper, (saved,), r),
    ensures
        saved@.len() == 0 ==> r is Preset && r->Preset_0@ == "serenity"@,
        saved@.len() > 0 && pictures().contains(saved@) ==> r is Preset && r->Preset_0@ == saved@,
        saved@.len() > 0 && !pictures().contains(saved@) ==> r is File && r->File_0@ == saved@,
{
    law_the_pictures_of_the_desktop(saved@);
}

/// A job that is done is passed on under its app and its number, with its first two hundred
/// characters.
pub proof fn law_what_is_passed_on_of_a_job(app: &str, job_id: &str, result: &str, r: JobDone)
    requires
        call_ensures(job_done, (app, job_id, result), r),
    ensures
        r.tool_name@ == "bg_job:"@ + app@ + ":"@ + job_id@,
        result@.len() <= 200 ==> r.preview@ == result@,
        result@.len() > 200 ==> r.preview@ == result@.take(200),
{
}

/// A theme counts where its file switches it on, with the colour of each token that the file names
/// and that reads as one.
pub proof fn law_what_a_theme_changes(content: &str, r: Option<Theme>, i: int)
    requires
        call_ensures(theme_overrides, (content,), r),
    ensures
        r is Some <==> theme_said(content@).enabled,
        r is Some ==> r->0.colours@.len() == 10,
        r is Some && 0 <= i < 10 ==> r->0.colours@[i] == if theme_said(
            content@,
        ).colours.contains_key(tokens()[i]) {
            colour_in(theme_said(content@).colours[tokens()[i]])
        } else {
            None
        },
{
}

/// The clock is told with the day as year, month and day, the weekday by its name from Sunday on,
/// and the time of day as hours and minutes, in two figures each.
pub proof fn law_how_the_clock_is_told(p: ClockParts, zone: Seq<char>)
    requires
        p.hour < 24,
        p.minute < 60,
    ensures
        ({
            let e = clock_tree(p, zone)->Object_0;
            let time = e[2].1->Str_0;
            &&& e[1].0 == "weekday"@
            &&& p.weekday == 0 ==> e[1].1 == Tree::Str("Sunday"@)
            &&& p.weekday == 1 ==> e[1].1 == Tree::Str("Monday"@)
            &&& p.weekday == 6 ==> e[1].1 == Tree::Str("Saturday"@)
            &&& e[2].0 == "time"@ && time.len() == 5
            &&& text::spelled(time.take(2)) == p.hour
            &&& time[2] == ':'
            &&& text::spelled(time.skip(3)) == p.minute
            &&& e[4] == ("zone"@, Tree::Str(zone))
        }),
{
    reveal_strlit(":");
    let h = padded(p.hour as nat, 2);
    let m = padded(p.minute as nat, 2);
    lemma_two_figures(p.hour as nat);
    lemma_two_figures(p.minute as nat);
    law_a_padded_number_reads_as_itself(p.hour as nat, 2);
    law_a_padded_number_reads_as_itself(p.minute as nat, 2);
    let time = hhmm(p.hour, p.minute);
    assert(time.take(2) =~= h);
    assert(time.skip(3) =~= m);
}

proof fn lemma_two_figures(n: nat)
    requires
        n < 100,
    ensures
        text::dec(n).len() <= 2,
{
    reveal_with_fuel(text::dec, 3);
}

/// The day is told by its weekday and its month, from Sunday and from January on, and a picture that
/// could not be loaded is not shown.
pub proof fn law_how_the_day_is_told(
    wday: u32,
    mon: u32,
    mday: u32,
    long: String,
    short: String,
    saved: &str,
    loaded: bool,
    picture: String,
)
    requires
        wday < 7,
        mon < 12,
        call_ensures(current_date_text, (wday, mon, mday), long),
        call_ensures(current_date_short, (wday, mon, mday), short),
        call_ensures(picture_shown, (saved, loaded), picture),
    ensures
        wday == 0 && mon == 0 ==> long@ == "Sunday"@ + ", "@ + "January"@ + " "@ + text::dec(
            mday as nat,
        ),
        wday == 6 && mon == 11 ==> long@ == "Saturday"@ + ", "@ + "December"@ + " "@ + text::dec(
            mday as nat,
        ),
        wday == 3 && mon == 6 ==> long@ == "Wednesday"@ + ", "@ + "July"@ + " "@ + text::dec(
            mday as nat,
        ),
        wday == 0 && mon == 0 ==> short@ == "Sun"@ + " "@ + text::dec(mday as nat) + " "@ + "Jan"@,
        wday == 6 && mon == 11 ==> short@ == "Sat"@ + " "@ + text::dec(mday as nat) + " "@ + "Dec"@,
        loaded ==> picture@ == saved@,
        !loaded ==> picture@.len() == 0,
{
    reveal_strlit("");
}

/// The desktop starts as it was left: what a person chose counts before what is configured, and the
/// file browser starts in the home folder, by name, with nothing held.
pub proof fn law_how_the_desktop_starts(
    saved: Saved,
    config: Config,
    path: Option<String>,
    hour: u32,
    r: (AppContext, FirstLook),
)
    requires
        call_ensures(AppContext::init, (&saved, &config, path, hour), r),
    ensures
        saved.user_name@.len() > 0 ==> r.0.user_name@ == saved.user_name@,
        saved.user_name@.len() == 0 ==> r.0.user_name@ == config.user_name@,
        saved.companion_name@.len() > 0 ==> r.0.companion_name@ == saved.companion_name@,
        saved.companion_name@.len() == 0 ==> r.0.companion_name@ == config.companion_name@,
        r.1.dark == saved.dark_mode,
        r.1.tool_permission@ == saved.tool_permission@,
        r.1.auto_lock_secs == saved.auto_lock_secs,
        r.1.do_not_disturb == saved.dnd_mode,
        r.1.accent@ == saved.accent_color@,
        r.0.browser_path@ == "~"@ && r.0.browser_sort_field@ == "name"@
            && r.0.browser_sort_ascending,
        r.0.file_clipboard is None && !r.0.browser_show_hidden,
{
}

/// A year is told in four figures, as many more as it needs, and with its sign where it is before
/// the first.
pub proof fn law_how_a_year_is_told(year: nat)
    ensures
        text::spelled(year_text(year as int)) == year,
        year_text(year as int).len() >= 4,
        text::dec(year).len() <= 4 ==> year_text(year as int).len() == 4,
        year > 0 ==> year_text(-(year as int)) == seq!['-'] + padded(year, 3),
{
    law_a_padded_number_reads_as_itself(year, 4);
}

} // verus!
