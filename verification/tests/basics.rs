//! Text, JSON, dates and the tool trail.
use yantrik_ui::calendar::days_to_civil;
use yantrik_ui::clock::elapsed;
use yantrik_ui::json::{
    argument_of, comes_before, flag_at, number, parse, parse_or_why, pretty, put_last, render, signed_value, strings,
    text_at, Json,
};
use yantrik_ui::paths::{bounds_of, same_bytes};
use yantrik_ui::text::{
    after_last, capitalise, chars_of, clip, decimal, digits_from, end_of, find_in, fits, fits_end, has, is_blank, joined,
    lines_of, lowered, next_at, parse_i32, parse_u64, push_dec, signed_decimal, split_at_char, stands_at, start_of,
    string_of, trim_end_of, trim_start_of, trimmed, white, width_of, word_ends, words_of,
};
use yantrik_ui::trail;

#[test]
fn text_is_cut_and_joined() {
    assert_eq!(trimmed("  a b\u{3000}"), "a b");
    assert!(is_blank(" \u{a0}\n") && !is_blank("x"));
    assert_eq!(lines_of("a\r\nb\n\nc"), ["a", "b", "", "c"]);
    assert_eq!(words_of("  one  two\n"), ["one", "two"]);
    assert_eq!(split_at_char("a,b,", ','), ["a", "b", ""]);
    assert_eq!(joined(&["a".to_string(), "b".to_string()], ", "), "a, b");
    assert_eq!(clip("abcdef", 3), "abc\u{2026}");
    assert!(has("hello", "ell") && !has("hello", "elo"));
    assert_eq!(capitalise("\u{e9}tude"), "\u{c9}tude");
    assert_eq!(capitalise(""), "");
}

#[test]
fn numbers_are_written_and_read() {
    assert_eq!(decimal(u64::MAX), "18446744073709551615");
    assert_eq!(signed_decimal(i64::MIN), "-9223372036854775808");
    assert_eq!(parse_u64("+7"), Some(7));
    assert_eq!(parse_u64("18446744073709551616"), None);
    assert_eq!(parse_i32("-2147483648"), Some(i32::MIN));
    assert_eq!(parse_i32("2147483648"), None);
    assert_eq!(parse_i32(""), None);
    assert_eq!(elapsed(5, 9), 0);
}

#[test]
fn a_day_has_one_date() {
    assert_eq!(days_to_civil(0), (1970, 1, 1));
    assert_eq!(days_to_civil(-1), (1969, 12, 31));
    assert_eq!(days_to_civil(20_719), (2026, 9, 23));
    assert_eq!(days_to_civil(11_016), (2000, 2, 29));
}

#[test]
fn json_is_read_and_written() {
    let v = parse(r#"{"b": [1, -2, 2.5], "a": {"x": null, "y": true}}"#).unwrap();
    assert_eq!(render(&v), r#"{"a":{"x":null,"y":true},"b":[1,-2,2.5]}"#);
    assert!(pretty(&v).contains("\n  \"a\""));
    assert_eq!(text_at(&parse(r#"{"t": "x"}"#).unwrap(), "t"), "x");
    assert_eq!(text_at(&parse(r#"{"t": 1}"#).unwrap(), "t"), "");
    assert_eq!(flag_at(&parse(r#"{"t": true}"#).unwrap(), "t"), Some(true));
    assert!(parse("{").is_none());
    assert!(parse_or_why("{").unwrap_err().contains("EOF"));
    assert_eq!(parse(r#"{"k": 1, "k": 2}"#).unwrap().get("k").map(render), Some("2".to_string()), "the last one counts");
    assert_eq!(Json::Null.copy(), Json::Null);
}

#[test]
fn a_trail_line_tells_a_call() {
    let (call, took) = trail::parse("\u{2699}\u{fe0f} os_act notes.create {\"title\": \"x\"}", None).unwrap();
    assert_eq!((call.name.as_str(), call.target.as_str(), took), ("os_act", "notes.create", false));
    assert_eq!(call.summary(), "os_act notes.create title=\"x\"");
    let (call, took) = trail::parse("\u{2699} f(['a'])", Some("{\"a\": 1}")).unwrap();
    assert!(took && call.args.is_some());
    assert!(trail::parse("the gear \u{2699} turns", None).is_none());
    assert!(trail::is_trail("  \u{2699} x") && !trail::is_trail("x"));
}

#[test]
fn text_is_searched_character_by_character() {
    let v = chars_of(" a\u{e9}b: a ");
    assert_eq!(string_of(&v[1..4]), "a\u{e9}b");
    assert_eq!((start_of(&v), end_of(&v)), (1, 7));
    assert_eq!((trim_start_of("  x "), trim_end_of("  x ")), ("x ".to_string(), "  x".to_string()));
    assert!(white('\u{2028}') && !white('\u{200b}'));
    assert_eq!(lowered("\u{c9}AZ"), "\u{c9}az", "only the letters of ASCII");
    assert!(stands_at(&v, 1, &['a', '\u{e9}']) && !stands_at(&v, 7, &[' ', 'x']));
    assert_eq!(find_in(&v, &['a'], 2), Some(6));
    assert_eq!(find_in(&v, &['z'], 0), None);
    assert_eq!((next_at(&v, ':', 0), next_at(&v, 'z', 0)), (4, 8));
    assert_eq!(word_ends(&v, 1), 5);
    assert_eq!(after_last(&chars_of("/a/b"), '/'), 3);
    assert_eq!((width_of('a'), width_of('\u{e9}'), width_of('\u{20ac}'), width_of('\u{1f600}')), (1, 2, 3, 4));
    assert_eq!(fits(&chars_of("a\u{e9}b"), 2), 1, "a character is not split");
    assert_eq!(fits_end(&chars_of("a\u{e9}b"), 2), 1);
    assert_eq!(digits_from(&chars_of("x12"), 1), Some(12));
    assert_eq!(digits_from(&chars_of("x1y"), 1), None);
    let mut out = String::from("n=");
    push_dec(&mut out, 40);
    assert_eq!(out, "n=40");
}

#[test]
fn objects_are_put_in_order() {
    assert!(comes_before("a", "b") && comes_before("a", "ab") && !comes_before("a", "a"));
    let v = parse(r#"{"b": [{"d": 1, "c": 2}], "a": 0}"#).unwrap();
    assert_eq!(render(&v.tidied()), render(&v));
    let mut o = Vec::new();
    put_last(&mut o, "z", signed_value(-3));
    put_last(&mut o, "a", strings(&["x".to_string(), "y".to_string()]));
    put_last(&mut o, "m", number(7));
    assert_eq!(render(&Json::Object(o)), r#"{"a":["x","y"],"m":7,"z":-3}"#);
    assert_eq!(argument_of(&parse(r#"{"t": " x "}"#).unwrap(), "t"), "x");
}

#[test]
fn a_path_is_compared_byte_by_byte() {
    assert!(same_bytes(b"/a", b"/a") && !same_bytes(b"/a", b"/a/"));
    assert_eq!(bounds_of(b"/a//bc"), vec![(1, 2), (4, 6)]);
    assert_eq!(trail::after_gear("  \u{2699}\u{fe0f} os_apps "), "os_apps");
}
