//! The machine can update itself: what the updater is asked, and what its answer means.
use crate::json;
use crate::json::{argument_of, flag_at, put_last, string, strings, Json, Tree};
use crate::text;
use crate::text::{chars_of, lines_of, string_of, trimmed};
use crate::surface;
use crate::surface::{add_action, Action, Listing, Param, ParamKind, Takes};
use vstd::prelude::*;

verus! {

pub open spec fn is_letter(c: char) -> bool {
    ('a' <= c <= 'z') || ('A' <= c <= 'Z')
}

/// Where an escape that starts before `from` ends: behind the first letter.
pub open spec fn escape_end(s: Seq<char>, from: int) -> int
    decreases s.len() - from,
{
    if from < 0 || from >= s.len() {
        s.len() as int
    } else if is_letter(s[from]) {
        from + 1
    } else {
        escape_end(s, from + 1)
    }
}

pub proof fn lemma_escape_end(s: Seq<char>, from: int)
    requires
        0 <= from <= s.len(),
    ensures
        from <= escape_end(s, from) <= s.len(),
    decreases s.len() - from,
{
    if from < s.len() && !is_letter(s[from]) {
        lemma_escape_end(s, from + 1);
    }
}

/// A line from `from` on without its colour escapes.
pub open spec fn colourless(s: Seq<char>, from: int) -> Seq<char>
    decreases s.len() - from,
{
    if from < 0 || from >= s.len() {
        Seq::empty()
    } else if s[from] == '\u{1b}' {
        proof {
            lemma_escape_end(s, from + 1);
        }
        colourless(s, escape_end(s, from + 1))
    } else {
        seq![s[from]] + colourless(s, from + 1)
    }
}

/// The first `n` lines, without colour and the white space around them, and without those that
/// have nothing left.
pub open spec fn plain_lines(lines: Seq<Seq<char>>, n: int) -> Seq<Seq<char>>
    decreases n,
{
    if n <= 0 {
        Seq::empty()
    } else {
        let one = text::trim(colourless(lines[n - 1], 0));
        if one.len() == 0 {
            plain_lines(lines, n - 1)
        } else {
            plain_lines(lines, n - 1).push(one)
        }
    }
}

/// What the updater printed, line by line, without colour.
pub open spec fn plain_text(s: Seq<char>) -> Seq<Seq<char>> {
    plain_lines(text::lines(s), text::lines(s).len() as int)
}

fn letter(c: char) -> (r: bool)
    ensures
        r == is_letter(c),
{
    ('a' <= c && c <= 'z') || ('A' <= c && c <= 'Z')
}

fn without_colour(line: &str) -> (r: String)
    ensures
        r@ == colourless(line@, 0),
{
    let v = chars_of(line);
    let mut out: Vec<char> = Vec::new();
    let mut i: usize = 0;
    assert(out@ + colourless(v@, 0) =~= colourless(v@, 0));
    while i < v.len()
        invariant
            i <= v@.len(),
            v@ == line@,
            out@ + colourless(v@, i as int) == colourless(line@, 0),
        decreases v@.len() - i,
    {
        if v[i] == '\u{1b}' {
            let mut k: usize = i + 1;
            let mut open = true;
            while k < v.len() && open
                invariant
                    i < k <= v@.len(),
                    open ==> escape_end(v@, i + 1) == escape_end(v@, k as int),
                    !open ==> escape_end(v@, i + 1) == k,
                decreases v@.len() - k,
            {
                if letter(v[k]) {
                    open = false;
                }
                k += 1;
            }
            i = k;
        } else {
            let ghost was = out@;
            out.push(v[i]);
            assert(was.push(v@[i as int]) + colourless(v@, i + 1) =~= was + (seq![v@[i as int]]
                + colourless(v@, i + 1)));
            i += 1;
        }
    }
    assert(colourless(v@, i as int) =~= Seq::empty());
    assert(out@ + colourless(v@, i as int) =~= out@);
    string_of(out.as_slice())
}

/// Strip colour, so that the updater's output for people is clean when it travels as data.
pub fn plain(text: &str) -> (r: Vec<String>)
    ensures
        text::strs(r@) == plain_text(text@),
{
    let lines = lines_of(text);
    let ghost ls = text::lines(text@);
    let mut out: Vec<String> = Vec::new();
    let mut i: usize = 0;
    assert(text::strs(out@) =~= Seq::empty());
    while i < lines.len()
        invariant
            i <= lines@.len(),
            text::strs(lines@) == ls,
            text::strs(out@) == plain_lines(ls, i as int),
        decreases lines@.len() - i,
    {
        let one = trimmed(without_colour(lines[i].as_str()).as_str());
        let ghost was = text::strs(out@);
        let ghost t = one@;
        assert(ls[i as int] == lines@[i as int]@);
        if !one.as_str().is_empty() {
            out.push(one);
            assert(text::strs(out@) =~= was.push(t));
        }
        i += 1;
    }
    out
}

/// The channel a caller names, where one is named.
pub open spec fn channel(args: Tree) -> Option<Seq<char>> {
    let c = json::argument(args, "channel"@);
    if c.len() == 0 {
        None
    } else {
        Some(c)
    }
}

pub open spec fn with_channel(words: Seq<Seq<char>>, channel: Option<Seq<char>>) -> Seq<Seq<char>> {
    match channel {
        Some(c) => words.push("--channel"@).push(c),
        None => words,
    }
}

/// What the updater is asked when a check is asked for.
pub fn check_command(args: &Json) -> (r: Vec<String>)
    ensures
        text::strs(r@) == with_channel(seq!["check"@], channel(args@)),
{
    let mut out: Vec<String> = Vec::new();
    out.push("check".to_owned());
    let c = argument_of(args, "channel");
    if !c.as_str().is_empty() {
        out.push("--channel".to_owned());
        out.push(c);
    }
    assert(text::strs(out@) =~= with_channel(seq!["check"@], channel(args@)));
    out
}

/// What the updater is asked when an update is asked for: to install the channel's build, and to
/// do so again where that is forced.
pub fn apply_command(args: &Json) -> (r: Vec<String>)
    ensures
        ({
            let words = with_channel(seq!["apply"@], channel(args@));
            text::strs(r@) == if json::flag_under(args@, "force"@) == Some(true) {
                words.push("--force"@)
            } else {
                words
            }
        }),
{
    let mut out: Vec<String> = Vec::new();
    out.push("apply".to_owned());
    let c = argument_of(args, "channel");
    if !c.as_str().is_empty() {
        out.push("--channel".to_owned());
        out.push(c);
    }
    assert(text::strs(out@) =~= with_channel(seq!["apply"@], channel(args@)));
    let ghost words = text::strs(out@);
    if let Some(true) = flag_at(args, "force") {
        out.push("--force".to_owned());
        assert(text::strs(out@) =~= words.push("--force"@));
    }
    out
}

pub open spec fn check_tree(available: bool, detail: Seq<Seq<char>>) -> Tree {
    Tree::Object(
        seq![
            ("update_available"@, Tree::Bool(available)),
            ("up_to_date"@, Tree::Bool(!available)),
            ("detail"@, Tree::Array(json::string_trees(detail))),
        ],
    )
}

/// What went wrong with a check, as far as the updater said: its last word.
pub open spec fn last_word(detail: Seq<Seq<char>>, stderr: Seq<Seq<char>>) -> Seq<char> {
    if stderr.len() > 0 {
        stderr.last()
    } else if detail.len() > 0 {
        detail.last()
    } else {
        ""@
    }
}

/// What the updater's answer to a check means: its exit code is the answer, zero for current and
/// ten for an update that is there.
pub fn check_outcome(code: i32, stdout: &str, stderr: &str) -> (r: Result<Json, String>)
    ensures
        ({
            let detail = plain_text(stdout@);
            if code == 0 {
                r matches Ok(answer) && answer@ == check_tree(false, detail)
            } else if code == 10 {
                r matches Ok(answer) && answer@ == check_tree(true, detail)
            } else {
                r matches Err(why) && why@ == "update check failed: "@ + last_word(
                    detail,
                    plain_text(stderr@),
                )
            }
        }),
{
    let detail = plain(stdout);
    let ghost d = plain_text(stdout@);
    if code == 0 || code == 10 {
        let available = code == 10;
        let mut o: Vec<(String, Json)> = Vec::new();
        put_last(&mut o, "update_available", Json::Bool(available));
        put_last(&mut o, "up_to_date", Json::Bool(!available));
        put_last(&mut o, "detail", strings(detail.as_slice()));
        assert(json::entries(o@) =~= check_tree(available, d)->Object_0);
        return Ok(Json::Object(o));
    }
    let err = plain(stderr);
    assert(text::strs(err@).len() == err@.len());
    assert(text::strs(detail@).len() == detail@.len());
    let mut out = "update check failed: ".to_owned();
    if err.len() > 0 {
        assert(text::strs(err@).last() == err@[err@.len() - 1]@);
        out.append(err[err.len() - 1].as_str());
    } else if detail.len() > 0 {
        assert(text::strs(detail@).last() == detail@[detail@.len() - 1]@);
        out.append(detail[detail.len() - 1].as_str());
    } else {
        out.append("");
    }
    Err(out)
}

/// What is said where there is no updater.
pub fn no_updater(path: &str, applying: bool) -> (r: String)
    ensures
        r@ == "no updater at "@ + path@ + (if applying {
            " \u{2014} this machine cannot update itself"@
        } else {
            " \u{2014} this machine cannot check for updates"@
        }),
{
    let mut out = "no updater at ".to_owned();
    out.append(path);
    if applying {
        out.append(" \u{2014} this machine cannot update itself");
    } else {
        out.append(" \u{2014} this machine cannot check for updates");
    }
    out
}

pub open spec fn watch_words() -> Seq<char> {
    "the shell will restart; reconnect and `describe shell`, or run `yantrik-update status`, to see the new build. A shell that fails to come up is rolled back automatically."@
}

pub open spec fn channel_word(args: Tree) -> Seq<char> {
    match channel(args) {
        Some(c) => c,
        None => "configured"@,
    }
}

/// What `apply_update` answers once the updater was started.
pub fn applying_answer(args: &Json) -> (r: Json)
    ensures
        r@ == Tree::Object(
            seq![
                ("applying"@, Tree::Bool(true)),
                ("channel"@, Tree::Str(channel_word(args@))),
                ("watch"@, Tree::Str(watch_words())),
            ],
        ),
{
    let c = argument_of(args, "channel");
    let named = if c.as_str().is_empty() {
        "configured".to_owned()
    } else {
        c
    };
    let ghost n = named@;
    let mut o: Vec<(String, Json)> = Vec::new();
    put_last(&mut o, "applying", Json::Bool(true));
    put_last(&mut o, "channel", Json::Str(named));
    put_last(
        &mut o,
        "watch",
        string(
            "the shell will restart; reconnect and `describe shell`, or run `yantrik-update status`, to see the new build. A shell that fails to come up is rolled back automatically.",
        ),
    );
    assert(json::entries(o@) =~= seq![
        ("applying"@, Tree::Bool(true)),
        ("channel"@, Tree::Str(n)),
        ("watch"@, Tree::Str(watch_words())),
    ]);
    Json::Object(o)
}

// ── Published actions ───────────────────────────────────────────────

/// The actions this module publishes.
pub open spec fn published() -> Seq<Listing> {
    Seq::<Listing>::empty().push(
        Listing::new("check_update"@, "Ask the release server whether a newer build is available"@).risk("safe"@)
            .arg(Takes::new("channel"@, ParamKind::Text).left_out().described("Release channel: stable, beta, or nightly (default: the configured one)"@)),
    ).push(
        Listing::new("apply_update"@, "Download, verify, and install the channel's latest build, then restart"@).risk("dangerous"@).deferred()
            .arg(Takes::new("channel"@, ParamKind::Text).left_out().described("Release channel to install from (default: the configured one)"@))
            .arg(Takes::new("force"@, ParamKind::Flag).left_out().described("Reinstall even if the channel build matches what is installed"@)),
    )
}

/// The actions this module publishes.
pub fn actions() -> (r: Vec<Action>)
    ensures
        surface::shown(r@) == published(),
{
    let mut out: Vec<Action> = Vec::new();
    assert(surface::shown(out@) =~= Seq::<Listing>::empty());
    add_action(
        &mut out,
        Action::new("check_update", "Ask the release server whether a newer build is available").risk("safe")
            .arg(Param::text("channel").optional().describe("Release channel: stable, beta, or nightly (default: the configured one)")),
    );
    add_action(
        &mut out,
        Action::new("apply_update", "Download, verify, and install the channel's latest build, then restart").risk("dangerous").defers()
            .arg(Param::text("channel").optional().describe("Release channel to install from (default: the configured one)"))
            .arg(Param::flag("force").optional().describe("Reinstall even if the channel build matches what is installed")),
    );
    out
}

// ── Laws ────────────────────────────────────────────────────────────

/// What travels as data has no escape in it.
pub proof fn law_no_escape_is_left(s: Seq<char>, from: int)
    requires
        0 <= from <= s.len(),
    ensures
        !colourless(s, from).contains('\u{1b}'),
    decreases s.len() - from,
{
    if from < s.len() {
        if s[from] == '\u{1b}' {
            lemma_escape_end(s, from + 1);
            law_no_escape_is_left(s, escape_end(s, from + 1));
        } else {
            law_no_escape_is_left(s, from + 1);
            let r = seq![s[from]] + colourless(s, from + 1);
            if r.contains('\u{1b}') {
                let k = choose|k: int| 0 <= k < r.len() && r[k] == '\u{1b}';
                if k > 0 {
                    assert(colourless(s, from + 1)[k - 1] == '\u{1b}');
                }
            }
        }
    }
}

/// A text without an escape stays as it is, and an escape goes up to its letter, with what stands
/// between, and no further.
pub proof fn law_an_escape_goes_up_to_its_letter(
    a: Seq<char>,
    code: Seq<char>,
    letter: char,
    b: Seq<char>,
)
    requires
        !a.contains('\u{1b}'),
        !b.contains('\u{1b}'),
        forall|i: int| 0 <= i < code.len() ==> !is_letter(#[trigger] code[i]),
        is_letter(letter),
    ensures
        colourless(a, 0) == a,
        colourless(a.push('\u{1b}') + code.push(letter) + b, 0) == a + b,
{
    let s = a.push('\u{1b}') + code.push(letter) + b;
    let n = a.len() as int;
    let end = n + 1 + code.len() + 1;
    lemma_kept(s, 0, n);
    assert(s[n] == '\u{1b}');
    lemma_letter(s, n + 1, end - 1);
    lemma_kept(s, end, s.len() as int);
    lemma_kept(a, 0, n);
    assert(s.subrange(0, n) =~= a);
    assert(s.subrange(end, s.len() as int) =~= b);
    assert(a.subrange(0, n) =~= a);
    assert(colourless(s, s.len() as int) =~= Seq::<char>::empty());
    assert(colourless(a, n) =~= Seq::<char>::empty());
    assert(b + Seq::<char>::empty() =~= b);
    assert(a + Seq::<char>::empty() =~= a);
}

proof fn lemma_kept(s: Seq<char>, from: int, to: int)
    requires
        0 <= from <= to <= s.len(),
        forall|i: int| from <= i < to ==> #[trigger] s[i] != '\u{1b}',
    ensures
        colourless(s, from) == s.subrange(from, to) + colourless(s, to),
    decreases to - from,
{
    if from == to {
        assert(s.subrange(from, to) + colourless(s, to) =~= colourless(s, to));
    } else {
        assert(s[from] != '\u{1b}');
        lemma_kept(s, from + 1, to);
        assert(seq![s[from]] + (s.subrange(from + 1, to) + colourless(s, to)) =~= s.subrange(
            from,
            to,
        ) + colourless(s, to));
    }
}

proof fn lemma_letter(s: Seq<char>, from: int, at: int)
    requires
        0 <= from <= at < s.len(),
        is_letter(s[at]),
        forall|i: int| from <= i < at ==> !is_letter(#[trigger] s[i]),
    ensures
        escape_end(s, from) == at + 1,
    decreases at - from,
{
    if from < at {
        assert(!is_letter(s[from]));
        lemma_letter(s, from + 1, at);
    }
}

/// Of what was printed each line is told without its colours and without the white space around it,
/// and an empty line is not told.
pub proof fn law_what_was_printed_is_told_line_by_line(lines: Seq<Seq<char>>, n: int)
    requires
        0 <= n < lines.len(),
    ensures
        ({
            let one = text::trim(colourless(lines[n], 0));
            &&& one.len() > 0 ==> plain_lines(lines, n + 1) == plain_lines(lines, n).push(one)
            &&& one.len() == 0 ==> plain_lines(lines, n + 1) == plain_lines(lines, n)
        }),
        plain_lines(lines, 0).len() == 0,
{
}

/// A channel is handed on where one is named.
pub proof fn law_a_channel_is_handed_on(args: Tree, words: Seq<Seq<char>>)
    ensures
        ({
            let named = text::trim(json::text_under(args, "channel"@));
            &&& named.len() > 0 ==> with_channel(words, channel(args)) == words + seq![
                "--channel"@,
                named,
            ] && channel_word(args) == named
            &&& named.len() == 0 ==> with_channel(words, channel(args)) == words && channel_word(
                args,
            ) == "configured"@
        }),
{
    let named = text::trim(json::text_under(args, "channel"@));
    assert(words.push("--channel"@).push(named) =~= words + seq!["--channel"@, named]);
}

/// What went wrong is the last thing that was printed as an error, or else the last thing printed.
pub proof fn law_the_last_word_is_an_error_first(
    detail: Seq<Seq<char>>,
    stderr: Seq<Seq<char>>,
    last: Seq<char>,
)
    ensures
        last_word(detail, stderr.push(last)) == last,
        last_word(detail.push(last), Seq::empty()) == last,
        last_word(Seq::empty(), Seq::empty()).len() == 0,
{
    reveal_strlit("");
}

/// A check says one of two things, and never both.
pub proof fn law_a_check_says_one_thing(detail: Seq<Seq<char>>, available: bool)
    ensures
        check_tree(available, detail)->Object_0[0] == ("update_available"@, Tree::Bool(available)),
        check_tree(available, detail)->Object_0[1] == ("up_to_date"@, Tree::Bool(!available)),
        check_tree(available, detail)->Object_0[2] == (
            "detail"@,
            Tree::Array(json::string_trees(detail)),
        ),
{
}

/// Looking is safe, and installing is dangerous.
pub proof fn law_how_the_updates_actions_are_graded()
    ensures
        published().len() == 2,
        published()[0].name == "check_update"@ && published()[0].grade == "safe"@,
        published()[1].name == "apply_update"@ && published()[1].grade == "dangerous"@,
{
}

/// What the updater means is in its exit code: none for what is current, ten for what is there, and
/// anything else for a check that failed.
pub proof fn law_what_an_exit_code_means(code: i32, stdout: &str, stderr: &str, r: Result<Json, String>)
    requires
        call_ensures(check_outcome, (code, stdout, stderr), r),
    ensures
        r is Ok <==> code == 0 || code == 10,
        code == 0 ==> r->Ok_0@->Object_0[0] == ("update_available"@, Tree::Bool(false)),
        code == 10 ==> r->Ok_0@->Object_0[0] == ("update_available"@, Tree::Bool(true)),
        code != 0 && code != 10 ==> r->Err_0@ == "update check failed: "@ + last_word(
            plain_text(stdout@),
            plain_text(stderr@),
        ),
{
}

/// The updater is asked to check or to apply, on the channel that is named, and by force only where
/// that is said.
pub proof fn law_what_the_updater_is_asked(args: Json, check: Vec<String>, apply: Vec<String>)
    requires
        call_ensures(check_command, (&args,), check),
        call_ensures(apply_command, (&args,), apply),
        json::argument(args@, "channel"@).len() == 0,
    ensures
        text::strs(check@) == seq!["check"@],
        json::flag_under(args@, "force"@) == Some(true) ==> text::strs(apply@) == seq![
            "apply"@,
            "--force"@,
        ],
        json::flag_under(args@, "force"@) != Some(true) ==> text::strs(apply@) == seq!["apply"@],
{
    assert(seq!["apply"@].push("--force"@) =~= seq!["apply"@, "--force"@]);
}

} // verus!
