//! Text as the sequence of its characters.
//!
//! Every contract in this crate speaks of a string by its view, a `Seq<char>`. This module holds
//! the small vocabulary the other modules phrase themselves in: trimming, cutting, splitting,
//! joining, searching and writing numbers down.
use vstd::prelude::*;

verus! {

/// `String::push` of std: the character goes on the end.
pub assume_specification[ String::push ](s: &mut String, c: char)
    ensures
        final(s)@ == old(s)@.push(c),
;

/// The characters of a string, in order.
pub fn chars_of(s: &str) -> (r: Vec<char>)
    ensures
        r@ == s@,
{
    let mut out: Vec<char> = Vec::new();
    for c in it: s.chars()
        invariant
            out@ == s@.take(it.index()),
            it.seq() == s@,
    {
        out.push(c);
    }
    assert(out@ =~= s@);
    out
}

/// A text that may not be there, copied.
pub fn copied(s: &Option<String>) -> (r: Option<String>)
    ensures
        maybe(r) == maybe(*s),
{
    match s {
        Some(t) => Some(t.clone()),
        None => None,
    }
}

/// The string made of these characters.
pub fn string_of(v: &[char]) -> (r: String)
    ensures
        r@ == v@,
{
    let mut out = String::new();
    let mut i: usize = 0;
    while i < v.len()
        invariant
            i <= v@.len(),
            out@ == v@.take(i as int),
        decreases v@.len() - i,
    {
        out.push(v[i]);
        i += 1;
        assert(v@.take(i as int) =~= v@.take(i - 1).push(v@[i - 1]));
    }
    assert(v@.take(i as int) =~= v@);
    out
}

/// Whether two strings hold the same characters.
pub fn same(a: &str, b: &str) -> (r: bool)
    ensures
        r == (a@ == b@),
{
    let x = chars_of(a);
    let y = chars_of(b);
    if x.len() != y.len() {
        return false;
    }
    let mut i: usize = 0;
    while i < x.len()
        invariant
            x@ == a@,
            y@ == b@,
            x@.len() == y@.len(),
            i <= x@.len(),
            forall|k: int| 0 <= k < i ==> x@[k] == y@[k],
        decreases x@.len() - i,
    {
        if x[i] != y[i] {
            return false;
        }
        i += 1;
    }
    assert(a@ =~= b@);
    true
}

/// What strings hold, one by one.
pub open spec fn strs(v: Seq<String>) -> Seq<Seq<char>> {
    Seq::new(v.len(), |i: int| v[i]@)
}

/// What a string holds, where there is one.
pub open spec fn maybe(s: Option<String>) -> Option<Seq<char>> {
    match s {
        Some(t) => Some(t@),
        None => None,
    }
}

/// What a text holds, where there is one.
pub open spec fn maybe_str(s: Option<&str>) -> Option<Seq<char>> {
    match s {
        Some(t) => Some(t@),
        None => None,
    }
}

// ── White space ─────────────────────────────────────────────────────

/// The characters Unicode calls white space.
pub open spec fn is_white(c: char) -> bool {
    let n = c as u32;
    ||| 0x09 <= n <= 0x0d
    ||| n == 0x20
    ||| n == 0x85
    ||| n == 0xa0
    ||| n == 0x1680
    ||| 0x2000 <= n <= 0x200a
    ||| n == 0x2028
    ||| n == 0x2029
    ||| n == 0x202f
    ||| n == 0x205f
    ||| n == 0x3000
}

pub fn white(c: char) -> (r: bool)
    ensures
        r == is_white(c),
{
    let n: u32 = c as u32;
    (0x09 <= n && n <= 0x0d) || n == 0x20 || n == 0x85 || n == 0xa0 || n == 0x1680 || (0x2000 <= n
        && n <= 0x200a) || n == 0x2028 || n == 0x2029 || n == 0x202f || n == 0x205f || n == 0x3000
}

/// `s` without the white space it starts with.
pub open spec fn trim_start(s: Seq<char>) -> Seq<char>
    decreases s.len(),
{
    if s.len() > 0 && is_white(s[0]) {
        trim_start(s.drop_first())
    } else {
        s
    }
}

/// `s` without the white space it ends with.
pub open spec fn trim_end(s: Seq<char>) -> Seq<char>
    decreases s.len(),
{
    if s.len() > 0 && is_white(s.last()) {
        trim_end(s.drop_last())
    } else {
        s
    }
}

/// `s` without the white space around it.
pub open spec fn trim(s: Seq<char>) -> Seq<char> {
    trim_end(trim_start(s))
}

/// Whether there is anything in `s` but white space.
pub open spec fn blank(s: Seq<char>) -> bool {
    trim(s).len() == 0
}

proof fn lemma_trim_start_first(s: Seq<char>)
    ensures
        trim_start(s).len() > 0 ==> !is_white(trim_start(s)[0]),
    decreases s.len(),
{
    if s.len() > 0 && is_white(s[0]) {
        lemma_trim_start_first(s.drop_first());
    }
}

proof fn lemma_trim_end_last(s: Seq<char>)
    ensures
        trim_end(s).len() <= s.len(),
        trim_end(s) == s.take(trim_end(s).len() as int),
        trim_end(s).len() > 0 ==> !is_white(trim_end(s).last()),
    decreases s.len(),
{
    if s.len() > 0 && is_white(s.last()) {
        let t = s.drop_last();
        lemma_trim_end_last(t);
        assert(t.take(trim_end(t).len() as int) =~= s.take(trim_end(t).len() as int));
    } else {
        assert(s.take(s.len() as int) =~= s);
    }
}

/// A trimmed text has nothing left to trim.
pub proof fn lemma_trim_twice(s: Seq<char>)
    ensures
        trim(trim(s)) == trim(s),
{
    let a = trim_start(s);
    lemma_trim_start_first(s);
    lemma_trim_end_last(a);
    let b = trim(s);
    if b.len() > 0 {
        assert(b[0] == a[0]);
    }
    assert(trim_start(b) == b);
}

/// Where the text proper starts.
pub fn start_of(v: &[char]) -> (i: usize)
    ensures
        i <= v@.len(),
        v@.skip(i as int) == trim_start(v@),
{
    let mut i: usize = 0;
    assert(v@.skip(0) =~= v@);
    while i < v.len() && white(v[i])
        invariant
            i <= v@.len(),
            trim_start(v@) == trim_start(v@.skip(i as int)),
        decreases v@.len() - i,
    {
        assert(v@.skip(i as int).drop_first() =~= v@.skip(i + 1));
        i += 1;
    }
    i
}

/// Where the text proper ends.
pub fn end_of(v: &[char]) -> (i: usize)
    ensures
        i <= v@.len(),
        v@.take(i as int) == trim_end(v@),
{
    let mut i: usize = v.len();
    assert(v@.take(i as int) =~= v@);
    while i > 0 && white(v[i - 1])
        invariant
            i <= v@.len(),
            trim_end(v@) == trim_end(v@.take(i as int)),
        decreases i,
    {
        assert(v@.take(i as int).drop_last() =~= v@.take(i - 1));
        i -= 1;
    }
    i
}

pub fn trim_start_of(s: &str) -> (r: String)
    ensures
        r@ == trim_start(s@),
{
    let v = chars_of(s);
    let i: usize = start_of(v.as_slice());
    string_of(vstd::slice::slice_subrange(v.as_slice(), i, v.len()))
}

pub fn trim_end_of(s: &str) -> (r: String)
    ensures
        r@ == trim_end(s@),
{
    let v = chars_of(s);
    let i: usize = end_of(v.as_slice());
    string_of(vstd::slice::slice_subrange(v.as_slice(), 0, i))
}

pub fn trimmed(s: &str) -> (r: String)
    ensures
        r@ == trim(s@),
{
    trim_end_of(trim_start_of(s).as_str())
}

pub fn is_blank(s: &str) -> (r: bool)
    ensures
        r == blank(s@),
{
    trimmed(s).as_str().is_empty()
}

// ── Letters ─────────────────────────────────────────────────────────

pub open spec fn lower_char(c: char) -> char {
    if 'A' <= c <= 'Z' {
        ((c as u8 + 32) as u8) as char
    } else {
        c
    }
}

/// What has been made small stays as it is.
pub proof fn lemma_lower_char_twice(c: char)
    ensures
        lower_char(lower_char(c)) == lower_char(c),
{
}

/// `s` with its ASCII capitals made small.
pub open spec fn lower(s: Seq<char>) -> Seq<char> {
    s.map_values(|c: char| lower_char(c))
}

pub fn lowered(s: &str) -> (r: String)
    ensures
        r@ == lower(s@),
{
    let v = chars_of(s);
    let mut out = String::new();
    let mut i: usize = 0;
    while i < v.len()
        invariant
            i <= v@.len(),
            v@ == s@,
            out@ == lower(s@).take(i as int),
        decreases v@.len() - i,
    {
        let c = v[i];
        let small = if 'A' <= c && c <= 'Z' {
            (c as u8 + 32) as char
        } else {
            c
        };
        out.push(small);
        i += 1;
        assert(lower(s@).take(i as int) =~= lower(s@).take(i - 1).push(lower(s@)[i - 1]));
    }
    assert(lower(s@).take(i as int) =~= lower(s@));
    out
}

/// The text `str::to_lowercase` of std makes of a text.
pub uninterp spec fn small(s: Seq<char>) -> Seq<char>;

/// Whether a text is made of ASCII characters.
pub open spec fn ascii(s: Seq<char>) -> bool {
    forall|i: int| 0 <= i < s.len() ==> (#[trigger] s[i]) < '\u{80}'
}

/// `str::to_lowercase` of std, which goes by the letters of every script: what it makes of a text
/// depends on the text alone, and of one in ASCII it makes the capitals small and leaves the rest.
/// What it makes of letters outside ASCII is left unsaid, and so is how what it makes of a text
/// with such letters goes with what it makes of the text's parts: a letter may turn out one way at
/// a word's end and another way inside it.
#[verifier::external_body]
pub(crate) fn to_small(s: &str) -> (r: String)
    ensures
        r@ == small(s@),
        ascii(s@) ==> r@ == lower(s@),
{
    s.to_lowercase()
}

/// The text `char::to_uppercase` of std makes of a character.
pub uninterp spec fn upper(c: char) -> Seq<char>;

/// `char::to_uppercase` of std, which goes by the letters of every script: what it makes of a
/// character depends on the character alone.
#[verifier::external_body]
pub(crate) fn to_upper(c: char) -> (r: String)
    ensures
        r@ == upper(c),
{
    c.to_uppercase().to_string()
}

/// A text with its first letter large.
pub open spec fn capitalised(s: Seq<char>) -> Seq<char> {
    if s.len() == 0 {
        s
    } else {
        upper(s[0]) + s.skip(1)
    }
}

/// A text with its first letter large.
pub fn capitalise(s: &str) -> (r: String)
    ensures
        r@ == capitalised(s@),
{
    let v = chars_of(s);
    if v.len() == 0 {
        return s.to_owned();
    }
    let mut out = to_upper(v[0]);
    out.append(rest(v.as_slice(), 1).as_str());
    out
}

// ── Searching ───────────────────────────────────────────────────────

/// Whether `n` stands in `h` at position `i`.
pub open spec fn at(h: Seq<char>, i: int, n: Seq<char>) -> bool {
    0 <= i && i + n.len() <= h.len() && h.subrange(i, i + n.len()) == n
}

/// Whether `n` stands anywhere in `h`.
pub open spec fn contains(h: Seq<char>, n: Seq<char>) -> bool {
    exists|i: int| at(h, i, n)
}

/// The first position at or after `from` where `n` stands in `h`.
pub open spec fn find(h: Seq<char>, n: Seq<char>, from: int) -> Option<int>
    decreases h.len() - from,
{
    if from < 0 || from + n.len() > h.len() {
        None
    } else if at(h, from, n) {
        Some(from)
    } else if from < h.len() {
        find(h, n, from + 1)
    } else {
        None
    }
}

pub fn stands_at(h: &[char], i: usize, n: &[char]) -> (r: bool)
    ensures
        r == at(h@, i as int, n@),
{
    if n.len() > h.len() || i > h.len() - n.len() {
        return false;
    }
    let whole: usize = h.len();
    let mut k: usize = 0;
    while k < n.len()
        invariant
            k <= n@.len(),
            whole == h@.len(),
            i + n@.len() <= whole,
            forall|j: int| 0 <= j < k ==> h@[i + j] == n@[j],
        decreases n@.len() - k,
    {
        if h[i + k] != n[k] {
            assert(h@.subrange(i as int, i + n@.len())[k as int] != n@[k as int]);
            return false;
        }
        k += 1;
    }
    assert(h@.subrange(i as int, i + n@.len()) =~= n@);
    true
}

pub fn find_in(h: &[char], n: &[char], from: usize) -> (r: Option<usize>)
    ensures
        (r matches Some(i) ==> find(h@, n@, from as int) == Some(i as int) && at(h@, i as int, n@)
            && i >= from),
        r is None ==> find(h@, n@, from as int) is None,
{
    let mut i: usize = from;
    while i <= h.len() && n.len() <= h.len() - i
        invariant
            from <= i,
            find(h@, n@, from as int) == find(h@, n@, i as int),
            i <= h@.len() + 1 || i == from,
        decreases h@.len() + 1 - i,
    {
        if stands_at(h, i, n) {
            return Some(i);
        }
        if i == h.len() {
            return None;
        }
        i += 1;
    }
    None
}

/// A search that finds nothing means nothing is there, and one that finds something is right.
pub proof fn lemma_find_is_contains(h: Seq<char>, n: Seq<char>, from: int)
    requires
        0 <= from,
    ensures
        find(h, n, from) is Some <==> exists|i: int| from <= i && at(h, i, n),
        find(h, n, from) matches Some(i) ==> from <= i && at(h, i, n),
        find(h, n, from) matches Some(i) ==> forall|j: int| from <= j < i ==> !at(h, j, n),
    decreases h.len() - from,
{
    if from + n.len() > h.len() {
    } else if at(h, from, n) {
    } else if from < h.len() {
        lemma_find_is_contains(h, n, from + 1);
        assert forall|i: int| from <= i && at(h, i, n) implies from + 1 <= i by {}
    } else {
        assert forall|i: int| from <= i implies !at(h, i, n) by {}
    }
}

pub fn has(h: &str, n: &str) -> (r: bool)
    ensures
        r == contains(h@, n@),
{
    let x = chars_of(h);
    let y = chars_of(n);
    proof {
        lemma_find_is_contains(h@, n@, 0);
        assert(contains(h@, n@) <==> exists|i: int| 0 <= i && at(h@, i, n@));
    }
    find_in(x.as_slice(), y.as_slice(), 0).is_some()
}

pub fn starts(h: &str, n: &str) -> (r: bool)
    ensures
        r == n@.is_prefix_of(h@),
{
    let x = chars_of(h);
    let y = chars_of(n);
    stands_at(x.as_slice(), 0, y.as_slice())
}

// ── Splitting ───────────────────────────────────────────────────────

/// The first position at or after `from` of the character `c`, or the length where there is none.
pub open spec fn next_char(s: Seq<char>, c: char, from: int) -> int
    decreases s.len() - from,
{
    if from < 0 || from >= s.len() {
        s.len() as int
    } else if s[from] == c {
        from
    } else {
        next_char(s, c, from + 1)
    }
}

pub proof fn lemma_next_char(s: Seq<char>, c: char, from: int)
    requires
        0 <= from <= s.len(),
    ensures
        from <= next_char(s, c, from) <= s.len(),
        next_char(s, c, from) < s.len() ==> s[next_char(s, c, from)] == c,
        forall|j: int| from <= j < next_char(s, c, from) ==> s[j] != c,
    decreases s.len() - from,
{
    if from < s.len() && s[from] != c {
        lemma_next_char(s, c, from + 1);
    }
}

pub fn next_at(v: &[char], c: char, from: usize) -> (i: usize)
    requires
        from <= v@.len(),
    ensures
        i == next_char(v@, c, from as int),
        from <= i <= v@.len(),
        i < v@.len() ==> v@[i as int] == c,
{
    let mut i: usize = from;
    while i < v.len() && v[i] != c
        invariant
            from <= i <= v@.len(),
            next_char(v@, c, from as int) == next_char(v@, c, i as int),
        decreases v@.len() - i,
    {
        i += 1;
    }
    i
}

/// The pieces of `s` between the occurrences of `c`, the empty ones too.
pub open spec fn split(s: Seq<char>, c: char) -> Seq<Seq<char>>
    decreases s.len(),
{
    proof {
        lemma_next_char(s, c, 0);
    }
    let i = next_char(s, c, 0);
    if i >= s.len() {
        seq![s]
    } else {
        seq![s.take(i)] + split(s.skip(i + 1), c)
    }
}

pub fn split_at_char(s: &str, c: char) -> (r: Vec<String>)
    ensures
        strs(r@) == split(s@, c),
{
    let v = chars_of(s);
    let mut out: Vec<String> = Vec::new();
    let mut from: usize = 0;
    proof {
        assert(v@.skip(0) =~= s@);
        assert(strs(out@) + split(s@, c) =~= split(s@, c));
    }
    loop
        invariant
            v@ == s@,
            from <= v@.len(),
            split(s@, c) == strs(out@) + split(s@.skip(from as int), c),
        decreases v@.len() - from,
    {
        let i: usize = next_at(v.as_slice(), c, from);
        let ghost before = strs(out@);
        let piece = string_of(vstd::slice::slice_subrange(v.as_slice(), from, i));
        out.push(piece);
        proof {
            let rest = s@.skip(from as int);
            lemma_next_char_skip(s@, c, from as int, 0);
            lemma_next_char(rest, c, 0);
            assert(strs(out@) =~= before.push(piece@));
            if i >= v@.len() {
                assert(s@.subrange(from as int, i as int) =~= rest);
                assert(before + seq![rest] =~= before.push(rest));
            } else {
                assert(s@.subrange(from as int, i as int) =~= rest.take(i - from));
                assert(rest.skip(i - from + 1) =~= s@.skip(i + 1));
                assert(before + (seq![piece@] + split(s@.skip(i + 1), c)) =~= before.push(piece@)
                    + split(s@.skip(i + 1), c));
            }
        }
        if i >= v.len() {
            return out;
        }
        from = i + 1;
    }
}

pub proof fn lemma_next_char_skip(s: Seq<char>, c: char, k: int, from: int)
    requires
        0 <= k,
        0 <= from,
        k + from <= s.len(),
    ensures
        next_char(s, c, k + from) == k + next_char(s.skip(k), c, from),
    decreases s.len() - from,
{
    if k + from < s.len() && s[k + from] != c {
        lemma_next_char_skip(s, c, k, from + 1);
    }
}

/// A line without the carriage return that may close it.
pub open spec fn without_return(s: Seq<char>) -> Seq<char> {
    if s.len() > 0 && s.last() == '\r' {
        s.drop_last()
    } else {
        s
    }
}

/// The lines of `s`. A last line that is empty is not one.
pub open spec fn lines(s: Seq<char>) -> Seq<Seq<char>>
    decreases s.len(),
{
    proof {
        lemma_next_char(s, '\n', 0);
    }
    let i = next_char(s, '\n', 0);
    if s.len() == 0 {
        Seq::empty()
    } else if i >= s.len() {
        seq![s]
    } else {
        seq![without_return(s.take(i))] + lines(s.skip(i + 1))
    }
}

pub fn lines_of(s: &str) -> (r: Vec<String>)
    ensures
        strs(r@) == lines(s@),
{
    let v = chars_of(s);
    let mut out: Vec<String> = Vec::new();
    let mut from: usize = 0;
    proof {
        assert(v@.skip(0) =~= s@);
        assert(strs(out@) + lines(s@) =~= lines(s@));
    }
    while from < v.len()
        invariant
            v@ == s@,
            from <= v@.len(),
            lines(s@) == strs(out@) + lines(s@.skip(from as int)),
        decreases v@.len() - from,
    {
        let i: usize = next_at(v.as_slice(), '\n', from);
        let ghost before = strs(out@);
        let ghost rest = s@.skip(from as int);
        proof {
            lemma_next_char_skip(s@, '\n', from as int, 0);
            lemma_next_char(rest, '\n', 0);
        }
        if i >= v.len() {
            let piece = string_of(vstd::slice::slice_subrange(v.as_slice(), from, i));
            out.push(piece);
            proof {
                assert(s@.subrange(from as int, i as int) =~= rest);
                assert(strs(out@) =~= before.push(rest));
                assert(before + seq![rest] =~= before.push(rest));
            }
            return out;
        }
        let end: usize = if i > from && v[i - 1] == '\r' {
            i - 1
        } else {
            i
        };
        let piece = string_of(vstd::slice::slice_subrange(v.as_slice(), from, end));
        out.push(piece);
        proof {
            let line = rest.take(i - from);
            assert(line.len() > 0 ==> line.last() == s@[i - 1]);
            assert(piece@ =~= without_return(line));
            assert(strs(out@) =~= before.push(piece@));
            assert(rest.skip(i - from + 1) =~= s@.skip(i + 1));
            assert(before + (seq![piece@] + lines(s@.skip(i + 1))) =~= before.push(piece@) + lines(
                s@.skip(i + 1),
            ));
        }
        from = i + 1;
    }
    assert(lines(s@.skip(from as int)) =~= Seq::<Seq<char>>::empty());
    assert(strs(out@) + Seq::<Seq<char>>::empty() =~= strs(out@));
    out
}

/// How long the run of characters other than white space is that starts at `from`.
pub open spec fn word_end(s: Seq<char>, from: int) -> int
    decreases s.len() - from,
{
    if from < 0 || from >= s.len() {
        s.len() as int
    } else if is_white(s[from]) {
        from
    } else {
        word_end(s, from + 1)
    }
}

/// The words of `s`: what stands between the white space.
pub open spec fn words(s: Seq<char>) -> Seq<Seq<char>>
    decreases s.len(),
{
    proof {
        lemma_trim_start(s);
        lemma_word_end(trim_start(s), 0);
    }
    let t = trim_start(s);
    if t.len() == 0 {
        Seq::empty()
    } else {
        let i = word_end(t, 0);
        seq![t.take(i)] + words(t.skip(i))
    }
}

pub proof fn lemma_word_end(s: Seq<char>, from: int)
    requires
        0 <= from <= s.len(),
    ensures
        from <= word_end(s, from) <= s.len(),
        word_end(s, from) < s.len() ==> is_white(s[word_end(s, from)]),
        forall|j: int| from <= j < word_end(s, from) ==> !is_white(s[j]),
        from < s.len() && !is_white(s[from]) ==> from < word_end(s, from),
    decreases s.len() - from,
{
    if from < s.len() && !is_white(s[from]) {
        lemma_word_end(s, from + 1);
    }
}

pub proof fn lemma_trim_start(s: Seq<char>)
    ensures
        trim_start(s).len() <= s.len(),
        trim_start(s) == s.skip(s.len() - trim_start(s).len()),
        trim_start(s).len() > 0 ==> !is_white(trim_start(s)[0]),
    decreases s.len(),
{
    if s.len() > 0 && is_white(s[0]) {
        lemma_trim_start(s.drop_first());
        assert(trim_start(s) =~= s.skip(s.len() - trim_start(s).len()));
    } else {
        assert(s.skip(0) =~= s);
    }
}

proof fn lemma_trim_start_add(a: Seq<char>, b: Seq<char>)
    ensures
        trim_start(a + b) == if trim_start(a).len() > 0 {
            trim_start(a) + b
        } else {
            trim_start(b)
        },
    decreases a.len(),
{
    if a.len() == 0 {
        assert(a + b =~= b);
    } else if is_white(a[0]) {
        assert((a + b).drop_first() =~= a.drop_first() + b);
        lemma_trim_start_add(a.drop_first(), b);
    } else {
        assert((a + b)[0] == a[0]);
    }
}

proof fn lemma_word_end_add(a: Seq<char>, b: Seq<char>, from: int)
    requires
        0 <= from <= a.len(),
        b.len() > 0,
        is_white(b[0]),
    ensures
        word_end(a + b, from) == word_end(a, from),
    decreases a.len() - from,
{
    if from == a.len() {
        assert((a + b)[from] == b[0]);
    } else {
        assert((a + b)[from] == a[from]);
        if !is_white(a[from]) {
            lemma_word_end_add(a, b, from + 1);
        }
    }
}

/// The words before white space and the words from it on are the words of the whole.
pub proof fn lemma_words_add(a: Seq<char>, b: Seq<char>)
    requires
        b.len() > 0,
        is_white(b[0]),
    ensures
        words(a + b) == words(a) + words(b),
    decreases a.len(),
{
    let t = trim_start(a);
    lemma_trim_start(a);
    lemma_trim_start_add(a, b);
    if t.len() == 0 {
        assert(words(a) + words(b) =~= words(b));
        assert(words(a + b) =~= words(b));
    } else {
        let i = word_end(t, 0);
        lemma_word_end(t, 0);
        lemma_word_end_add(t, b, 0);
        assert((t + b).take(i) =~= t.take(i));
        assert((t + b).skip(i) =~= t.skip(i) + b);
        lemma_words_add(t.skip(i), b);
        assert(words(a) == seq![t.take(i)] + words(t.skip(i)));
        assert(words(a + b) == seq![t.take(i)] + words(t.skip(i) + b));
        assert(seq![t.take(i)] + (words(t.skip(i)) + words(b)) =~= (seq![t.take(i)] + words(
            t.skip(i),
        )) + words(b));
    }
}

/// A space in front of a text makes no word.
pub proof fn lemma_words_after_space(s: Seq<char>)
    ensures
        words(seq![' '] + s) == words(s),
{
    let spaced = seq![' '] + s;
    assert(spaced.drop_first() =~= s);
    assert(trim_start(spaced) == trim_start(s));
    assert(words(spaced) =~= words(s));
}

/// Where the word that starts at `from` ends.
pub fn word_ends(v: &[char], from: usize) -> (i: usize)
    requires
        from <= v@.len(),
    ensures
        i == word_end(v@, from as int),
        from <= i <= v@.len(),
{
    let mut i: usize = from;
    while i < v.len() && !white(v[i])
        invariant
            from <= i <= v@.len(),
            word_end(v@, from as int) == word_end(v@, i as int),
        decreases v@.len() - i,
    {
        i += 1;
    }
    i
}

/// `s` without the `c`s it starts with.
pub open spec fn without_leading(s: Seq<char>, c: char) -> Seq<char>
    decreases s.len(),
{
    if s.len() > 0 && s[0] == c {
        without_leading(s.drop_first(), c)
    } else {
        s
    }
}

pub fn leading(v: &[char], c: char) -> (i: usize)
    ensures
        i <= v@.len(),
        v@.skip(i as int) == without_leading(v@, c),
{
    let mut i: usize = 0;
    assert(v@.skip(0) =~= v@);
    while i < v.len() && v[i] == c
        invariant
            i <= v@.len(),
            without_leading(v@, c) == without_leading(v@.skip(i as int), c),
        decreases v@.len() - i,
    {
        assert(v@.skip(i as int).drop_first() =~= v@.skip(i + 1));
        i += 1;
    }
    i
}

/// The part of `v` from `from` up to `to`.
pub fn part(v: &[char], from: usize, to: usize) -> (r: String)
    requires
        from <= to <= v@.len(),
    ensures
        r@ == v@.subrange(from as int, to as int),
{
    string_of(vstd::slice::slice_subrange(v, from, to))
}

/// The part of `v` from `from` on.
pub fn rest(v: &[char], from: usize) -> (r: String)
    requires
        from <= v@.len(),
    ensures
        r@ == v@.skip(from as int),
{
    assert(v@.subrange(from as int, v@.len() as int) =~= v@.skip(from as int));
    part(v, from, v.len())
}

pub fn words_of(s: &str) -> (r: Vec<String>)
    ensures
        strs(r@) == words(s@),
{
    let v = chars_of(s);
    let mut out: Vec<String> = Vec::new();
    let mut from: usize = 0;
    proof {
        assert(v@.skip(0) =~= s@);
        assert(strs(out@) + words(s@) =~= words(s@));
    }
    loop
        invariant
            v@ == s@,
            from <= v@.len(),
            words(s@) == strs(out@) + words(s@.skip(from as int)),
        decreases v@.len() - from,
    {
        let ghost rest = s@.skip(from as int);
        let ghost before = strs(out@);
        let tail = vstd::slice::slice_subrange(v.as_slice(), from, v.len());
        assert(tail@ =~= rest);
        let k: usize = start_of(tail);
        let start: usize = from + k;
        let ghost t = trim_start(rest);
        assert(t =~= s@.skip(start as int));
        if start >= v.len() {
            assert(before + Seq::<Seq<char>>::empty() =~= before);
            return out;
        }
        let mut i: usize = start;
        proof {
            lemma_trim_start(rest);
        }
        while i < v.len() && !white(v[i])
            invariant
                v@ == s@,
                start <= i <= v@.len(),
                t == s@.skip(start as int),
                word_end(t, 0) == word_end(t, i - start),
            decreases v@.len() - i,
        {
            assert(t[i - start] == s@[i as int]);
            i += 1;
        }
        proof {
            lemma_word_end(t, 0);
            if i < v@.len() {
                assert(t[i - start] == s@[i as int]);
            }
        }
        let piece = string_of(vstd::slice::slice_subrange(v.as_slice(), start, i));
        out.push(piece);
        proof {
            assert(piece@ =~= t.take(i - start));
            assert(strs(out@) =~= before.push(piece@));
            assert(t.skip(i - start) =~= s@.skip(i as int));
            assert(before + (seq![piece@] + words(s@.skip(i as int))) =~= before.push(piece@)
                + words(s@.skip(i as int)));
        }
        from = i;
    }
}

// ── Joining ─────────────────────────────────────────────────────────

/// The parts, one after another, with `sep` between them.
pub open spec fn join(parts: Seq<Seq<char>>, sep: Seq<char>) -> Seq<char>
    decreases parts.len(),
{
    if parts.len() == 0 {
        Seq::empty()
    } else if parts.len() == 1 {
        parts[0]
    } else {
        join(parts.drop_last(), sep) + sep + parts.last()
    }
}

/// Lines that are joined by line ends can be told from the whole: where no part has a line end in
/// it, two joins that read alike are joins of the same parts.
pub proof fn lemma_join_lines(a: Seq<Seq<char>>, b: Seq<Seq<char>>)
    requires
        a.len() > 0,
        b.len() > 0,
        forall|i: int| 0 <= i < a.len() ==> !(#[trigger] a[i]).contains('\n'),
        forall|i: int| 0 <= i < b.len() ==> !(#[trigger] b[i]).contains('\n'),
        join(a, "\n"@) == join(b, "\n"@),
    ensures
        a == b,
    decreases a.len(),
{
    reveal_strlit("\n");
    let (x, y) = (join(a, "\n"@), join(b, "\n"@));
    let p = join(a.drop_last(), "\n"@);
    let q = join(b.drop_last(), "\n"@);
    if a.len() > 1 {
        assert(x[p.len() as int] == '\n');
    }
    if b.len() > 1 {
        assert(y[q.len() as int] == '\n');
    }
    if a.len() == 1 || b.len() == 1 {
        if a.len() > 1 {
            assert(b[0].contains('\n'));
        }
        if b.len() > 1 {
            assert(a[0].contains('\n'));
        }
        assert(a =~= b);
    } else {
        assert(x =~= (p + "\n"@) + a.last());
        assert(y =~= (q + "\n"@) + b.last());
        if p.len() < q.len() {
            let k = q.len() as int;
            assert((p + "\n"@).len() <= k < x.len());
            assert(x[k] == a.last()[k - (p + "\n"@).len()]);
            assert(a.last()[q.len() - p.len() - 1] == '\n');
            assert(a[a.len() - 1].contains('\n'));
        }
        if q.len() < p.len() {
            let k = p.len() as int;
            assert((q + "\n"@).len() <= k < y.len());
            assert(y[k] == b.last()[k - (q + "\n"@).len()]);
            assert(b.last()[p.len() - q.len() - 1] == '\n');
            assert(b[b.len() - 1].contains('\n'));
        }
        assert(p =~= x.take(p.len() as int));
        assert(q =~= y.take(q.len() as int));
        assert(a.last() =~= x.skip(p.len() + 1int));
        assert(b.last() =~= y.skip(q.len() + 1int));
        assert forall|i: int| 0 <= i < a.drop_last().len() implies !(
        #[trigger] a.drop_last()[i]).contains('\n') by {
            assert(!a[i].contains('\n'));
        }
        assert forall|i: int| 0 <= i < b.drop_last().len() implies !(
        #[trigger] b.drop_last()[i]).contains('\n') by {
            assert(!b[i].contains('\n'));
        }
        lemma_join_lines(a.drop_last(), b.drop_last());
        assert(a =~= a.drop_last().push(a.last()));
        assert(b =~= b.drop_last().push(b.last()));
    }
}

/// Every part stands in a join.
pub proof fn lemma_join_holds(a: Seq<Seq<char>>, sep: Seq<char>, i: int)
    requires
        0 <= i < a.len(),
    ensures
        contains(join(a, sep), a[i]),
    decreases a.len(),
{
    let x = join(a, sep);
    if a.len() == 1 {
        assert(x.subrange(0, a[i].len() as int) =~= a[i]);
        assert(at(x, 0, a[i]));
    } else {
        let p = join(a.drop_last(), sep);
        if i == a.len() - 1 {
            let k = (p.len() + sep.len()) as int;
            assert(x.subrange(k, k + a[i].len()) =~= a[i]);
            assert(at(x, k, a[i]));
        } else {
            lemma_join_holds(a.drop_last(), sep, i);
            let k = choose|k: int| at(p, k, a[i]);
            assert(x.subrange(k, k + a[i].len()) =~= p.subrange(k, k + a[i].len()));
            assert(at(x, k, a[i]));
        }
    }
}

pub fn joined(parts: &[String], sep: &str) -> (r: String)
    ensures
        r@ == join(strs(parts@), sep@),
{
    let mut out = String::new();
    let mut i: usize = 0;
    while i < parts.len()
        invariant
            i <= parts@.len(),
            out@ == join(strs(parts@).take(i as int), sep@),
        decreases parts@.len() - i,
    {
        if i > 0 {
            out.append(sep);
        }
        out.append(parts[i].as_str());
        i += 1;
        proof {
            let t = strs(parts@).take(i as int);
            assert(t.drop_last() =~= strs(parts@).take(i - 1));
            assert(t.last() == parts@[i - 1]@);
            if i == 1 {
                assert(Seq::<char>::empty() + parts@[0]@ =~= parts@[0]@);
            }
        }
    }
    assert(strs(parts@).take(i as int) =~= strs(parts@));
    out
}

// ── Numbers ─────────────────────────────────────────────────────────

pub open spec fn digit(d: nat) -> char {
    (48 + d) as char
}

/// `n` written in decimal.
pub open spec fn dec(n: nat) -> Seq<char>
    decreases n,
{
    if n < 10 {
        seq![digit(n)]
    } else {
        dec(n / 10).push(digit(n % 10))
    }
}

/// No two numbers are written alike.
pub proof fn lemma_dec_injective(a: nat, b: nat)
    requires
        dec(a) == dec(b),
    ensures
        a == b,
    decreases a,
{
    lemma_dec_len(a);
    lemma_dec_len(b);
    assert(digit(a % 10) as int == 48 + a % 10);
    assert(digit(b % 10) as int == 48 + b % 10);
    if a < 10 && b < 10 {
        assert(dec(a)[0] == digit(a) && dec(b)[0] == digit(b));
        assert(a % 10 == a && b % 10 == b);
    } else if a < 10 {
        lemma_dec_len(b / 10);
        assert(dec(b).len() == dec(b / 10).len() + 1);
        assert(false);
    } else if b < 10 {
        lemma_dec_len(a / 10);
        assert(dec(a).len() == dec(a / 10).len() + 1);
        assert(false);
    } else {
        assert(dec(a).last() == digit(a % 10) && dec(b).last() == digit(b % 10));
        assert(dec(a).drop_last() =~= dec(a / 10));
        assert(dec(b).drop_last() =~= dec(b / 10));
        lemma_dec_injective(a / 10, b / 10);
        assert(a == 10 * (a / 10) + a % 10);
        assert(b == 10 * (b / 10) + b % 10);
    }
}

pub proof fn lemma_dec_len(n: nat)
    ensures
        dec(n).len() >= 1,
    decreases n,
{
    if n >= 10 {
        lemma_dec_len(n / 10);
    }
}

pub fn push_dec(out: &mut String, n: u64)
    ensures
        final(out)@ == old(out)@ + dec(n as nat),
    decreases n,
{
    if n >= 10 {
        push_dec(out, n / 10);
    }
    let d: u8 = (n % 10) as u8;
    out.push((48 + d) as char);
    proof {
        if n < 10 {
            assert(old(out)@.push(digit(n as nat)) =~= old(out)@ + seq![digit(n as nat)]);
        } else {
            assert((old(out)@ + dec(n as nat / 10)).push(digit(n as nat % 10)) =~= old(out)@ + dec(
                n as nat / 10,
            ).push(digit(n as nat % 10)));
        }
    }
}

pub fn decimal(n: u64) -> (r: String)
    ensures
        r@ == dec(n as nat),
{
    let mut out = String::new();
    push_dec(&mut out, n);
    assert(Seq::<char>::empty() + dec(n as nat) =~= dec(n as nat));
    out
}

/// `n` written in decimal, with its sign where it is negative.
pub open spec fn dec_signed(n: int) -> Seq<char> {
    if n < 0 {
        seq!['-'] + dec((-n) as nat)
    } else {
        dec(n as nat)
    }
}

pub fn signed_decimal(n: i64) -> (r: String)
    ensures
        r@ == dec_signed(n as int),
{
    if n < 0 {
        let mut out = String::new();
        out.push('-');
        // The most negative number has no positive twin, so its size is reckoned one short.
        let size: u64 = (-(n + 1)) as u64 + 1;
        push_dec(&mut out, size);
        assert(Seq::<char>::empty().push('-') =~= seq!['-']);
        out
    } else {
        decimal(n as u64)
    }
}

pub open spec fn is_digit(c: char) -> bool {
    '0' <= c <= '9'
}

pub open spec fn all_digits(s: Seq<char>) -> bool {
    forall|i: int| 0 <= i < s.len() ==> is_digit(#[trigger] s[i])
}

/// The number that digits spell.
pub open spec fn spelled(s: Seq<char>) -> nat
    decreases s.len(),
{
    if s.len() == 0 {
        0
    } else {
        spelled(s.drop_last()) * 10 + (s.last() as nat - 48) as nat
    }
}

/// The number a text is, where it is digits and nothing else.
pub open spec fn number_in(s: Seq<char>) -> Option<nat> {
    if s.len() > 0 && all_digits(s) {
        Some(spelled(s))
    } else {
        None
    }
}

proof fn lemma_spelled_grows(s: Seq<char>, i: int)
    requires
        0 <= i <= s.len(),
    ensures
        spelled(s.take(i)) <= spelled(s),
    decreases s.len(),
{
    if i < s.len() {
        lemma_spelled_grows(s.drop_last(), i);
        assert(s.drop_last().take(i) =~= s.take(i));
    } else {
        assert(s.take(i) =~= s);
    }
}

/// The number that the characters from `from` on are, where they are digits and it is small
/// enough.
pub fn digits_from(v: &[char], from: usize) -> (r: Option<u64>)
    requires
        from <= v@.len(),
    ensures
        (r matches Some(n) ==> number_in(v@.skip(from as int)) == Some(n as nat)),
        r is None ==> number_in(v@.skip(from as int)) is None || number_in(v@.skip(from as int))->0
            > u64::MAX,
{
    let ghost s = v@.skip(from as int);
    if from == v.len() {
        return None;
    }
    let mut i: usize = from;
    let mut n: u64 = 0;
    while i < v.len()
        invariant
            from <= i <= v@.len(),
            s == v@.skip(from as int),
            all_digits(s.take(i - from)),
            n == spelled(s.take(i - from)),
        decreases v@.len() - i,
    {
        let c = v[i];
        proof {
            assert(s[i - from] == c);
            assert(s.take(i - from + 1).drop_last() =~= s.take(i - from));
            lemma_spelled_grows(s, i - from + 1);
        }
        if !('0' <= c && c <= '9') {
            return None;
        }
        let d: u64 = (c as u32 - 48) as u64;
        if n > (u64::MAX - d) / 10 {
            assert(n * 10 + d > u64::MAX) by (nonlinear_arith)
                requires
                    n > (u64::MAX - d) / 10,
                    0 <= d <= 9,
            ;
            return None;
        }
        assert(n * 10 + d <= u64::MAX) by (nonlinear_arith)
            requires
                n <= (u64::MAX - d) / 10,
                0 <= d <= 9,
        ;
        assert(all_digits(s.take(i - from + 1))) by {
            assert forall|k: int| 0 <= k < i - from + 1 implies is_digit(
                #[trigger] s.take(i - from + 1)[k],
            ) by {
                if k < i - from {
                    assert(s.take(i - from)[k] == s[k]);
                }
            }
        }
        n = n * 10 + d;
        i += 1;
    }
    assert(s.take(i - from) =~= s);
    Some(n)
}

/// The number a text is as an unsigned one: digits, with a plus in front or not, and no larger
/// than a `u64` holds.
pub open spec fn unsigned_in(s: Seq<char>) -> Option<int> {
    let t = if s.len() > 0 && s[0] == '+' {
        s.skip(1)
    } else {
        s
    };
    match number_in(t) {
        Some(n) => if n <= u64::MAX {
            Some(n as int)
        } else {
            None
        },
        None => None,
    }
}

pub fn parse_u64(s: &str) -> (r: Option<u64>)
    ensures
        (r matches Some(n) ==> unsigned_in(s@) == Some(n as int)),
        r is None ==> unsigned_in(s@) is None,
{
    let v = chars_of(s);
    let from: usize = if v.len() > 0 && v[0] == '+' {
        1
    } else {
        0
    };
    assert(v@.skip(0) =~= v@);
    digits_from(v.as_slice(), from)
}

/// The number a text is as a signed one: digits, with a sign in front or not, and within what an
/// `i32` holds.
pub open spec fn signed_in(s: Seq<char>) -> Option<int> {
    let sign = s.len() > 0 && (s[0] == '+' || s[0] == '-');
    let t = if sign {
        s.skip(1)
    } else {
        s
    };
    match number_in(t) {
        Some(n) => {
            let value = if sign && s[0] == '-' {
                -(n as int)
            } else {
                n as int
            };
            if i32::MIN <= value <= i32::MAX {
                Some(value)
            } else {
                None
            }
        },
        None => None,
    }
}

pub fn parse_i32(s: &str) -> (r: Option<i32>)
    ensures
        (r matches Some(n) ==> signed_in(s@) == Some(n as int)),
        r is None ==> signed_in(s@) is None,
{
    let v = chars_of(s);
    let minus = v.len() > 0 && v[0] == '-';
    let from: usize = if minus || (v.len() > 0 && v[0] == '+') {
        1
    } else {
        0
    };
    assert(v@.skip(0) =~= v@);
    match digits_from(v.as_slice(), from) {
        Some(n) => {
            if minus {
                if n <= 2_147_483_648 {
                    Some((-(n as i64)) as i32)
                } else {
                    None
                }
            } else if n <= 2_147_483_647 {
                Some(n as i32)
            } else {
                None
            }
        },
        None => None,
    }
}

// ── Cutting ─────────────────────────────────────────────────────────

/// The last position of `c`, or -1 where there is none.
pub open spec fn last_char(s: Seq<char>, c: char) -> int
    decreases s.len(),
{
    if s.len() == 0 {
        -1
    } else if s.last() == c {
        s.len() - 1
    } else {
        last_char(s.drop_last(), c)
    }
}

/// The position behind the last `c`, or the start where there is none.
pub fn after_last(v: &[char], c: char) -> (i: usize)
    ensures
        i == last_char(v@, c) + 1,
        i <= v@.len(),
{
    let mut i: usize = v.len();
    assert(v@.take(i as int) =~= v@);
    while i > 0 && v[i - 1] != c
        invariant
            i <= v@.len(),
            last_char(v@, c) == last_char(v@.take(i as int), c),
        decreases i,
    {
        assert(v@.take(i as int).drop_last() =~= v@.take(i - 1));
        i -= 1;
    }
    assert(i > 0 ==> v@.take(i as int).last() == v@[i - 1]);
    i
}

/// `s`, cut to `max` characters, with a sign that it was cut.
pub open spec fn clipped(s: Seq<char>, max: nat) -> Seq<char> {
    if s.len() <= max {
        s
    } else {
        s.take(max as int) + "\u{2026}"@
    }
}

/// Cut without splitting a character, and say that it was cut.
pub fn clip(text: &str, max: usize) -> (r: String)
    ensures
        r@ == clipped(text@, max as nat),
{
    let v = chars_of(text);
    if v.len() <= max {
        return string_of(v.as_slice());
    }
    let mut head = part(v.as_slice(), 0, max);
    assert(head@ =~= text@.take(max as int));
    head.append("\u{2026}");
    head
}

/// What is cut is at most one character longer than it was cut to.
pub proof fn lemma_clipped_len(s: Seq<char>, max: nat)
    ensures
        clipped(s, max).len() <= max + 1,
{
    reveal_strlit("\u{2026}");
}

// ── Bytes ───────────────────────────────────────────────────────────

/// How many bytes a character takes.
pub open spec fn width(c: char) -> nat {
    let n = c as u32;
    if n < 0x80 {
        1
    } else if n < 0x800 {
        2
    } else if n < 0x10000 {
        3
    } else {
        4
    }
}

/// How many bytes a text takes.
pub open spec fn bytes_in(s: Seq<char>) -> nat
    decreases s.len(),
{
    if s.len() == 0 {
        0
    } else {
        width(s[0]) + bytes_in(s.drop_first())
    }
}

/// How many characters from the start of a text fit in so many bytes.
pub open spec fn fitting(s: Seq<char>, max: int) -> nat
    decreases s.len(),
{
    if s.len() == 0 || width(s[0]) > max {
        0
    } else {
        1 + fitting(s.drop_first(), max - width(s[0]))
    }
}

/// A text is encoded character by character.
pub proof fn lemma_bytes_in(s: Seq<char>)
    ensures
        vstd::utf8::encode_utf8(s).len() == bytes_in(s),
    decreases s.len(),
{
    if s.len() > 0 {
        lemma_bytes_in(s.drop_first());
        vstd::utf8::char_is_scalar(s[0]);
    }
}

/// What fits is the longest start that does: one character more would not.
pub proof fn lemma_fitting(s: Seq<char>, max: int)
    requires
        0 <= max,
    ensures
        fitting(s, max) <= s.len(),
        bytes_in(s.take(fitting(s, max) as int)) <= max,
        fitting(s, max) < s.len() ==> bytes_in(s.take(fitting(s, max) as int + 1)) > max,
    decreases s.len(),
{
    if s.len() > 0 && width(s[0]) <= max {
        let t = s.drop_first();
        let k = fitting(t, max - width(s[0])) as int;
        lemma_fitting(t, max - width(s[0]));
        assert(s.take(k + 1).drop_first() =~= t.take(k));
        if k < t.len() {
            assert(s.take(k + 2).drop_first() =~= t.take(k + 1));
        }
    } else if s.len() > 0 {
        assert(s.take(1).drop_first() =~= Seq::<char>::empty());
        assert(s.take(1)[0] == s[0]);
    }
}

/// How many characters from the start of a text fit in so many bytes.
pub fn fits(v: &[char], max: usize) -> (r: usize)
    ensures
        r == fitting(v@, max as int),
        r <= v@.len(),
{
    let mut i: usize = 0;
    let mut left: usize = max;
    assert(v@.skip(0) =~= v@);
    while i < v.len()
        invariant
            i <= v@.len(),
            fitting(v@, max as int) == i + fitting(v@.skip(i as int), left as int),
        decreases v@.len() - i,
    {
        let w: usize = width_of(v[i]);
        let ghost tail = v@.skip(i as int);
        assert(tail[0] == v@[i as int]);
        assert(tail.drop_first() =~= v@.skip(i + 1));
        if w > left {
            return i;
        }
        left -= w;
        i += 1;
    }
    i
}

/// How many characters at the end of a text fit in so many bytes.
pub open spec fn fitting_end(s: Seq<char>, max: int) -> nat
    decreases s.len(),
{
    if s.len() == 0 || width(s.last()) > max {
        0
    } else {
        1 + fitting_end(s.drop_last(), max - width(s.last()))
    }
}

/// How many bytes a character takes.
pub fn width_of(c: char) -> (r: usize)
    ensures
        r == width(c),
{
    let n: u32 = c as u32;
    if n < 0x80 {
        1
    } else if n < 0x800 {
        2
    } else if n < 0x10000 {
        3
    } else {
        4
    }
}

/// How many characters at the end of a text fit in so many bytes.
pub fn fits_end(v: &[char], max: usize) -> (r: usize)
    ensures
        r == fitting_end(v@, max as int),
        r <= v@.len(),
{
    let whole: usize = v.len();
    let mut i: usize = whole;
    let mut left: usize = max;
    assert(v@.take(i as int) =~= v@);
    while i > 0
        invariant
            i <= whole,
            whole == v@.len(),
            fitting_end(v@, max as int) == (whole - i) + fitting_end(v@.take(i as int), left as int),
        decreases i,
    {
        let w: usize = width_of(v[i - 1]);
        let ghost head = v@.take(i as int);
        assert(head.last() == v@[i - 1]);
        assert(head.drop_last() =~= v@.take(i - 1));
        if w > left {
            return whole - i;
        }
        left -= w;
        i -= 1;
    }
    whole
}

// ── Laws ────────────────────────────────────────────────────────────

/// Whether a text is white space throughout.
pub open spec fn all_white(s: Seq<char>) -> bool {
    forall|i: int| 0 <= i < s.len() ==> is_white(#[trigger] s[i])
}

/// Whether a text has something in it, and no white space at either end.
pub open spec fn neat(s: Seq<char>) -> bool {
    s.len() > 0 && !is_white(s[0]) && !is_white(s.last())
}

/// White space before a text and behind it is taken off, all of it, and nothing else is.
pub proof fn law_trimming_takes_the_white_space_off(a: Seq<char>, s: Seq<char>, b: Seq<char>)
    requires
        all_white(a),
        all_white(b),
        neat(s) || s.len() == 0,
    ensures
        trim(a + s + b) == s,
        s.len() > 0 ==> trim_start(a + s + b) == s + b,
        s.len() > 0 ==> trim_end(a + s + b) == a + s,
    decreases a.len() + b.len(),
{
    lemma_white_start(a, s + b);
    assert(a + s + b =~= a + (s + b));
    if s.len() > 0 {
        assert((s + b)[0] == s[0]);
        lemma_white_end(s, b);
        lemma_white_end(a + s, b);
        assert((a + s).last() == s.last());
    } else {
        assert(s + b =~= b);
        lemma_white_start(b, Seq::empty());
        assert(b + Seq::<char>::empty() =~= b);
    }
}

proof fn lemma_white_start(a: Seq<char>, s: Seq<char>)
    requires
        all_white(a),
    ensures
        trim_start(a + s) == trim_start(s),
    decreases a.len(),
{
    if a.len() == 0 {
        assert(a + s =~= s);
    } else {
        assert((a + s)[0] == a[0]);
        assert((a + s).drop_first() =~= a.drop_first() + s);
        assert forall|i: int| 0 <= i < a.drop_first().len() implies is_white(
            #[trigger] a.drop_first()[i],
        ) by {
            assert(is_white(a[i + 1]));
        }
        lemma_white_start(a.drop_first(), s);
    }
}

proof fn lemma_white_end(s: Seq<char>, b: Seq<char>)
    requires
        all_white(b),
    ensures
        trim_end(s + b) == trim_end(s),
    decreases b.len(),
{
    if b.len() == 0 {
        assert(s + b =~= s);
    } else {
        assert((s + b).last() == b.last());
        assert((s + b).drop_last() =~= s + b.drop_last());
        assert forall|i: int| 0 <= i < b.drop_last().len() implies is_white(
            #[trigger] b.drop_last()[i],
        ) by {
            assert(is_white(b[i]));
        }
        lemma_white_end(s, b.drop_last());
    }
}

/// A text that is neat stays as it is.
pub proof fn lemma_neat(s: Seq<char>)
    requires
        neat(s),
    ensures
        trim(s) == s,
        trim_start(s) == s,
        trim_end(s) == s,
{
}

/// The blank, the tab, the line feed and the return are white space, and nothing that is printed
/// from the first 128 characters is.
pub proof fn law_what_is_white(c: char)
    ensures
        c == ' ' || c == '\t' || c == '\n' || c == '\r' ==> is_white(c),
        '!' <= c <= '~' ==> !is_white(c),
{
}

/// Capitals become small letters, and everything else stays as it is.
pub proof fn law_small_letters(s: Seq<char>, i: int)
    requires
        0 <= i < s.len(),
    ensures
        lower(s).len() == s.len(),
        'A' <= s[i] <= 'Z' ==> lower(s)[i] as int == s[i] as int + 32,
        !('A' <= s[i] <= 'Z') ==> lower(s)[i] == s[i],
        lower(lower(s)) == lower(s),
{
    assert forall|k: int| 0 <= k < s.len() implies lower(lower(s))[k] == lower(s)[k] by {
        lemma_lower_char_twice(s[k]);
    }
    assert(lower(lower(s)) =~= lower(s));
}

/// What is split at a character is joined by it again, and the character stands in no part.
pub proof fn law_what_is_split_can_be_joined(s: Seq<char>, c: char)
    ensures
        join(split(s, c), seq![c]) == s,
        split(s, c).len() > 0,
        forall|i: int| 0 <= i < split(s, c).len() ==> !(#[trigger] split(s, c)[i]).contains(c),
    decreases s.len(),
{
    lemma_next_char(s, c, 0);
    let i = next_char(s, c, 0);
    let parts = split(s, c);
    if i >= s.len() {
        assert(parts =~= seq![s]);
        if s.contains(c) {
            let k = choose|k: int| 0 <= k < s.len() && s[k] == c;
            assert(s[k] != c);
        }
    } else {
        let rest = split(s.skip(i + 1), c);
        law_what_is_split_can_be_joined(s.skip(i + 1), c);
        lemma_join_first(s.take(i), rest, seq![c]);
        assert(s.take(i) + seq![c] + s.skip(i + 1) =~= s);
        assert forall|k: int| 0 <= k < parts.len() implies !(#[trigger] parts[k]).contains(c) by {
            if k == 0 {
                if s.take(i).contains(c) {
                    let m = choose|m: int| 0 <= m < i && s.take(i)[m] == c;
                    assert(s[m] != c);
                }
            } else {
                assert(parts[k] == rest[k - 1]);
            }
        }
    }
}

/// A join is its first part, the separator, and the join of the others.
pub proof fn lemma_join_first(a: Seq<char>, rest: Seq<Seq<char>>, sep: Seq<char>)
    requires
        rest.len() > 0,
    ensures
        join(seq![a] + rest, sep) == a + sep + join(rest, sep),
    decreases rest.len(),
{
    let all = seq![a] + rest;
    assert(all.drop_last() =~= seq![a] + rest.drop_last());
    assert(all.last() == rest.last());
    if rest.len() == 1 {
        assert(all.drop_last() =~= seq![a]);
        assert(join(all.drop_last(), sep) == a);
    } else {
        lemma_join_first(a, rest.drop_last(), sep);
        assert(join(all, sep) =~= a + sep + join(rest, sep));
    }
}

/// Text that is written as lines is read as those lines: one line each, without the line ends.
pub proof fn law_lines_are_read_as_written(a: Seq<char>, rest: Seq<char>)
    requires
        !a.contains('\n'),
    ensures
        a.len() > 0 && a.last() != '\r' ==> lines(a) == seq![a],
        a.len() > 0 && a.last() != '\r' ==> lines(a.push('\n') + rest) == seq![a] + lines(rest),
        a.len() == 0 ==> lines(a.push('\n') + rest) == seq![a] + lines(rest),
        lines(a.push('\r').push('\n') + rest) == seq![a] + lines(rest),
        lines(Seq::empty()).len() == 0,
{
    lemma_next_char(a, '\n', 0);
    assert(next_char(a, '\n', 0) == a.len()) by {
        let i = next_char(a, '\n', 0);
        if i < a.len() {
            assert(a.contains(a[i]));
        }
    }
    let s = a.push('\n') + rest;
    lemma_next_char(s, '\n', 0);
    assert(next_char(s, '\n', 0) == a.len()) by {
        let i = next_char(s, '\n', 0);
        assert(s[a.len() as int] == '\n');
        if i < a.len() {
            assert(a.contains(a[i]));
        }
    }
    assert(s.take(a.len() as int) =~= a);
    assert(s.skip(a.len() + 1int) =~= rest);
    let t = a.push('\r').push('\n') + rest;
    lemma_next_char(t, '\n', 0);
    assert(next_char(t, '\n', 0) == a.len() + 1) by {
        let i = next_char(t, '\n', 0);
        assert(t[a.len() + 1int] == '\n');
        if i < a.len() {
            assert(a.contains(a[i]));
        }
    }
    assert(t.take(a.len() + 1int) =~= a.push('\r'));
    assert(a.push('\r').drop_last() =~= a);
    assert(t.skip(a.len() + 2int) =~= rest);
}

/// A number that was written can be read, and reads as itself.
pub proof fn law_a_number_reads_as_itself(n: nat)
    ensures
        all_digits(dec(n)),
        spelled(dec(n)) == n,
    decreases n,
{
    if n >= 10 {
        law_a_number_reads_as_itself(n / 10);
    }
    let s = dec(n);
    assert(s.last() == digit(n % 10));
    if n >= 10 {
        assert(s.drop_last() =~= dec(n / 10));
    } else {
        assert(s.drop_last() =~= Seq::<char>::empty());
        reveal_with_fuel(spelled, 2);
    }
}

/// What is behind the last of a character is found behind the last of it.
pub proof fn law_the_last_is_the_last(a: Seq<char>, c: char, b: Seq<char>)
    requires
        !b.contains(c),
    ensures
        last_char(a.push(c) + b, c) == a.len(),
        last_char(b, c) == -1,
    decreases b.len(),
{
    let s = a.push(c) + b;
    if b.len() == 0 {
        assert(s =~= a.push(c));
    } else {
        let t = b.drop_last();
        assert(!t.contains(c)) by {
            if t.contains(c) {
                let i = choose|i: int| 0 <= i < t.len() && t[i] == c;
                assert(b[i] == c);
            }
        }
        law_the_last_is_the_last(a, c, t);
        assert(b.contains(b.last()));
        assert(s.last() == b.last());
        assert(s.drop_last() =~= a.push(c) + t);
    }
}

/// What was joined by a character that stands in no part is split into the parts again.
pub proof fn law_what_is_joined_can_be_split(parts: Seq<Seq<char>>, c: char)
    requires
        parts.len() > 0,
        forall|i: int| 0 <= i < parts.len() ==> !(#[trigger] parts[i]).contains(c),
    ensures
        split(join(parts, seq![c]), c) == parts,
    decreases parts.len(),
{
    let a = parts[0];
    if parts.len() == 1 {
        lemma_no_more(a, c);
        assert(split(a, c) =~= parts);
    } else {
        let rest = parts.skip(1);
        assert(parts =~= seq![a] + rest);
        lemma_join_first(a, rest, seq![c]);
        let tail = join(rest, seq![c]);
        let s = a + seq![c] + tail;
        lemma_next_char(s, c, 0);
        let i = next_char(s, c, 0);
        assert(i == a.len()) by {
            assert(s[a.len() as int] == c);
            if i < a.len() {
                assert(a.contains(a[i]));
            }
        }
        assert(s.take(i) =~= a);
        assert(s.skip(i + 1) =~= tail);
        assert forall|k: int| 0 <= k < rest.len() implies !(#[trigger] rest[k]).contains(c) by {
            assert(!parts[k + 1].contains(c));
        }
        law_what_is_joined_can_be_split(rest, c);
        assert(seq![a] + rest =~= parts);
    }
}

proof fn lemma_no_more(a: Seq<char>, c: char)
    requires
        !a.contains(c),
    ensures
        next_char(a, c, 0) >= a.len(),
{
    lemma_next_char(a, c, 0);
    let i = next_char(a, c, 0);
    if i < a.len() {
        assert(a.contains(a[i]));
    }
}

/// A text is its first word and the words behind it, whatever white space stands between.
pub proof fn law_words_stand_between_the_white_space(
    before: Seq<char>,
    word: Seq<char>,
    gap: char,
    rest: Seq<char>,
)
    requires
        all_white(before),
        word.len() > 0,
        forall|i: int| 0 <= i < word.len() ==> !is_white(#[trigger] word[i]),
        is_white(gap),
    ensures
        words(before).len() == 0,
        words(before + word) == seq![word],
        words(before + word + (seq![gap] + rest)) == seq![word] + words(rest),
{
    let none = Seq::<char>::empty();
    lemma_white_start(before, none);
    assert(before + none =~= before);
    lemma_white_start(before, word);
    lemma_word_end(word, 0);
    assert(word_end(word, 0) == word.len());
    assert(word.take(word.len() as int) =~= word);
    assert(word.skip(word.len() as int) =~= none);
    assert(seq![word] + words(none) =~= seq![word]);
    let tail = seq![gap] + rest;
    let t = word + tail;
    assert(before + word + tail =~= before + t);
    lemma_white_start(before, t);
    assert(t[0] == word[0]);
    lemma_word_end(t, 0);
    let e = word_end(t, 0);
    assert(e == word.len()) by {
        assert(t[word.len() as int] == gap);
        if e < word.len() {
            assert(t[e] == word[e]);
        }
    }
    assert(t.take(e) =~= word);
    assert(t.skip(e) =~= tail);
    assert(words(tail) == words(rest)) by {
        assert(tail.drop_first() =~= rest);
        assert(trim_start(tail) == trim_start(rest));
    }
}

/// A number reads as itself with its sign or without, within what the machine holds.
pub proof fn law_numbers_read_as_themselves(n: nat)
    ensures
        n <= 2_147_483_647 ==> signed_in(dec(n)) == Some(n as int),
        n <= 2_147_483_648 ==> signed_in(seq!['-'] + dec(n)) == Some(-(n as int)),
        n > 2_147_483_648 ==> signed_in(dec(n)) is None && signed_in(seq!['-'] + dec(n)) is None,
        n <= 18_446_744_073_709_551_615 ==> unsigned_in(dec(n)) == Some(n as int),
        n > 18_446_744_073_709_551_615 ==> unsigned_in(dec(n)) is None,
        unsigned_in(seq!['-'] + dec(n)) is None,
{
    law_a_number_reads_as_itself(n);
    let s = dec(n);
    assert(s.len() > 0);
    assert(is_digit(s[0]));
    let t = seq!['-'] + s;
    assert(t[0] == '-');
    assert(t.skip(1) =~= s);
}

/// Anything but digits behind the sign is no number.
pub proof fn law_only_digits_are_numbers(s: Seq<char>, i: int)
    requires
        0 <= i < s.len(),
        !('0' <= s[i] <= '9'),
        i > 0 || s[0] != '+' && s[0] != '-',
    ensures
        signed_in(s) is None,
        unsigned_in(s) is None,
{
    if i > 0 {
        assert(s.skip(1)[i - 1] == s[i]);
        assert(!is_digit(s.skip(1)[i - 1]));
    }
    assert(!is_digit(s[i]));
}

/// A text that is short enough is not cut, and one that is not is cut where it has to be and says
/// so.
pub proof fn law_only_what_is_too_long_is_cut(s: Seq<char>, max: nat)
    ensures
        s.len() <= max ==> clipped(s, max) == s,
        s.len() > max ==> clipped(s, max) == s.take(max as int).push('\u{2026}'),
{
    reveal_strlit("\u{2026}");
    if s.len() > max {
        assert(s.take(max as int) + "\u{2026}"@ =~= s.take(max as int).push('\u{2026}'));
    }
}

/// What fits at the end is the longest end that does: one character more would not.
pub proof fn law_the_longest_end_that_fits(s: Seq<char>, max: int)
    requires
        0 <= max,
    ensures
        fitting_end(s, max) <= s.len(),
        bytes_in(s.skip(s.len() - fitting_end(s, max))) <= max,
        fitting_end(s, max) < s.len() ==> bytes_in(s.skip(s.len() - fitting_end(s, max) - 1)) > max,
    decreases s.len(),
{
    if s.len() > 0 && width(s.last()) <= max {
        let t = s.drop_last();
        let k = fitting_end(t, max - width(s.last())) as int;
        law_the_longest_end_that_fits(t, max - width(s.last()));
        assert(s.skip(s.len() - k - 1) =~= t.skip(t.len() - k).push(s.last()));
        lemma_bytes_push(t.skip(t.len() - k), s.last());
        if k < t.len() {
            assert(s.skip(s.len() - k - 2) =~= t.skip(t.len() - k - 1).push(s.last()));
            lemma_bytes_push(t.skip(t.len() - k - 1), s.last());
        }
    } else if s.len() > 0 {
        assert(s.skip(s.len() as int) =~= Seq::<char>::empty());
        let one = s.skip(s.len() - 1);
        assert(one =~= Seq::<char>::empty().push(s.last()));
        lemma_bytes_push(Seq::empty(), s.last());
    } else {
        assert(s.skip(0) =~= s);
    }
}

proof fn lemma_bytes_push(s: Seq<char>, c: char)
    ensures
        bytes_in(s.push(c)) == bytes_in(s) + width(c),
    decreases s.len(),
{
    if s.len() == 0 {
        assert(s.push(c).drop_first() =~= s);
    } else {
        assert(s.push(c).drop_first() =~= s.drop_first().push(c));
        lemma_bytes_push(s.drop_first(), c);
    }
}

/// What is put in capitals at its head keeps everything behind its first letter.
pub proof fn law_only_the_head_is_put_in_capitals(c: char, rest: Seq<char>)
    ensures
        capitalised(seq![c] + rest) == upper(c) + rest,
        capitalised(Seq::empty()) == Seq::<char>::empty(),
{
    assert((seq![c] + rest).skip(1) =~= rest);
}

} // verus!
