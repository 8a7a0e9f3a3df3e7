//! Paths, as the bytes the system names files by.
//!
//! Two paths are the same where they have the same parts: repeated separators, a separator at the
//! end and `.` anywhere but at the beginning do not count.
use vstd::prelude::*;

verus! {

pub const SLASH: u8 = 47;

pub const DOT: u8 = 46;

/// What the root of the file system is among the parts of a path.
pub open spec fn root() -> Seq<u8> {
    seq![SLASH]
}

pub open spec fn here() -> Seq<u8> {
    seq![DOT]
}

pub open spec fn up() -> Seq<u8> {
    seq![DOT, DOT]
}

/// Where the part that starts at `from` ends.
pub open spec fn part_end(s: Seq<u8>, from: int) -> int
    decreases s.len() - from,
{
    if from < 0 || from >= s.len() {
        s.len() as int
    } else if s[from] == SLASH {
        from
    } else {
        part_end(s, from + 1)
    }
}

pub proof fn lemma_part_end(s: Seq<u8>, from: int)
    requires
        0 <= from <= s.len(),
    ensures
        from <= part_end(s, from) <= s.len(),
        part_end(s, from) < s.len() ==> s[part_end(s, from)] == SLASH,
        forall|i: int| from <= i < part_end(s, from) ==> #[trigger] s[i] != SLASH,
    decreases s.len() - from,
{
    if from < s.len() && s[from] != SLASH {
        lemma_part_end(s, from + 1);
    }
}

/// The parts between separators from `from` on.
pub open spec fn parts_from(s: Seq<u8>, from: int) -> Seq<Seq<u8>>
    decreases s.len() + 1 - from,
{
    if from < 0 || from >= s.len() {
        Seq::empty()
    } else {
        proof {
            lemma_part_end(s, from);
        }
        let end = part_end(s, from);
        let one = s.subrange(from, end);
        if one.len() == 0 || (one == here() && from > 0) {
            parts_from(s, end + 1)
        } else {
            seq![one] + parts_from(s, end + 1)
        }
    }
}

/// The parts of a path.
pub open spec fn parts(s: Seq<u8>) -> Seq<Seq<u8>> {
    if absolute(s) {
        seq![root()] + parts_from(s, 1)
    } else {
        parts_from(s, 0)
    }
}

pub open spec fn absolute(s: Seq<u8>) -> bool {
    s.len() > 0 && s[0] == SLASH
}

/// What a path names in its folder, where it names anything.
pub open spec fn leaf(s: Seq<u8>) -> Option<Seq<u8>> {
    let p = parts(s);
    if p.len() == 0 || p.last() == root() || p.last() == here() || p.last() == up() {
        None
    } else {
        Some(p.last())
    }
}

/// Whether a path has a folder it is in: the root and the empty path have none.
pub open spec fn has_parent(s: Seq<u8>) -> bool {
    parts(s).len() > 0 && parts(s).last() != root()
}

/// Whether a path is another one or lies below it.
pub open spec fn within(s: Seq<u8>, folder: Seq<u8>) -> bool {
    parts(folder).is_prefix_of(parts(s))
}

/// A name in a folder. A name that says where it starts stands for itself.
pub open spec fn joined(folder: Seq<u8>, name: Seq<u8>) -> Seq<u8> {
    if absolute(name) {
        name
    } else if folder.len() == 0 || folder.last() == SLASH {
        folder + name
    } else {
        folder.push(SLASH) + name
    }
}

pub open spec fn bytes(v: Seq<Vec<u8>>) -> Seq<Seq<u8>> {
    Seq::new(v.len(), |i: int| v[i]@)
}

pub fn same_bytes(a: &[u8], b: &[u8]) -> (r: bool)
    ensures
        r == (a@ == b@),
{
    if a.len() != b.len() {
        return false;
    }
    let mut i: usize = 0;
    while i < a.len()
        invariant
            a@.len() == b@.len(),
            i <= a@.len(),
            forall|k: int| 0 <= k < i ==> a@[k] == b@[k],
        decreases a@.len() - i,
    {
        if a[i] != b[i] {
            return false;
        }
        i += 1;
    }
    assert(a@ =~= b@);
    true
}

fn ends_at(s: &[u8], from: usize) -> (r: usize)
    requires
        from <= s@.len(),
    ensures
        r == part_end(s@, from as int),
        from <= r <= s@.len(),
{
    let mut i: usize = from;
    while i < s.len()
        invariant
            from <= i <= s@.len(),
            part_end(s@, from as int) == part_end(s@, i as int),
        decreases s@.len() - i,
    {
        if s[i] == SLASH {
            return i;
        }
        i += 1;
    }
    i
}

fn bytes_between(s: &[u8], from: usize, to: usize) -> (r: Vec<u8>)
    requires
        from <= to <= s@.len(),
    ensures
        r@ == s@.subrange(from as int, to as int),
{
    let mut out: Vec<u8> = Vec::new();
    let mut i: usize = from;
    while i < to
        invariant
            from <= i <= to <= s@.len(),
            out@ == s@.subrange(from as int, i as int),
        decreases to - i,
    {
        out.push(s[i]);
        i += 1;
        assert(out@ =~= s@.subrange(from as int, i as int));
    }
    out
}

/// The parts of a path.
pub fn parts_of(s: &[u8]) -> (r: Vec<Vec<u8>>)
    ensures
        bytes(r@) == parts(s@),
{
    let mut out: Vec<Vec<u8>> = Vec::new();
    let mut i: usize = 0;
    if s.len() > 0 && s[0] == SLASH {
        let mut one: Vec<u8> = Vec::new();
        one.push(SLASH);
        assert(one@ =~= root());
        out.push(one);
        i = 1;
        assert(bytes(out@) =~= seq![root()]);
    }
    let ghost start = bytes(out@);
    assert(start + parts_from(s@, i as int) =~= parts(s@));
    while i < s.len()
        invariant
            i <= s@.len(),
            bytes(out@) + parts_from(s@, i as int) == parts(s@),
        decreases s@.len() - i,
    {
        let end = ends_at(s, i);
        let one = bytes_between(s, i, end);
        let ghost before = bytes(out@);
        let ghost rest = parts_from(s@, end + 1);
        assert(one@ == here() <==> one@.len() == 1 && one@[0] == DOT) by {
            if one@.len() == 1 && one@[0] == DOT {
                assert(one@ =~= here());
            }
        }
        if one.len() == 0 || (one.len() == 1 && one[0] == DOT && i > 0) {
            assert(parts_from(s@, i as int) == rest);
        } else {
            let ghost was = one@;
            out.push(one);
            assert(bytes(out@) =~= before.push(was));
            assert(before.push(was) + rest =~= before + (seq![was] + rest));
        }
        if end >= s.len() {
            assert(rest =~= Seq::empty());
            assert(bytes(out@) + rest =~= bytes(out@));
            return out;
        }
        i = end + 1;
    }
    assert(parts_from(s@, i as int) =~= Seq::empty());
    assert(bytes(out@) + parts_from(s@, i as int) =~= bytes(out@));
    out
}

pub fn is_absolute(s: &[u8]) -> (r: bool)
    ensures
        r == absolute(s@),
{
    s.len() > 0 && s[0] == SLASH
}

fn is_root(p: &[u8]) -> (r: bool)
    ensures
        r == (p@ == root()),
{
    if p.len() == 1 && p[0] == SLASH {
        assert(p@ =~= root());
        true
    } else {
        false
    }
}

/// What a path names in its folder.
pub fn file_name(s: &[u8]) -> (r: Option<Vec<u8>>)
    ensures
        match r {
            Some(n) => leaf(s@) == Some(n@),
            None => leaf(s@) is None,
        },
{
    let mut p = parts_of(s);
    let ghost all = bytes(p@);
    match p.pop() {
        None => None,
        Some(last) => {
            assert(last@ == all.last());
            if is_root(last.as_slice()) {
                return None;
            }
            if last.len() == 1 && last[0] == DOT {
                assert(last@ =~= here());
                return None;
            }
            if last.len() == 2 && last[0] == DOT && last[1] == DOT {
                assert(last@ =~= up());
                return None;
            }
            Some(last)
        },
    }
}

/// Whether a path has a folder it is in.
pub fn in_a_folder(s: &[u8]) -> (r: bool)
    ensures
        r == has_parent(s@),
{
    let p = parts_of(s);
    if p.len() == 0 {
        return false;
    }
    assert(bytes(p@).last() == p@[p@.len() - 1]@);
    !is_root(p[p.len() - 1].as_slice())
}

/// Whether a path is another one or lies below it.
pub fn is_within(s: &[u8], folder: &[u8]) -> (r: bool)
    ensures
        r == within(s@, folder@),
{
    let p = parts_of(s);
    let f = parts_of(folder);
    let ghost ps = parts(s@);
    let ghost fs = parts(folder@);
    if f.len() > p.len() {
        return false;
    }
    let mut i: usize = 0;
    while i < f.len()
        invariant
            f@.len() <= p@.len(),
            i <= f@.len(),
            ps == bytes(p@),
            fs == bytes(f@),
            ps == parts(s@),
            fs == parts(folder@),
            forall|k: int| 0 <= k < i ==> fs[k] == ps[k],
        decreases f@.len() - i,
    {
        assert(fs[i as int] == f@[i as int]@ && ps[i as int] == p@[i as int]@);
        if !same_bytes(f[i].as_slice(), p[i].as_slice()) {
            assert(fs[i as int] != ps.subrange(0, fs.len() as int)[i as int]);
            return false;
        }
        i += 1;
    }
    assert(fs =~= ps.subrange(0, fs.len() as int));
    true
}

/// Whether two paths have the same parts.
pub fn is_same(a: &[u8], b: &[u8]) -> (r: bool)
    ensures
        r == (parts(a@) == parts(b@)),
{
    if !is_within(a, b) {
        proof {
            if parts(a@) == parts(b@) {
                assert(parts(b@) =~= parts(a@).subrange(0, parts(b@).len() as int));
            }
        }
        return false;
    }
    if !is_within(b, a) {
        proof {
            if parts(a@) == parts(b@) {
                assert(parts(a@) =~= parts(b@).subrange(0, parts(a@).len() as int));
            }
        }
        return false;
    }
    proof {
        assert(parts(b@) == parts(a@).subrange(0, parts(b@).len() as int));
        assert(parts(a@) == parts(b@).subrange(0, parts(a@).len() as int));
        assert(parts(b@).subrange(0, parts(a@).len() as int) =~= parts(b@));
    }
    true
}

/// A name in a folder.
pub fn join_path(folder: &[u8], name: &[u8]) -> (r: Vec<u8>)
    ensures
        r@ == joined(folder@, name@),
{
    if is_absolute(name) {
        return copied(name);
    }
    let mut out = bytes_between(folder, 0, folder.len());
    assert(out@ =~= folder@);
    if folder.len() > 0 && folder[folder.len() - 1] != SLASH {
        out.push(SLASH);
    }
    let ghost start = out@;
    let mut i: usize = 0;
    while i < name.len()
        invariant
            i <= name@.len(),
            out@ == start + name@.take(i as int),
        decreases name@.len() - i,
    {
        out.push(name[i]);
        i += 1;
        assert(out@ =~= start + name@.take(i as int));
    }
    assert(name@.take(i as int) =~= name@);
    out
}

/// The same bytes again.
pub fn copied(s: &[u8]) -> (r: Vec<u8>)
    ensures
        r@ == s@,
{
    let out = bytes_between(s, 0, s.len());
    assert(out@ =~= s@);
    out
}

/// Where the parts between separators stand, from `from` on.
pub open spec fn bounds_from(s: Seq<u8>, from: int) -> Seq<(int, int)>
    decreases s.len() + 1 - from,
{
    if from < 0 || from >= s.len() {
        Seq::empty()
    } else {
        proof {
            lemma_part_end(s, from);
        }
        let end = part_end(s, from);
        let one = s.subrange(from, end);
        if one.len() == 0 || (one == here() && from > 0) {
            bounds_from(s, end + 1)
        } else {
            seq![(from, end)] + bounds_from(s, end + 1)
        }
    }
}

/// Where the parts of a path stand, the root aside.
pub open spec fn bounds(s: Seq<u8>) -> Seq<(int, int)> {
    if absolute(s) {
        bounds_from(s, 1)
    } else {
        bounds_from(s, 0)
    }
}

pub open spec fn positions(v: Seq<(usize, usize)>) -> Seq<(int, int)> {
    Seq::new(v.len(), |i: int| (v[i].0 as int, v[i].1 as int))
}

/// Where the parts of a path stand, the root aside.
pub fn bounds_of(s: &[u8]) -> (r: Vec<(usize, usize)>)
    ensures
        positions(r@) == bounds(s@),
        forall|i: int| 0 <= i < r@.len() ==> (#[trigger] r@[i]).0 <= r@[i].1 <= s@.len(),
{
    let mut out: Vec<(usize, usize)> = Vec::new();
    let mut i: usize = if s.len() > 0 && s[0] == SLASH {
        1
    } else {
        0
    };
    assert(positions(out@) + bounds_from(s@, i as int) =~= bounds(s@));
    while i < s.len()
        invariant
            i <= s@.len(),
            positions(out@) + bounds_from(s@, i as int) == bounds(s@),
            forall|k: int| 0 <= k < out@.len() ==> (#[trigger] out@[k]).0 <= out@[k].1 <= s@.len(),
        decreases s@.len() - i,
    {
        let end = ends_at(s, i);
        let ghost before = positions(out@);
        let ghost rest = bounds_from(s@, end + 1);
        let ghost one = s@.subrange(i as int, end as int);
        assert(one == here() <==> end == i + 1 && s@[i as int] == DOT) by {
            if end == i + 1 && s@[i as int] == DOT {
                assert(one =~= here());
            } else if one == here() {
                assert(one[0] == s@[i as int]);
            }
        }
        if end == i || (end == i + 1 && s[i] == DOT && i > 0) {
            assert(bounds_from(s@, i as int) == rest);
        } else {
            out.push((i, end));
            assert(positions(out@) =~= before.push((i as int, end as int)));
            assert(before.push((i as int, end as int)) + rest =~= before + (seq![
                (i as int, end as int),
            ] + rest));
        }
        if end >= s.len() {
            assert(rest =~= Seq::empty());
            assert(positions(out@) + rest =~= positions(out@));
            return out;
        }
        i = end + 1;
    }
    assert(bounds_from(s@, i as int) =~= Seq::empty());
    assert(positions(out@) + bounds_from(s@, i as int) =~= positions(out@));
    out
}

// ── Laws ────────────────────────────────────────────────────────────

/// What lies within what lies within a folder lies within that folder, and two paths that lie
/// within each other are the same.
pub proof fn law_within_is_an_order(a: Seq<u8>, b: Seq<u8>, c: Seq<u8>)
    ensures
        within(a, a),
        within(a, b) && within(b, c) ==> within(a, c),
        within(a, b) && within(b, a) ==> parts(a) == parts(b),
{
    assert(parts(a) =~= parts(a).subrange(0, parts(a).len() as int));
    if within(a, b) && within(b, c) {
        assert(parts(c) =~= parts(a).subrange(0, parts(c).len() as int)) by {
            assert forall|i: int| 0 <= i < parts(c).len() implies parts(c)[i] == parts(a)[i] by {
                assert(parts(c)[i] == parts(b).subrange(0, parts(c).len() as int)[i]);
                assert(parts(b)[i] == parts(a).subrange(0, parts(b).len() as int)[i]);
            }
        }
    }
    if within(a, b) && within(b, a) {
        assert(parts(b).subrange(0, parts(a).len() as int) =~= parts(b));
    }
}

/// The parts of a folder come first among the parts of what is written behind it.
proof fn lemma_parts_behind(f: Seq<u8>, rest: Seq<u8>, from: int)
    requires
        0 <= from <= f.len(),
    ensures
        parts_from(f.push(SLASH) + rest, from) == parts_from(f, from) + parts_from(
            f.push(SLASH) + rest,
            f.len() + 1int,
        ),
    decreases f.len() - from,
{
    let t = f.push(SLASH) + rest;
    let tail = parts_from(t, f.len() + 1int);
    lemma_part_end(t, from);
    lemma_part_end(f, from);
    assert(t[f.len() as int] == SLASH);
    let end = part_end(t, from);
    assert(end == part_end(f, from)) by {
        let e = part_end(f, from);
        if end < e {
            assert(f[end] == t[end]);
        }
        if e < end {
            assert(t[e] == SLASH) by {
                if e < f.len() {
                    assert(t[e] == f[e]);
                }
            }
        }
    }
    if from == f.len() {
        assert(t.subrange(from, end).len() == 0);
        assert(parts_from(f, from) + tail =~= tail);
    } else {
        let one = f.subrange(from, end);
        assert(t.subrange(from, end) =~= one);
        let more = parts_from(f, end + 1);
        if end == f.len() {
            assert(more =~= Seq::empty());
            assert(more + tail =~= tail);
        } else {
            lemma_parts_behind(f, rest, end + 1);
        }
        assert(parts_from(t, end + 1) == more + tail);
        assert((seq![one] + more) + tail =~= seq![one] + (more + tail));
    }
}

/// Whether a part of a path may be called this.
pub open spec fn names_a_part(n: Seq<u8>) -> bool {
    n.len() > 0 && !n.contains(SLASH) && n != here()
}

/// A name is one part, wherever it stands.
proof fn lemma_one_part(t: Seq<u8>, from: int)
    requires
        0 <= from < t.len(),
        names_a_part(t.skip(from)),
    ensures
        parts_from(t, from) == seq![t.skip(from)],
{
    lemma_part_end(t, from);
    let end = part_end(t, from);
    if end < t.len() {
        assert(t.skip(from)[end - from] == SLASH);
        assert(t.skip(from).contains(SLASH));
    }
    assert(t.subrange(from, end) =~= t.skip(from));
    assert(parts_from(t, end + 1) =~= Seq::empty());
    assert(seq![t.skip(from)] + parts_from(t, end + 1) =~= seq![t.skip(from)]);
}

/// A separator at the end of a path does not count, and neither does a dot behind it.
pub proof fn law_a_separator_at_the_end_does_not_count(f: Seq<u8>)
    requires
        f.len() > 0,
    ensures
        parts(f.push(SLASH)) == parts(f),
        parts(f.push(SLASH).push(DOT)) == parts(f),
{
    let a = f.push(SLASH);
    let b = f.push(SLASH).push(DOT);
    assert(f.push(SLASH) + Seq::<u8>::empty() =~= a);
    assert(f.push(SLASH) + seq![DOT] =~= b);
    let from: int = if absolute(f) {
        1
    } else {
        0
    };
    lemma_parts_behind(f, Seq::empty(), from);
    lemma_parts_behind(f, seq![DOT], from);
    assert(a[0] == f[0] && b[0] == f[0]);
    assert(parts_from(a, f.len() + 1int) =~= Seq::empty());
    assert(parts_from(b, f.len() + 1int) =~= Seq::empty()) by {
        let k = f.len() + 1int;
        lemma_part_end(b, k);
        assert(b[k] == DOT);
        assert(b.subrange(k, part_end(b, k)) =~= here());
        assert(parts_from(b, part_end(b, k) + 1) =~= Seq::empty());
    }
    assert(parts_from(f, from) + Seq::<Seq<u8>>::empty() =~= parts_from(f, from));
}

/// A name in a folder is one part more: it lies in the folder, the folder does not lie in it, and
/// it is what the path names there, unless it leads back up.
pub proof fn law_a_name_in_a_folder_is_one_part_more(folder: Seq<u8>, name: Seq<u8>)
    requires
        names_a_part(name),
    ensures
        parts(joined(folder, name)) == parts(folder).push(name),
        within(joined(folder, name), folder),
        !within(folder, joined(folder, name)),
        has_parent(joined(folder, name)),
        name != up() ==> leaf(joined(folder, name)) == Some(name),
        name == up() ==> leaf(joined(folder, name)) is None,
{
    let t = joined(folder, name);
    if absolute(name) {
        assert(name.contains(name[0]));
    }
    if folder.len() == 0 {
        assert(t =~= name);
        assert(t.skip(0) =~= name);
        lemma_one_part(t, 0);
        assert(parts(folder) =~= Seq::empty());
        assert(parts(t) =~= parts(folder).push(name));
    } else {
        let g = if folder.last() == SLASH {
            folder.drop_last()
        } else {
            folder
        };
        assert(t =~= g.push(SLASH) + name);
        assert(t.skip(g.len() + 1int) =~= name);
        lemma_one_part(t, g.len() + 1int);
        assert(t[0] == folder[0]);
        if g.len() == 0 {
            assert(folder =~= root());
            assert(parts_from(folder, 1) =~= Seq::empty());
            assert(parts(folder) =~= seq![root()]);
            assert(parts(t) =~= parts(folder).push(name));
        } else {
            if folder.last() == SLASH {
                assert(folder =~= g.push(SLASH));
                law_a_separator_at_the_end_does_not_count(g);
            }
            let from: int = if absolute(g) {
                1
            } else {
                0
            };
            assert(g[0] == folder[0]);
            lemma_parts_behind(g, name, from);
            assert(parts(t) =~= parts(g).push(name));
        }
    }
    assert(parts(folder) =~= parts(t).subrange(0, parts(folder).len() as int));
    assert(name != root()) by {
        if name == root() {
            assert(name[0] == SLASH);
            assert(name.contains(name[0]));
        }
    }
}

/// The places of the parts of a path are where the parts stand in it.
pub proof fn law_the_places_are_those_of_the_parts(s: Seq<u8>, from: int, i: int)
    requires
        0 <= from,
        0 <= i < parts_from(s, from).len(),
    ensures
        bounds_from(s, from).len() == parts_from(s, from).len(),
        ({
            let (a, b) = bounds_from(s, from)[i];
            from <= a <= b <= s.len() && s.subrange(a, b) == parts_from(s, from)[i]
        }),
    decreases s.len() + 1 - from,
{
    lemma_places(s, from);
    lemma_part_end(s, from);
    let end = part_end(s, from);
    let one = s.subrange(from, end);
    if one.len() == 0 || (one == here() && from > 0) {
        law_the_places_are_those_of_the_parts(s, end + 1, i);
    } else if i > 0 {
        law_the_places_are_those_of_the_parts(s, end + 1, i - 1);
    }
}

proof fn lemma_places(s: Seq<u8>, from: int)
    requires
        0 <= from,
    ensures
        bounds_from(s, from).len() == parts_from(s, from).len(),
    decreases s.len() + 1 - from,
{
    if from < s.len() {
        lemma_part_end(s, from);
        lemma_places(s, part_end(s, from) + 1);
    }
}

/// The places of a folder's parts come first among those of what is written behind it.
proof fn lemma_places_behind(f: Seq<u8>, rest: Seq<u8>, from: int)
    requires
        0 <= from <= f.len(),
    ensures
        bounds_from(f.push(SLASH) + rest, from) == bounds_from(f, from) + bounds_from(
            f.push(SLASH) + rest,
            f.len() + 1int,
        ),
    decreases f.len() - from,
{
    let t = f.push(SLASH) + rest;
    let tail = bounds_from(t, f.len() + 1int);
    lemma_part_end(t, from);
    lemma_part_end(f, from);
    assert(t[f.len() as int] == SLASH);
    let end = part_end(t, from);
    assert(end == part_end(f, from)) by {
        let e = part_end(f, from);
        if end < e {
            assert(f[end] == t[end]);
        }
        if e < end {
            assert(t[e] == SLASH) by {
                if e < f.len() {
                    assert(t[e] == f[e]);
                }
            }
        }
    }
    if from == f.len() {
        assert(t.subrange(from, end).len() == 0);
        assert(bounds_from(f, from) + tail =~= tail);
    } else {
        let one = f.subrange(from, end);
        assert(t.subrange(from, end) =~= one);
        let more = bounds_from(f, end + 1);
        if end == f.len() {
            assert(more =~= Seq::empty());
            assert(more + tail =~= tail);
        } else {
            lemma_places_behind(f, rest, end + 1);
        }
        assert(bounds_from(t, end + 1) == more + tail);
        assert((seq![(from, end)] + more) + tail =~= seq![(from, end)] + (more + tail));
    }
}

/// The last place in a path is that of the name behind its last separator, and the places before it
/// are those of the folder.
pub proof fn law_the_last_place_is_the_names(folder: Seq<u8>, name: Seq<u8>)
    requires
        names_a_part(name),
    ensures
        bounds(folder.push(SLASH) + name) == bounds(folder).push(
            (folder.len() + 1int, folder.len() + 1int + name.len()),
        ),
{
    let t = folder.push(SLASH) + name;
    let k = folder.len() + 1int;
    assert(t.skip(k) =~= name);
    lemma_part_end(t, k);
    let end = part_end(t, k);
    assert(end == t.len()) by {
        if end < t.len() {
            assert(name[end - k] == SLASH);
            assert(name.contains(SLASH));
        }
    }
    assert(t.subrange(k, end) =~= name);
    assert(bounds_from(t, end + 1) =~= Seq::empty());
    assert(bounds_from(t, k) =~= seq![(k, t.len() as int)]);
    let from: int = if absolute(t) {
        1
    } else {
        0
    };
    if folder.len() == 0 {
        assert(t[0] == SLASH);
        assert(bounds(folder) =~= Seq::empty());
        assert(bounds(t) =~= bounds(folder).push((k, t.len() as int)));
    } else {
        assert(t[0] == folder[0]);
        lemma_places_behind(folder, name, from);
        assert(bounds(t) =~= bounds(folder).push((k, t.len() as int)));
    }
}

} // verus!
