//! JSON values as the library holds them, and their canonical form.
//!
//! The text of a value, and the value of a text, are `serde_json`'s business. What the library
//! owns is the tree in between: which key stands for what, and the one order the keys of an object
//! are put in before the value is written down or compared.
use crate::text;
use crate::text::{chars_of, same, trimmed};
use vstd::prelude::*;

verus! {

/// A JSON value. An object keeps its entries in the order they were given; where a key is given
/// twice the later entry is the one that counts.
#[derive(Debug, PartialEq)]
pub enum Json {
    Null,
    Bool(bool),
    Num(serde_json::Number),
    Str(String),
    Array(Vec<Json>),
    Object(Vec<(String, Json)>),
}

/// What a [`Json`] stands for.
pub enum Tree {
    Null,
    Bool(bool),
    Num(serde_json::Number),
    Str(Seq<char>),
    Array(Seq<Tree>),
    Object(Seq<(Seq<char>, Tree)>),
}

/// A number of `serde_json`, carried through as it is.
#[verifier::external_type_specification]
#[verifier::external_body]
pub struct ExNumber(serde_json::Number);

/// A parsed value of `serde_json`.
#[verifier::external_type_specification]
#[verifier::external_body]
pub struct ExValue(serde_json::Value);

/// `Number::clone` of `serde_json`: the same number.
pub assume_specification[ <serde_json::Number as Clone>::clone ](
    n: &serde_json::Number,
) -> (r: serde_json::Number)
    ensures
        r == *n,
;

impl Json {
    pub open spec fn tree(self) -> Tree
        decreases self,
    {
        match self {
            Json::Null => Tree::Null,
            Json::Bool(b) => Tree::Bool(b),
            Json::Num(n) => Tree::Num(n),
            Json::Str(s) => Tree::Str(s@),
            Json::Array(v) => Tree::Array(trees(v@)),
            Json::Object(v) => Tree::Object(entries(v@)),
        }
    }
}

impl View for Json {
    type V = Tree;

    open spec fn view(&self) -> Tree {
        self.tree()
    }
}

pub type Entry = (Seq<char>, Tree);

/// What each value stands for.
pub open spec fn trees(s: Seq<Json>) -> Seq<Tree>
    decreases s,
{
    if s.len() == 0 {
        Seq::empty()
    } else {
        trees(s.drop_last()).push(s.last().tree())
    }
}

/// What each entry stands for.
pub open spec fn entries(s: Seq<(String, Json)>) -> Seq<Entry>
    decreases s,
{
    if s.len() == 0 {
        Seq::empty()
    } else {
        entries(s.drop_last()).push((s.last().0@, s.last().1.tree()))
    }
}

pub proof fn lemma_trees(s: Seq<Json>)
    ensures
        trees(s).len() == s.len(),
        forall|i: int| 0 <= i < s.len() ==> #[trigger] trees(s)[i] == s[i]@,
    decreases s.len(),
{
    if s.len() > 0 {
        lemma_trees(s.drop_last());
    }
}

pub proof fn lemma_entries(s: Seq<(String, Json)>)
    ensures
        entries(s).len() == s.len(),
        forall|i: int| 0 <= i < s.len() ==> #[trigger] entries(s)[i] == (s[i].0@, s[i].1@),
    decreases s.len(),
{
    if s.len() > 0 {
        lemma_entries(s.drop_last());
    }
}

// ── The order of keys ───────────────────────────────────────────────

/// Dictionary order, character by character.
pub open spec fn before(a: Seq<char>, b: Seq<char>) -> bool
    decreases a.len(),
{
    if b.len() == 0 {
        false
    } else if a.len() == 0 {
        true
    } else {
        a[0] < b[0] || (a[0] == b[0] && before(a.drop_first(), b.drop_first()))
    }
}

pub proof fn lemma_before_trans(a: Seq<char>, b: Seq<char>, c: Seq<char>)
    requires
        before(a, b),
        before(b, c),
    ensures
        before(a, c),
    decreases a.len(),
{
    if a.len() > 0 && a[0] == b[0] && b[0] == c[0] {
        lemma_before_trans(a.drop_first(), b.drop_first(), c.drop_first());
    }
}

pub proof fn lemma_before_total(a: Seq<char>, b: Seq<char>)
    ensures
        before(a, b) || before(b, a) || a == b,
        !(before(a, b) && before(b, a)),
        before(a, b) ==> a != b,
    decreases a.len(),
{
    if a.len() > 0 && b.len() > 0 {
        if a[0] == b[0] {
            lemma_before_total(a.drop_first(), b.drop_first());
            if a.drop_first() == b.drop_first() {
                assert(a =~= seq![a[0]] + a.drop_first());
                assert(b =~= seq![b[0]] + b.drop_first());
            }
        }
    } else {
        assert(a.len() == 0 && b.len() == 0 ==> a =~= b);
    }
}

pub fn comes_before(a: &str, b: &str) -> (r: bool)
    ensures
        r == before(a@, b@),
{
    let x = chars_of(a);
    let y = chars_of(b);
    let mut i: usize = 0;
    assert(a@.skip(0) =~= a@);
    assert(b@.skip(0) =~= b@);
    loop
        invariant
            x@ == a@,
            y@ == b@,
            i <= x@.len(),
            i <= y@.len(),
            before(a@, b@) == before(a@.skip(i as int), b@.skip(i as int)),
        decreases x@.len() - i,
    {
        if i == y.len() {
            return false;
        }
        if i == x.len() {
            return true;
        }
        if x[i] != y[i] {
            return x[i] < y[i];
        }
        assert(a@.skip(i as int).drop_first() =~= a@.skip(i + 1));
        assert(b@.skip(i as int).drop_first() =~= b@.skip(i + 1));
        i += 1;
    }
}

// ── Entries ─────────────────────────────────────────────────────────

/// What `key` stands for: the last entry under it.
pub open spec fn lookup(s: Seq<Entry>, key: Seq<char>) -> Option<Tree>
    decreases s.len(),
{
    if s.len() == 0 {
        None
    } else if s.last().0 == key {
        Some(s.last().1)
    } else {
        lookup(s.drop_last(), key)
    }
}

/// Every key comes strictly before the next: in order, and none twice.
pub open spec fn ascending(s: Seq<Entry>) -> bool {
    forall|i: int, j: int| 0 <= i < j < s.len() ==> before(#[trigger] s[i].0, #[trigger] s[j].0)
}

/// The first position whose key does not come before `key`.
pub open spec fn place(s: Seq<Entry>, key: Seq<char>, from: int) -> int
    decreases s.len() - from,
{
    if from < 0 || from >= s.len() {
        s.len() as int
    } else if before(s[from].0, key) {
        place(s, key, from + 1)
    } else {
        from
    }
}

/// `e` put where it belongs among entries that are in order, over the entry under the same key.
pub open spec fn put(s: Seq<Entry>, e: Entry) -> Seq<Entry> {
    let i = place(s, e.0, 0);
    if i < s.len() && s[i].0 == e.0 {
        s.update(i, e)
    } else {
        s.insert(i, e)
    }
}

/// The entries in the order of their keys, one for each.
pub open spec fn in_order(s: Seq<Entry>) -> Seq<Entry>
    decreases s.len(),
{
    if s.len() == 0 {
        Seq::empty()
    } else {
        put(in_order(s.drop_last()), s.last())
    }
}

pub proof fn lemma_place(s: Seq<Entry>, key: Seq<char>, from: int)
    requires
        0 <= from <= s.len(),
    ensures
        from <= place(s, key, from) <= s.len(),
        place(s, key, from) < s.len() ==> !before(s[place(s, key, from)].0, key),
        forall|j: int| from <= j < place(s, key, from) ==> before(#[trigger] s[j].0, key),
    decreases s.len() - from,
{
    if from < s.len() && before(s[from].0, key) {
        lemma_place(s, key, from + 1);
    }
}

pub proof fn lemma_put(s: Seq<Entry>, e: Entry)
    requires
        ascending(s),
    ensures
        ascending(put(s, e)),
        forall|k: Seq<char>|
            #[trigger] lookup(put(s, e), k) == if k == e.0 {
                Some(e.1)
            } else {
                lookup(s, k)
            },
{
    let i = place(s, e.0, 0);
    let r = put(s, e);
    lemma_place(s, e.0, 0);
    if i < s.len() {
        lemma_before_total(s[i].0, e.0);
        assert forall|j: int| i < j < s.len() implies before(e.0, #[trigger] s[j].0) by {
            if before(e.0, s[i].0) {
                lemma_before_trans(e.0, s[i].0, s[j].0);
            }
        }
    }
    assert forall|a: int, b: int| 0 <= a < b < r.len() implies before(
        #[trigger] r[a].0,
        #[trigger] r[b].0,
    ) by {
        if i < s.len() && s[i].0 == e.0 {
            assert(r[a].0 == s[a].0);
            assert(r[b].0 == s[b].0);
        }
    }
    assert forall|k: Seq<char>| #[trigger] lookup(r, k) == (if k == e.0 {
        Some(e.1)
    } else {
        lookup(s, k)
    }) by {
        lemma_lookup(r, k);
        lemma_lookup(s, k);
        if k == e.0 {
            assert(r[i] == e);
        } else {
            if let Some(v) = lookup(s, k) {
                let p = choose|p: int| 0 <= p < s.len() && #[trigger] s[p] == (k, v);
                if i < s.len() && s[i].0 == e.0 {
                    assert(r[p] == (k, v));
                } else if p < i {
                    assert(r[p] == (k, v));
                } else {
                    assert(r[p + 1] == (k, v));
                }
            } else if let Some(v) = lookup(r, k) {
                let p = choose|p: int| 0 <= p < r.len() && #[trigger] r[p] == (k, v);
                if i < s.len() && s[i].0 == e.0 {
                    assert(s[p] == (k, v));
                } else if p < i {
                    assert(s[p] == (k, v));
                } else {
                    assert(s[p - 1] == (k, v));
                }
            }
        }
    }
}

/// In entries that are in order, a key stands for a value exactly where an entry says so.
pub proof fn lemma_lookup(s: Seq<Entry>, key: Seq<char>)
    requires
        ascending(s),
    ensures
        lookup(s, key) matches Some(v) ==> exists|i: int|
            0 <= i < s.len() && #[trigger] s[i] == (key, v),
        forall|i: int|
            0 <= i < s.len() && (#[trigger] s[i]).0 == key ==> lookup(s, key) == Some(s[i].1),
    decreases s.len(),
{
    if s.len() > 0 {
        let t = s.drop_last();
        assert forall|i: int, j: int| 0 <= i < j < t.len() implies before(
            #[trigger] t[i].0,
            #[trigger] t[j].0,
        ) by {
            assert(t[i] == s[i] && t[j] == s[j]);
        }
        lemma_lookup(t, key);
        if s.last().0 == key {
            assert(s[s.len() - 1] == (key, s.last().1));
            assert forall|i: int| 0 <= i < s.len() && (#[trigger] s[i]).0 == key implies lookup(
                s,
                key,
            ) == Some(s[i].1) by {
                if i < s.len() - 1 {
                    lemma_before_total(s[i].0, s[s.len() - 1].0);
                }
            }
        } else {
            if let Some(v) = lookup(t, key) {
                let p = choose|p: int| 0 <= p < t.len() && #[trigger] t[p] == (key, v);
                assert(s[p] == (key, v));
            }
            assert forall|i: int| 0 <= i < s.len() && (#[trigger] s[i]).0 == key implies lookup(
                s,
                key,
            ) == Some(s[i].1) by {
                assert(t[i] == s[i]);
            }
        }
    }
}

/// Putting entries in order keeps what every key stands for.
pub proof fn lemma_in_order(s: Seq<Entry>)
    ensures
        ascending(in_order(s)),
        forall|k: Seq<char>| #[trigger] lookup(in_order(s), k) == lookup(s, k),
    decreases s.len(),
{
    if s.len() > 0 {
        lemma_in_order(s.drop_last());
        lemma_put(in_order(s.drop_last()), s.last());
        assert forall|k: Seq<char>| #[trigger] lookup(in_order(s), k) == lookup(s, k) by {
            assert(lookup(in_order(s.drop_last()), k) == lookup(s.drop_last(), k));
        }
    }
}

/// Entries in order are settled by what their keys stand for.
pub proof fn lemma_ascending_unique(s: Seq<Entry>, t: Seq<Entry>)
    requires
        ascending(s),
        ascending(t),
        forall|k: Seq<char>| #[trigger] lookup(s, k) == lookup(t, k),
    ensures
        s == t,
    decreases s.len(),
{
    if s.len() == 0 {
        if t.len() > 0 {
            lemma_lookup(t, t[0].0);
            assert(lookup(s, t[0].0) == lookup(t, t[0].0));
        }
        assert(s =~= t);
    } else {
        let a = s.last();
        lemma_lookup(s, a.0);
        lemma_lookup(t, a.0);
        assert(lookup(s, a.0) == Some(a.1));
        let p = choose|p: int| 0 <= p < t.len() && #[trigger] t[p] == (a.0, a.1);
        let b = t.last();
        lemma_lookup(t, b.0);
        lemma_lookup(s, b.0);
        assert(lookup(t, b.0) == Some(b.1));
        let q = choose|q: int| 0 <= q < s.len() && #[trigger] s[q] == (b.0, b.1);
        if p < t.len() - 1 {
            assert(before(t[p].0, t[t.len() - 1].0));
            lemma_before_total(a.0, b.0);
            if q < s.len() - 1 {
                assert(before(s[q].0, s[s.len() - 1].0));
            }
            assert(false);
        }
        assert(a == b);
        let s1 = s.drop_last();
        let t1 = t.drop_last();
        assert forall|i: int, j: int| 0 <= i < j < s1.len() implies before(
            #[trigger] s1[i].0,
            #[trigger] s1[j].0,
        ) by {
            assert(s1[i] == s[i] && s1[j] == s[j]);
        }
        assert forall|i: int, j: int| 0 <= i < j < t1.len() implies before(
            #[trigger] t1[i].0,
            #[trigger] t1[j].0,
        ) by {
            assert(t1[i] == t[i] && t1[j] == t[j]);
        }
        assert forall|k: Seq<char>| #[trigger] lookup(s1, k) == lookup(t1, k) by {
            assert(lookup(s, k) == lookup(t, k));
            if k == a.0 {
                lemma_lookup(s1, k);
                lemma_lookup(t1, k);
                if let Some(v) = lookup(s1, k) {
                    let i = choose|i: int| 0 <= i < s1.len() && #[trigger] s1[i] == (k, v);
                    assert(before(s[i].0, s[s.len() - 1].0));
                    lemma_before_total(k, k);
                }
                if let Some(v) = lookup(t1, k) {
                    let i = choose|i: int| 0 <= i < t1.len() && #[trigger] t1[i] == (k, v);
                    assert(before(t[i].0, t[t.len() - 1].0));
                    lemma_before_total(k, k);
                }
            }
        }
        lemma_ascending_unique(s1, t1);
        assert(s =~= s1.push(a));
        assert(t =~= t1.push(a));
    }
}

// ── The canonical form ──────────────────────────────────────────────

/// The value with the keys of every object in it put in order. Arrays keep their order: an array
/// is data.
pub open spec fn tidy(t: Tree) -> Tree
    decreases t,
{
    match t {
        Tree::Array(v) => Tree::Array(tidy_all(v)),
        Tree::Object(v) => Tree::Object(in_order(tidy_each(v))),
        _ => t,
    }
}

/// Every value tidied.
pub open spec fn tidy_all(v: Seq<Tree>) -> Seq<Tree>
    decreases v,
{
    if v.len() == 0 {
        Seq::empty()
    } else {
        tidy_all(v.drop_last()).push(tidy(v.last()))
    }
}

/// Every entry's value tidied, the entries still in the order given.
pub open spec fn tidy_each(v: Seq<Entry>) -> Seq<Entry>
    decreases v,
{
    if v.len() == 0 {
        Seq::empty()
    } else {
        tidy_each(v.drop_last()).push((v.last().0, tidy(v.last().1)))
    }
}

pub proof fn lemma_tidy_all(v: Seq<Tree>)
    ensures
        tidy_all(v).len() == v.len(),
        forall|i: int| 0 <= i < v.len() ==> #[trigger] tidy_all(v)[i] == tidy(v[i]),
    decreases v.len(),
{
    if v.len() > 0 {
        lemma_tidy_all(v.drop_last());
    }
}

/// The order in which an object's keys were written is not part of its canonical form, and what
/// each key stands for is: two objects have one canonical form exactly where every key stands for
/// the same value in both.
pub proof fn law_key_order_does_not_matter(a: Seq<Entry>, b: Seq<Entry>)
    ensures
        tidy(Tree::Object(a)) == tidy(Tree::Object(b)) <==> forall|k: Seq<char>| #[trigger]
            lookup(tidy_each(a), k) == lookup(tidy_each(b), k),
{
    lemma_in_order(tidy_each(a));
    lemma_in_order(tidy_each(b));
    let x = in_order(tidy_each(a));
    let y = in_order(tidy_each(b));
    if tidy(Tree::Object(a)) == tidy(Tree::Object(b)) {
        assert forall|k: Seq<char>| #[trigger] lookup(tidy_each(a), k) == lookup(
            tidy_each(b),
            k,
        ) by {
            assert(lookup(x, k) == lookup(tidy_each(a), k));
            assert(lookup(y, k) == lookup(tidy_each(b), k));
        }
    }
    if forall|k: Seq<char>| #[trigger] lookup(tidy_each(a), k) == lookup(tidy_each(b), k) {
        assert forall|k: Seq<char>| #[trigger] lookup(x, k) == lookup(y, k) by {
            assert(lookup(tidy_each(a), k) == lookup(tidy_each(b), k));
        }
        lemma_ascending_unique(x, y);
    }
}

/// The order of an array is part of its canonical form.
pub proof fn law_array_order_matters(a: Seq<Tree>, b: Seq<Tree>)
    ensures
        tidy(Tree::Array(a)) == tidy(Tree::Array(b)) <==> (a.len() == b.len() && forall|i: int|
            0 <= i < a.len() ==> tidy(#[trigger] a[i]) == tidy(b[i])),
{
    lemma_tidy_all(a);
    lemma_tidy_all(b);
    if tidy(Tree::Array(a)) == tidy(Tree::Array(b)) {
        assert forall|i: int| 0 <= i < a.len() implies tidy(#[trigger] a[i]) == tidy(b[i]) by {
            assert(tidy_all(a)[i] == tidy_all(b)[i]);
        }
    }
    if a.len() == b.len() && forall|i: int|
        0 <= i < a.len() ==> tidy(#[trigger] a[i]) == tidy(b[i]) {
        assert(tidy_all(a) =~= tidy_all(b));
    }
}

impl Json {
    /// The same value, written again.
    pub fn copy(&self) -> (r: Json)
        ensures
            r@ == self@,
        decreases self,
    {
        match self {
            Json::Null => Json::Null,
            Json::Bool(b) => Json::Bool(*b),
            Json::Num(n) => Json::Num(n.clone()),
            Json::Str(s) => Json::Str(s.clone()),
            Json::Array(v) => {
                let mut out: Vec<Json> = Vec::new();
                let mut i: usize = 0;
                while i < v.len()
                    invariant
                        i <= v@.len(),
                        trees(out@) == trees(v@.take(i as int)),
                        decreases_to!(self => v@),
                    decreases v@.len() - i,
                {
                    let one = v[i].copy();
                    let ghost before = out@;
                    out.push(one);
                    i += 1;
                    assert(out@.drop_last() =~= before);
                    assert(v@.take(i as int).drop_last() =~= v@.take(i - 1));
                }
                assert(v@.take(i as int) =~= v@);
                Json::Array(out)
            },
            Json::Object(v) => {
                let mut out: Vec<(String, Json)> = Vec::new();
                let mut i: usize = 0;
                while i < v.len()
                    invariant
                        i <= v@.len(),
                        entries(out@) == entries(v@.take(i as int)),
                        decreases_to!(self => v@),
                    decreases v@.len() - i,
                {
                    let one = v[i].1.copy();
                    let ghost before = out@;
                    out.push((v[i].0.clone(), one));
                    i += 1;
                    assert(out@.drop_last() =~= before);
                    assert(v@.take(i as int).drop_last() =~= v@.take(i - 1));
                }
                assert(v@.take(i as int) =~= v@);
                Json::Object(out)
            },
        }
    }

    /// The canonical form of the value.
    pub fn tidied(&self) -> (r: Json)
        ensures
            r@ == tidy(self@),
        decreases self,
    {
        match self {
            Json::Null => Json::Null,
            Json::Bool(b) => Json::Bool(*b),
            Json::Num(n) => Json::Num(n.clone()),
            Json::Str(s) => Json::Str(s.clone()),
            Json::Array(v) => {
                let mut out: Vec<Json> = Vec::new();
                let mut i: usize = 0;
                while i < v.len()
                    invariant
                        i <= v@.len(),
                        trees(out@) == tidy_all(trees(v@.take(i as int))),
                        decreases_to!(self => v@),
                    decreases v@.len() - i,
                {
                    let one = v[i].tidied();
                    let ghost earlier = out@;
                    out.push(one);
                    i += 1;
                    proof {
                        let t = v@.take(i as int);
                        assert(out@.drop_last() =~= earlier);
                        assert(t.drop_last() =~= v@.take(i - 1));
                        assert(trees(t).drop_last() =~= trees(v@.take(i - 1)));
                        assert(trees(t).last() == v@[i - 1]@);
                    }
                }
                assert(v@.take(i as int) =~= v@);
                Json::Array(out)
            },
            Json::Object(v) => {
                let mut out: Vec<(String, Json)> = Vec::new();
                let mut i: usize = 0;
                while i < v.len()
                    invariant
                        i <= v@.len(),
                        entries(out@) == in_order(tidy_each(entries(v@.take(i as int)))),
                        decreases_to!(self => v@),
                    decreases v@.len() - i,
                {
                    let one = v[i].1.tidied();
                    let key = v[i].0.clone();
                    let ghost e: Entry = (key@, one@);
                    let ghost earlier = entries(out@);
                    put_entry(&mut out, key, one);
                    i += 1;
                    proof {
                        let t = v@.take(i as int);
                        assert(t.drop_last() =~= v@.take(i - 1));
                        assert(entries(t).drop_last() =~= entries(v@.take(i - 1)));
                        assert(entries(t).last() == (v@[i - 1].0@, v@[i - 1].1@));
                        assert(tidy_each(entries(t)).drop_last() =~= tidy_each(
                            entries(v@.take(i - 1)),
                        ));
                        assert(tidy_each(entries(t)).last() == e);
                    }
                }
                assert(v@.take(i as int) =~= v@);
                Json::Object(out)
            },
        }
    }

    /// What stands under `key`, where the value is an object that has it.
    pub fn get(&self, key: &str) -> (r: Option<&Json>)
        ensures
            (r matches Some(v) ==> field(self@, key@) == Some(v@)),
            r is None ==> field(self@, key@) is None,
    {
        match self {
            Json::Object(v) => {
                let mut i: usize = v.len();
                assert(v@.take(i as int) =~= v@);
                while i > 0
                    invariant
                        i <= v@.len(),
                        field(self@, key@) == lookup(entries(v@.take(i as int)), key@),
                    decreases i,
                {
                    proof {
                        let t = v@.take(i as int);
                        lemma_entries(t);
                        assert(t.drop_last() =~= v@.take(i - 1));
                        assert(entries(t).drop_last() =~= entries(v@.take(i - 1)));
                        assert(entries(t).last() == (v@[i - 1].0@, v@[i - 1].1@));
                    }
                    i -= 1;
                    if same(v[i].0.as_str(), key) {
                        return Some(&v[i].1);
                    }
                }
                None
            },
            _ => None,
        }
    }

    /// The text, where the value is one.
    pub fn as_str(&self) -> (r: Option<&str>)
        ensures
            (r matches Some(s) ==> self@ == Tree::Str(s@)),
            r is None ==> !(self@ is Str),
    {
        match self {
            Json::Str(s) => Some(s.as_str()),
            _ => None,
        }
    }
}

/// What stands under `key` in a value: nothing, where it is no object.
pub open spec fn field(t: Tree, key: Seq<char>) -> Option<Tree> {
    match t {
        Tree::Object(v) => lookup(v, key),
        _ => None,
    }
}

fn put_entry(out: &mut Vec<(String, Json)>, key: String, value: Json)
    ensures
        entries(final(out)@) == put(entries(old(out)@), (key@, value@)),
{
    let mut p: usize = 0;
    let ghost s = entries(out@);
    let ghost e: Entry = (key@, value@);
    proof {
        lemma_entries(out@);
    }
    while p < out.len() && comes_before(out[p].0.as_str(), key.as_str())
        invariant
            s == entries(out@),
            s.len() == out@.len(),
            forall|i: int| 0 <= i < out@.len() ==> #[trigger] s[i] == (out@[i].0@, out@[i].1@),
            p <= out@.len(),
            place(s, key@, 0) == place(s, key@, p as int),
        decreases out@.len() - p,
    {
        assert(s[p as int].0 == out@[p as int].0@);
        p += 1;
    }
    assert(p < out@.len() ==> s[p as int].0 == out@[p as int].0@);
    let ghost was = out@;
    if p < out.len() && same(out[p].0.as_str(), key.as_str()) {
        out.set(p, (key, value));
        proof {
            lemma_entries(out@);
            assert(entries(out@) =~= s.update(p as int, e));
        }
    } else {
        out.insert(p, (key, value));
        proof {
            lemma_entries(out@);
            assert(entries(out@) =~= s.insert(p as int, e));
        }
    }
}

// ── Text and value ──────────────────────────────────────────────────

/// What a `serde_json::Value` holds, the entries of an object in the order its map is walked.
pub uninterp spec fn held(v: serde_json::Value) -> Tree;

/// The compact text `serde_json` writes a value as.
pub uninterp spec fn compact(t: Tree) -> Seq<char>;

/// The indented text `serde_json` writes a value as.
pub uninterp spec fn indented(t: Tree) -> Seq<char>;

/// The value `serde_json` reads out of a text, or what it says where there is none.
pub uninterp spec fn parsed(text: Seq<char>) -> Result<Tree, Seq<char>>;

/// The value a text spells, where it is one.
pub open spec fn read(text: Seq<char>) -> Option<Tree> {
    match parsed(text) {
        Ok(t) => Some(t),
        Err(_) => None,
    }
}

/// What reading a text came to.
pub open spec fn outcome(r: Result<Json, String>) -> Result<Tree, Seq<char>> {
    match r {
        Ok(v) => Ok(v@),
        Err(why) => Err(why@),
    }
}

/// The number of `serde_json` that stands for a whole number.
pub uninterp spec fn whole(n: u64) -> serde_json::Number;

/// `Number::from` of `serde_json`, on a whole number: the number that stands for it.
#[verifier::external_body]
pub(crate) fn whole_number(n: u64) -> (r: serde_json::Number)
    ensures
        r == whole(n),
{
    serde_json::Number::from(n)
}

/// The number of `serde_json` that stands for a number that may be negative.
pub uninterp spec fn signed(n: i64) -> serde_json::Number;

/// `Number::from` of `serde_json`, on a number that may be negative: the number that stands for it.
#[verifier::external_body]
pub(crate) fn signed_number(n: i64) -> (r: serde_json::Number)
    ensures
        r == signed(n),
{
    serde_json::Number::from(n)
}

/// A whole number as a value.
pub fn number(n: u64) -> (r: Json)
    ensures
        r@ == Tree::Num(whole(n)),
{
    Json::Num(whole_number(n))
}

/// Adds an entry at the end of an object that is being written.
pub fn put_last(out: &mut Vec<(String, Json)>, key: &str, value: Json)
    ensures
        entries(final(out)@) == entries(old(out)@).push((key@, value@)),
{
    let ghost was = out@;
    out.push((key.to_owned(), value));
    assert(out@.drop_last() =~= was);
}

/// A text as a value.
pub fn string(s: &str) -> (r: Json)
    ensures
        r@ == Tree::Str(s@),
{
    Json::Str(s.to_owned())
}

/// An object without entries.
pub open spec fn nothing() -> Tree {
    Tree::Object(Seq::empty())
}

/// An object without entries.
pub fn no_entries() -> (r: Json)
    ensures
        r@ == nothing(),
{
    let none: Vec<(String, Json)> = Vec::new();
    assert(entries(none@) =~= Seq::empty());
    Json::Object(none)
}

/// Texts as values.
pub open spec fn string_trees(v: Seq<Seq<char>>) -> Seq<Tree> {
    Seq::new(v.len(), |i: int| Tree::Str(v[i]))
}

/// Texts as an array of values.
pub fn strings(v: &[String]) -> (r: Json)
    ensures
        r@ == Tree::Array(string_trees(text::strs(v@))),
{
    let mut out: Vec<Json> = Vec::new();
    let mut i: usize = 0;
    while i < v.len()
        invariant
            i <= v@.len(),
            out@.len() == i,
            forall|k: int| 0 <= k < i ==> (#[trigger] out@[k])@ == Tree::Str(v@[k]@),
        decreases v@.len() - i,
    {
        out.push(Json::Str(v[i].clone()));
        i += 1;
    }
    proof {
        lemma_trees(out@);
        assert(trees(out@) =~= string_trees(text::strs(v@)));
    }
    Json::Array(out)
}

/// A number that may be negative as a value.
pub fn signed_value(n: i64) -> (r: Json)
    ensures
        r@ == Tree::Num(signed(n)),
{
    Json::Num(signed_number(n))
}

/// Something that is reported as a value.
pub trait Row {
    /// The value it is reported as.
    spec fn row(&self) -> Tree;

    fn to_json(&self) -> (r: Json)
        ensures
            r@ == self.row(),
    ;
}

/// The values rows are reported as.
pub open spec fn rows<T: Row>(s: Seq<T>) -> Seq<Tree> {
    Seq::new(s.len(), |i: int| s[i].row())
}

/// Rows as an array of values.
pub fn array_of<T: Row>(v: &[T]) -> (r: Json)
    ensures
        r@ == Tree::Array(rows(v@)),
{
    rows_between(v, 0, v.len())
}

/// Some of the rows as an array of values.
pub fn rows_between<T: Row>(v: &[T], from: usize, to: usize) -> (r: Json)
    requires
        from <= to <= v@.len(),
    ensures
        r@ == Tree::Array(rows(v@.subrange(from as int, to as int))),
        from == 0 && to == v@.len() ==> r@ == Tree::Array(rows(v@)),
{
    let mut out: Vec<Json> = Vec::new();
    let mut i: usize = from;
    while i < to
        invariant
            from <= i <= to <= v@.len(),
            out@.len() == i - from,
            forall|k: int| 0 <= k < i - from ==> (#[trigger] out@[k])@ == v@[from + k].row(),
        decreases to - i,
    {
        out.push(v[i].to_json());
        i += 1;
    }
    proof {
        lemma_trees(out@);
        assert(trees(out@) =~= rows(v@.subrange(from as int, to as int)));
        if from == 0 && to == v@.len() {
            assert(v@.subrange(from as int, to as int) =~= v@);
        }
    }
    Json::Array(out)
}

// ── Arguments ───────────────────────────────────────────────────────

/// The text under a key, and nothing where there is none.
pub open spec fn text_under(t: Tree, key: Seq<char>) -> Seq<char> {
    match field(t, key) {
        Some(Tree::Str(s)) => s,
        _ => Seq::empty(),
    }
}

/// What a caller wrote for an argument, without the white space around it.
pub open spec fn argument(t: Tree, key: Seq<char>) -> Seq<char> {
    text::trim(text_under(t, key))
}

/// The flag under a key.
pub open spec fn flag_under(t: Tree, key: Seq<char>) -> Option<bool> {
    match field(t, key) {
        Some(Tree::Bool(b)) => Some(b),
        _ => None,
    }
}

pub fn text_at(args: &Json, key: &str) -> (r: String)
    ensures
        r@ == text_under(args@, key@),
{
    match args.get(key) {
        Some(Json::Str(s)) => s.clone(),
        _ => {
            let none = String::new();
            assert(none@ =~= Seq::<char>::empty());
            none
        },
    }
}

pub fn argument_of(args: &Json, key: &str) -> (r: String)
    ensures
        r@ == argument(args@, key@),
{
    trimmed(text_at(args, key).as_str())
}

pub fn flag_at(args: &Json, key: &str) -> (r: Option<bool>)
    ensures
        r == flag_under(args@, key@),
{
    match args.get(key) {
        Some(Json::Bool(b)) => Some(*b),
        _ => None,
    }
}

/// Takes a `serde_json::Value` apart, variant by variant: the result is what the value holds.
#[verifier::external_body]
fn from_value(v: serde_json::Value) -> (r: Json)
    ensures
        r@ == held(v),
{
    match v {
        serde_json::Value::Null => Json::Null,
        serde_json::Value::Bool(b) => Json::Bool(b),
        serde_json::Value::Number(n) => Json::Num(n),
        serde_json::Value::String(s) => Json::Str(s),
        serde_json::Value::Array(a) => Json::Array(a.into_iter().map(from_value).collect()),
        serde_json::Value::Object(m) => {
            Json::Object(m.into_iter().map(|(k, x)| (k, from_value(x))).collect())
        },
    }
}

/// Builds a `serde_json::Value`, variant by variant, out of a value whose keys are in order: the
/// result holds that value. (Without the order it would depend on the kind of map that
/// `serde_json` was built with.)
#[verifier::external_body]
fn to_value(v: &Json) -> (r: serde_json::Value)
    requires
        tidy(v@) == v@,
    ensures
        held(r) == v@,
{
    match v {
        Json::Null => serde_json::Value::Null,
        Json::Bool(b) => serde_json::Value::Bool(*b),
        Json::Num(n) => serde_json::Value::Number(n.clone()),
        Json::Str(s) => serde_json::Value::String(s.clone()),
        Json::Array(a) => serde_json::Value::Array(a.iter().map(to_value).collect()),
        Json::Object(m) => {
            serde_json::Value::Object(m.iter().map(|e| (e.0.clone(), to_value(&e.1))).collect())
        },
    }
}

/// `Value::to_string` of `serde_json`: the compact text of what the value holds. Of two values
/// with their keys in order, only the same value has the same text: strings are quoted and escaped
/// one for one, a float never reads as an integer, and every number is written so that no other
/// one has the same digits.
#[verifier::external_body]
fn value_text(v: &serde_json::Value) -> (r: String)
    ensures
        r@ == compact(held(*v)),
        forall|t: Tree|
            tidy(t) == t && tidy(held(*v)) == held(*v) && #[trigger] compact(t) == r@ ==> t
                == held(*v),
{
    v.to_string()
}

/// `serde_json::to_string_pretty` on a value, which it never refuses: the indented text of what
/// the value holds.
#[verifier::external_body]
fn value_pretty(v: &serde_json::Value) -> (r: String)
    ensures
        r@ == indented(held(*v)),
{
    serde_json::to_string_pretty(v).unwrap_or_default()
}

/// What reading a text with `serde_json` came to.
pub open spec fn value_outcome(r: Result<serde_json::Value, String>) -> Result<Tree, Seq<char>> {
    match r {
        Ok(v) => Ok(held(v)),
        Err(why) => Err(why@),
    }
}

/// `serde_json::from_str` into a value, with the text of its error: what it reads, or says where
/// it cannot, depends on the text alone.
#[verifier::external_body]
fn value_of(text: &str) -> (r: Result<serde_json::Value, String>)
    ensures
        value_outcome(r) == parsed(text@),
{
    serde_json::from_str::<serde_json::Value>(text).map_err(|e| e.to_string())
}

/// The value a text spells, or what is wrong with it.
pub fn parse_or_why(text: &str) -> (r: Result<Json, String>)
    ensures
        outcome(r) == parsed(text@),
{
    match value_of(text) {
        Ok(v) => Ok(from_value(v)),
        Err(why) => Err(why),
    }
}

/// The value a text spells.
pub fn parse(text: &str) -> (r: Option<Json>)
    ensures
        (r matches Some(v) ==> read(text@) == Some(v@)),
        r is None ==> read(text@) is None,
{
    match parse_or_why(text) {
        Ok(v) => Some(v),
        Err(_) => None,
    }
}

/// The canonical form has nothing left to tidy.
pub proof fn lemma_tidy_twice(t: Tree)
    ensures
        tidy(tidy(t)) == tidy(t),
    decreases t,
{
    match t {
        Tree::Array(v) => {
            lemma_tidy_all(v);
            lemma_tidy_all(tidy_all(v));
            assert forall|i: int| 0 <= i < v.len() implies tidy(tidy(#[trigger] v[i])) == tidy(
                v[i],
            ) by {
                lemma_tidy_twice(v[i]);
            }
            assert forall|i: int| 0 <= i < v.len() implies tidy_all(tidy_all(v))[i]
                == #[trigger] tidy_all(v)[i] by {
                assert(tidy_all(v)[i] == tidy(v[i]));
            }
            assert(tidy_all(tidy_all(v)) =~= tidy_all(v));
        },
        Tree::Object(v) => {
            let each = tidy_each(v);
            let w = in_order(each);
            lemma_in_order(each);
            lemma_tidy_values(v);
            lemma_tidy_each(w);
            assert(tidy_each(w) =~= w);
            lemma_in_order(w);
            lemma_ascending_unique(in_order(w), w);
        },
        _ => {},
    }
}

/// The values in a tidied object are tidy.
pub proof fn lemma_tidy_values(v: Seq<Entry>)
    ensures
        forall|i: int|
            0 <= i < in_order(tidy_each(v)).len() ==> tidy(
                (#[trigger] in_order(tidy_each(v))[i]).1,
            ) == in_order(tidy_each(v))[i].1,
    decreases v,
{
    let each = tidy_each(v);
    let w = in_order(each);
    lemma_tidy_each(v);
    lemma_in_order_from(each);
    assert forall|i: int| 0 <= i < w.len() implies tidy((#[trigger] w[i]).1) == w[i].1 by {
        let j = choose|j: int| 0 <= j < each.len() && #[trigger] each[j] == w[i];
        assert(each[j].1 == tidy(v[j].1));
        lemma_tidy_twice(v[j].1);
    }
}

proof fn lemma_tidy_each(v: Seq<Entry>)
    ensures
        tidy_each(v).len() == v.len(),
        forall|i: int|
            0 <= i < v.len() ==> #[trigger] tidy_each(v)[i] == (v[i].0, tidy(v[i].1)),
    decreases v.len(),
{
    if v.len() > 0 {
        lemma_tidy_each(v.drop_last());
    }
}

/// Putting entries in order makes up none.
proof fn lemma_in_order_from(s: Seq<Entry>)
    ensures
        forall|i: int|
            0 <= i < in_order(s).len() ==> exists|j: int|
                0 <= j < s.len() && s[j] == #[trigger] in_order(s)[i],
    decreases s.len(),
{
    if s.len() > 0 {
        let t = s.drop_last();
        let w = in_order(t);
        let r = in_order(s);
        let e = s.last();
        lemma_in_order_from(t);
        lemma_place(w, e.0, 0);
        assert forall|i: int| 0 <= i < r.len() implies exists|j: int|
            0 <= j < s.len() && s[j] == #[trigger] r[i] by {
            let p = place(w, e.0, 0);
            if r[i] == e {
                assert(s[s.len() - 1] == r[i]);
            } else if p < w.len() && w[p].0 == e.0 {
                assert(r[i] == w[i]);
                let j = choose|j: int| 0 <= j < t.len() && t[j] == w[i];
                assert(s[j] == r[i]);
            } else if i < p {
                assert(r[i] == w[i]);
                let j = choose|j: int| 0 <= j < t.len() && t[j] == w[i];
                assert(s[j] == r[i]);
            } else {
                assert(r[i] == w[i - 1]);
                let j = choose|j: int| 0 <= j < t.len() && t[j] == w[i - 1];
                assert(s[j] == r[i]);
            }
        }
    }
}

/// The compact text of a value, its keys in order.
pub fn render(v: &Json) -> (r: String)
    ensures
        r@ == compact(tidy(v@)),
        forall|t: Tree| #[trigger] compact(tidy(t)) == r@ ==> tidy(t) == tidy(v@),
{
    let tidied = v.tidied();
    proof {
        lemma_tidy_twice(v@);
    }
    let r = value_text(&to_value(&tidied));
    assert forall|t: Tree| #[trigger] compact(tidy(t)) == r@ implies tidy(t) == tidy(v@) by {
        lemma_tidy_twice(t);
    }
    r
}

/// The indented text of a value, its keys in order.
pub fn pretty(v: &Json) -> (r: String)
    ensures
        r@ == indented(tidy(v@)),
{
    let tidied = v.tidied();
    proof {
        lemma_tidy_twice(v@);
    }
    value_pretty(&to_value(&tidied))
}

/// What stands last under a key counts, and an entry touches no other key.
pub proof fn law_the_last_entry_counts(s: Seq<Entry>, e: Entry, other: Seq<char>)
    ensures
        lookup(s.push(e), e.0) == Some(e.1),
        other != e.0 ==> lookup(s.push(e), other) == lookup(s, other),
        lookup(Seq::empty(), other) is None,
        field(Tree::Object(s.push(e)), e.0) == Some(e.1),
{
    assert(s.push(e).drop_last() =~= s);
}

/// An argument is text without the white space around it, and nothing where it is no text; a flag is
/// one only where it is true or false.
pub proof fn law_what_an_argument_is(t: Tree, key: Seq<char>)
    ensures
        match field(t, key) {
            Some(Tree::Str(s)) => text_under(t, key) == s && argument(t, key) == text::trim(s)
                && flag_under(t, key) is None,
            Some(Tree::Bool(b)) => flag_under(t, key) == Some(b) && argument(t, key).len() == 0,
            _ => argument(t, key).len() == 0 && text_under(t, key).len() == 0 && flag_under(t, key)
                is None,
        },
        !(t is Object) ==> field(t, key) is None,
{
}

/// Texts are in order by their first difference, and a text that another starts with comes before
/// it.
pub proof fn law_texts_are_in_order_by_their_first_difference(
    same: Seq<char>,
    a: char,
    x: Seq<char>,
    b: char,
    y: Seq<char>,
)
    requires
        a < b,
    ensures
        before(same.push(a) + x, same.push(b) + y),
        !before(same.push(b) + y, same.push(a) + x),
        before(same, same.push(a) + x),
        !before(same, same),
    decreases same.len(),
{
    let (p, q) = (same.push(a) + x, same.push(b) + y);
    if same.len() == 0 {
        assert(p[0] == a && q[0] == b);
    } else {
        let t = same.drop_first();
        law_texts_are_in_order_by_their_first_difference(t, a, x, b, y);
        assert(p[0] == same[0] && q[0] == same[0]);
        assert(p.drop_first() =~= t.push(a) + x);
        assert(q.drop_first() =~= t.push(b) + y);
    }
}

} // verus!
