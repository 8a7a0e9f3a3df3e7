//! Small facts about sequences that several modules share.
use vstd::prelude::*;

verus! {

/// The first position whose element `f` picks, or the length where it picks none.
pub open spec fn first<A>(s: Seq<A>, f: spec_fn(A) -> bool) -> int {
    first_from(s, f, 0)
}

pub open spec fn first_from<A>(s: Seq<A>, f: spec_fn(A) -> bool, from: int) -> int
    decreases s.len() - from,
{
    if from < 0 || from >= s.len() {
        s.len() as int
    } else if f(s[from]) {
        from
    } else {
        first_from(s, f, from + 1)
    }
}

pub proof fn lemma_first_from<A>(s: Seq<A>, f: spec_fn(A) -> bool, from: int)
    requires
        0 <= from <= s.len(),
    ensures
        from <= first_from(s, f, from) <= s.len(),
        first_from(s, f, from) < s.len() ==> f(s[first_from(s, f, from)]),
        forall|j: int| from <= j < first_from(s, f, from) ==> !f(#[trigger] s[j]),
    decreases s.len() - from,
{
    if from < s.len() && !f(s[from]) {
        lemma_first_from(s, f, from + 1);
    }
}

pub proof fn lemma_first<A>(s: Seq<A>, f: spec_fn(A) -> bool)
    ensures
        0 <= first(s, f) <= s.len(),
        first(s, f) < s.len() ==> f(s[first(s, f)]),
        forall|j: int| 0 <= j < first(s, f) ==> !f(#[trigger] s[j]),
{
    lemma_first_from(s, f, 0);
}

/// Where two tests pick the same elements, they pick the same first one.
pub proof fn lemma_first_is<A>(s: Seq<A>, f: spec_fn(A) -> bool, i: int)
    requires
        0 <= i < s.len(),
        f(s[i]),
        forall|j: int| 0 <= j < i ==> !f(#[trigger] s[j]),
    ensures
        first(s, f) == i,
{
    lemma_first(s, f);
}

pub proof fn lemma_first_none<A>(s: Seq<A>, f: spec_fn(A) -> bool)
    requires
        forall|j: int| 0 <= j < s.len() ==> !f(#[trigger] s[j]),
    ensures
        first(s, f) == s.len(),
{
    lemma_first(s, f);
}

/// One more element to filter.
pub proof fn lemma_filter_take<A>(s: Seq<A>, f: spec_fn(A) -> bool, i: int)
    requires
        0 <= i < s.len(),
    ensures
        s.take(i + 1).filter(f) == if f(s[i]) {
            s.take(i).filter(f).push(s[i])
        } else {
            s.take(i).filter(f)
        },
{
    reveal(Seq::filter);
    assert(s.take(i + 1).drop_last() =~= s.take(i));
}

pub proof fn lemma_filter_none<A>(s: Seq<A>, f: spec_fn(A) -> bool)
    ensures
        s.take(0).filter(f) == Seq::<A>::empty(),
{
    reveal(Seq::filter);
    assert(s.take(0) =~= Seq::<A>::empty());
}

/// What stands in a filtered sequence stood in the whole one, at or after its own position.
pub proof fn lemma_filter_from<A>(s: Seq<A>, f: spec_fn(A) -> bool)
    ensures
        s.filter(f).len() <= s.len(),
        forall|i: int|
            0 <= i < s.filter(f).len() ==> f(#[trigger] s.filter(f)[i]) && s.contains(
                s.filter(f)[i],
            ),
        forall|a: A| #[trigger] s.contains(a) && f(a) ==> s.filter(f).contains(a),
    decreases s.len(),
{
    reveal(Seq::filter);
    if s.len() > 0 {
        let t = s.drop_last();
        lemma_filter_from(t, f);
        assert forall|i: int| 0 <= i < s.filter(f).len() implies f(#[trigger] s.filter(f)[i])
            && s.contains(s.filter(f)[i]) by {
            if i < t.filter(f).len() {
                assert(s.filter(f)[i] == t.filter(f)[i]);
                let j = choose|j: int| 0 <= j < t.len() && t[j] == t.filter(f)[i];
                assert(s[j] == s.filter(f)[i]);
            } else {
                assert(s[s.len() - 1] == s.filter(f)[i]);
            }
        }
        assert forall|a: A| #[trigger] s.contains(a) && f(a) implies s.filter(f).contains(a) by {
            let j = choose|j: int| 0 <= j < s.len() && s[j] == a;
            if j < s.len() - 1 {
                assert(t[j] == a);
                assert(t.contains(a));
                let k = choose|k: int| 0 <= k < t.filter(f).len() && t.filter(f)[k] == a;
                assert(s.filter(f)[k] == a);
            } else {
                assert(s.filter(f)[s.filter(f).len() - 1] == a);
            }
        }
    }
}

/// Filtering keeps distinct keys distinct.
pub proof fn lemma_filter_distinct<A, B>(s: Seq<A>, f: spec_fn(A) -> bool, key: spec_fn(A) -> B)
    requires
        forall|i: int, j: int|
            0 <= i < j < s.len() ==> key(#[trigger] s[i]) != key(#[trigger] s[j]),
    ensures
        forall|i: int, j: int|
            0 <= i < j < s.filter(f).len() ==> key(#[trigger] s.filter(f)[i]) != key(
                #[trigger] s.filter(f)[j],
            ),
    decreases s.len(),
{
    reveal(Seq::filter);
    if s.len() > 0 {
        let t = s.drop_last();
        lemma_filter_distinct(t, f, key);
        lemma_filter_from(t, f);
        let w = s.filter(f);
        assert forall|i: int, j: int| 0 <= i < j < w.len() implies key(#[trigger] w[i]) != key(
            #[trigger] w[j],
        ) by {
            assert(w[i] == t.filter(f)[i]);
            if j < t.filter(f).len() {
                assert(w[j] == t.filter(f)[j]);
            } else {
                let k = choose|k: int| 0 <= k < t.len() && t[k] == t.filter(f)[i];
                assert(key(s[k]) != key(s[s.len() - 1]));
            }
        }
    }
}

/// An element among those in order: behind all that it does not come before.
pub open spec fn settle<A>(s: Seq<A>, a: A, before: spec_fn(A, A) -> bool) -> Seq<A> {
    s.insert(first(s, |x: A| before(a, x)), a)
}

/// The elements in order, those of the same rank in the order they came in.
pub open spec fn in_order<A>(s: Seq<A>, before: spec_fn(A, A) -> bool) -> Seq<A>
    decreases s.len(),
{
    if s.len() == 0 {
        Seq::empty()
    } else {
        settle(in_order(s.drop_last(), before), s.last(), before)
    }
}

/// No element comes before one that stands ahead of it.
pub open spec fn ordered<A>(s: Seq<A>, before: spec_fn(A, A) -> bool) -> bool {
    forall|i: int, j: int| 0 <= i < j < s.len() ==> !before(#[trigger] s[j], #[trigger] s[i])
}

/// What comes before one thing comes before another, or that other comes before the one.
pub open spec fn ranks<A>(before: spec_fn(A, A) -> bool) -> bool {
    &&& forall|a: A, b: A, c: A| before(a, c) ==> #[trigger] before(a, b) || #[trigger] before(b, c)
    &&& forall|a: A, b: A| #[trigger] before(a, b) ==> !before(b, a)
}

/// Putting elements in order loses none and makes up none.
pub proof fn lemma_in_order<A>(s: Seq<A>, before: spec_fn(A, A) -> bool)
    requires
        ranks(before),
    ensures
        in_order(s, before).len() == s.len(),
        ordered(in_order(s, before), before),
        forall|a: A| #[trigger] in_order(s, before).contains(a) <==> s.contains(a),
    decreases s.len(),
{
    if s.len() > 0 {
        let t = s.drop_last();
        let a = s.last();
        let w = in_order(t, before);
        lemma_in_order(t, before);
        let f = |x: A| before(a, x);
        let k = first(w, f);
        lemma_first(w, f);
        let r = w.insert(k, a);
        assert forall|i: int, j: int| 0 <= i < j < r.len() implies !before(
            #[trigger] r[j],
            #[trigger] r[i],
        ) by {
            if i == k {
                if before(r[j], a) {
                    assert(f(w[k]));
                    if j - 1 > k {
                        assert(!before(w[j - 1], w[k]));
                        assert(before(r[j], w[k]) || before(w[k], a));
                    }
                    assert(!before(w[k], a));
                }
            } else if j == k {
                assert(!f(w[i]));
            } else {
                let p = if i < k { i } else { i - 1 };
                let q = if j < k { j } else { j - 1 };
                assert(r[i] == w[p] && r[j] == w[q]);
            }
        }
        assert forall|x: A| #[trigger] r.contains(x) <==> s.contains(x) by {
            if r.contains(x) {
                let i = choose|i: int| 0 <= i < r.len() && r[i] == x;
                if i == k {
                    assert(s[s.len() - 1] == x);
                } else {
                    assert(w[if i < k { i } else { i - 1 }] == x);
                    assert(w.contains(x));
                    assert(t.contains(x));
                    let j = choose|j: int| 0 <= j < t.len() && t[j] == x;
                    assert(s[j] == x);
                }
            }
            if s.contains(x) {
                let i = choose|i: int| 0 <= i < s.len() && s[i] == x;
                if i == s.len() - 1 {
                    assert(r[k] == x);
                } else {
                    assert(t[i] == x);
                    assert(t.contains(x));
                    assert(w.contains(x));
                    let j = choose|j: int| 0 <= j < w.len() && w[j] == x;
                    assert(r[if j < k { j } else { j + 1 }] == x);
                }
            }
        }
    }
}

/// A filter that drops an element leaves fewer.
pub proof fn lemma_filter_shorter<A>(s: Seq<A>, f: spec_fn(A) -> bool, i: int)
    requires
        0 <= i < s.len(),
        !f(s[i]),
    ensures
        s.filter(f).len() < s.len(),
    decreases s.len(),
{
    reveal(Seq::filter);
    let front = s.drop_last();
    lemma_filter_from(front, f);
    if i < front.len() {
        lemma_filter_shorter(front, f, i);
    }
}

} // verus!
