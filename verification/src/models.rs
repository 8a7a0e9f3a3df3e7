//! Keep stable list models when polling produces no visible change.
use crate::text;
use vstd::prelude::*;

verus! {

/// Whether two lists may show the same: as many rows, each of which may be found equal.
pub open spec fn unchanged<T: PartialEq>(current: Seq<T>, rows: Seq<T>) -> bool {
    &&& current.len() == rows.len()
    &&& forall|i: int|
        0 <= i < rows.len() ==> call_ensures(T::eq, (&#[trigger] current[i], &rows[i]), true)
}

/// Whether two lists may differ: more rows or fewer, or one that may be found different.
pub open spec fn differs<T: PartialEq>(current: Seq<T>, rows: Seq<T>) -> bool {
    ||| current.len() != rows.len()
    ||| exists|i: int|
        0 <= i < rows.len() && call_ensures(T::eq, (&#[trigger] current[i], &rows[i]), false)
}

/// The rows to publish, or nothing where they are the rows that show already.
pub fn changed<T: PartialEq>(current: &[T], rows: Vec<T>) -> (r: Option<Vec<T>>)
    ensures
        match r {
            None => unchanged(current@, rows@),
            Some(new) => new@ == rows@ && differs(current@, rows@),
        },
{
    if current.len() != rows.len() {
        return Some(rows);
    }
    let mut i: usize = 0;
    while i < rows.len()
        invariant
            i <= rows@.len(),
            current@.len() == rows@.len(),
            forall|k: int|
                0 <= k < i ==> call_ensures(T::eq, (&#[trigger] current@[k], &rows@[k]), true),
        decreases rows@.len() - i,
    {
        let equal = current[i] == rows[i];
        if !equal {
            assert(call_ensures(T::eq, (&current@[i as int], &rows@[i as int]), false));
            return Some(rows);
        }
        i += 1;
    }
    None
}

/// Rows of text are published exactly where they are not the ones that show: whether they differ
/// is never a matter of chance.
pub proof fn law_texts_are_published_where_they_differ(current: Seq<String>, rows: Seq<String>)
    ensures
        unchanged(current, rows) ==> text::strs(current) == text::strs(rows),
        differs(current, rows) ==> text::strs(current) != text::strs(rows),
{
    let a = text::strs(current);
    let b = text::strs(rows);
    if unchanged(current, rows) {
        assert forall|i: int| 0 <= i < a.len() implies a[i] == b[i] by {
            assert(call_ensures(String::eq, (&current[i], &rows[i]), true));
        }
        assert(a =~= b);
    }
    if differs(current, rows) {
        if current.len() != rows.len() {
            assert(a.len() != b.len());
        } else {
            let i = choose|i: int|
                0 <= i < rows.len() && call_ensures(
                    String::eq,
                    (&#[trigger] current[i], &rows[i]),
                    false,
                );
            assert(a[i] != b[i]);
        }
    }
}

} // verus!
