//! A stable sort for rows that know which comes first.

use crate::textmap::{comes_before, lemma_text_total, lemma_text_transitive, text_less};
use vstd::prelude::*;

verus! {

/// A row that can be put in order.
pub trait Ranked: Sized {
    /// Whether this row comes before the other.
    spec fn precedes(self, other: Self) -> bool;

    /// Whether this row comes before the other.
    fn goes_before(&self, other: &Self) -> (r: bool)
        ensures
            r == self.precedes(*other),
    ;

    /// Nothing comes before what comes before it.
    proof fn asymmetric(a: Self, b: Self)
        requires
            a.precedes(b),
        ensures
            !b.precedes(a),
    ;

    /// A row that is not after a second, which is not after a third, is not after the third.
    proof fn transitive(a: Self, b: Self, c: Self)
        requires
            !b.precedes(a),
            !c.precedes(b),
        ensures
            !c.precedes(a),
    ;
}

/// The rows with one more, in front of the rows that it precedes at the end.
pub open spec fn placed<T: Ranked>(rows: Seq<T>, row: T) -> Seq<T>
    decreases rows.len(),
{
    if rows.len() == 0 || !row.precedes(rows.last()) {
        rows.push(row)
    } else {
        placed(rows.drop_last(), row).push(rows.last())
    }
}

/// The rows in order. Rows of the same rank keep their order.
pub open spec fn ranked<T: Ranked>(rows: Seq<T>) -> Seq<T>
    decreases rows.len(),
{
    if rows.len() == 0 {
        rows
    } else {
        placed(ranked(rows.drop_last()), rows.last())
    }
}

/// Whether no row comes before an earlier one.
pub open spec fn in_order<T: Ranked>(rows: Seq<T>) -> bool {
    forall|i: int, j: int|
        0 <= i < j < rows.len() ==> !(#[trigger] rows[j]).precedes(#[trigger] rows[i])
}

proof fn lemma_placed_at<T: Ranked>(rows: Seq<T>, row: T, at: int)
    requires
        0 <= at <= rows.len(),
        at == 0 || !row.precedes(rows[at - 1]),
        forall|k: int| at <= k < rows.len() ==> row.precedes(#[trigger] rows[k]),
    ensures
        placed(rows, row) == rows.insert(at, row),
    decreases rows.len(),
{
    if at == rows.len() {
        assert(rows.insert(at, row) =~= rows.push(row));
    } else {
        let head = rows.drop_last();
        assert(row.precedes(rows[rows.len() - 1]));
        lemma_placed_at(head, row, at);
        assert(rows.insert(at, row) =~= head.insert(at, row).push(rows.last()));
    }
}

proof fn lemma_placed<T: Ranked>(rows: Seq<T>, row: T)
    requires
        in_order(rows),
    ensures
        in_order(placed(rows, row)),
        placed(rows, row).len() == rows.len() + 1,
        placed(rows, row).to_multiset() == rows.to_multiset().insert(row),
        forall|r: T|
            #![trigger placed(rows, row).contains(r)]
            placed(rows, row).contains(r) ==> r == row || rows.contains(r),
    decreases rows.len(),
{
    broadcast use vstd::seq_lib::group_to_multiset_ensures;

    if rows.len() == 0 {
    } else if !row.precedes(rows.last()) {
        assert forall|i: int, j: int| 0 <= i < j < rows.push(row).len() implies !(
        #[trigger] rows.push(row)[j]).precedes(#[trigger] rows.push(row)[i]) by {
            if j == rows.len() && i < rows.len() - 1 {
                T::transitive(rows[i], rows[rows.len() - 1], row);
            }
        }
        assert forall|r: T| #[trigger] rows.push(row).contains(r) implies r == row || rows.contains(
            r,
        ) by {
            let k = choose|k: int| 0 <= k < rows.push(row).len() && rows.push(row)[k] == r;
            if k < rows.len() {
                assert(rows[k] == r);
            }
        }
    } else {
        let head = rows.drop_last();
        assert forall|i: int, j: int| 0 <= i < j < head.len() implies !(
        #[trigger] head[j]).precedes(#[trigger] head[i]) by {
            assert(head[j] == rows[j] && head[i] == rows[i]);
        }
        lemma_placed(head, row);
        let p = placed(head, row);
        let out = p.push(rows.last());
        T::asymmetric(row, rows.last());
        assert forall|i: int, j: int| 0 <= i < j < out.len() implies !(
        #[trigger] out[j]).precedes(#[trigger] out[i]) by {
            if j == out.len() - 1 {
                assert(p.contains(p[i]));
                if p[i] != row {
                    let k = choose|k: int| 0 <= k < head.len() && head[k] == p[i];
                    assert(rows[k] == p[i]);
                }
            }
        }
        assert(rows =~= head.push(rows.last()));
        assert(head.to_multiset().insert(row).insert(rows.last())
            =~= head.to_multiset().insert(rows.last()).insert(row));
        assert forall|r: T| #[trigger] out.contains(r) implies r == row || rows.contains(r) by {
            let k = choose|k: int| 0 <= k < out.len() && out[k] == r;
            if k < p.len() {
                assert(p.contains(r));
                if r != row {
                    let n = choose|n: int| 0 <= n < head.len() && head[n] == r;
                    assert(rows[n] == r);
                }
            } else {
                assert(rows[rows.len() - 1] == r);
            }
        }
    }
}

/// Sorting puts the rows in order and neither loses nor adds one.
pub proof fn law_sorting_orders_the_rows<T: Ranked>(rows: Seq<T>)
    ensures
        in_order(ranked(rows)),
        ranked(rows).len() == rows.len(),
        ranked(rows).to_multiset() == rows.to_multiset(),
    decreases rows.len(),
{
    broadcast use vstd::seq_lib::group_to_multiset_ensures;

    if rows.len() > 0 {
        law_sorting_orders_the_rows(rows.drop_last());
        lemma_placed(ranked(rows.drop_last()), rows.last());
        assert(rows =~= rows.drop_last().push(rows.last()));
    }
}

/// The rows in order. Rows of the same rank keep their order.
pub fn sort_rows<T: Ranked>(rows: Vec<T>) -> (r: Vec<T>)
    ensures
        r@ == ranked(rows@),
{
    let ghost all = rows@;
    let mut out: Vec<T> = Vec::new();
    assert(all.take(0) =~= Seq::<T>::empty());
    for row in it: rows.into_iter()
        invariant
            it.seq() == all,
            out@ == ranked(all.take(it.index() as int)),
            in_order(out@),
    {
        let mut at: usize = out.len();
        while at > 0 && row.goes_before(&out[at - 1])
            invariant
                at <= out@.len(),
                forall|k: int| at <= k < out@.len() ==> row.precedes(#[trigger] out@[k]),
            decreases at,
        {
            at -= 1;
        }
        proof {
            let n = it.index() as int;
            assert(all.take(n + 1).drop_last() =~= all.take(n));
            assert(all.take(n + 1).last() == row);
            lemma_placed_at(out@, row, at as int);
            lemma_placed(out@, row);
        }
        out.insert(at, row);
    }
    assert(all.take(all.len() as int) =~= all);
    out
}

impl Ranked for String {
    /// By their characters.
    open spec fn precedes(self, other: Self) -> bool {
        text_less(self@, other@)
    }

    fn goes_before(&self, other: &Self) -> (r: bool) {
        comes_before(self.as_str(), other.as_str())
    }

    proof fn asymmetric(a: Self, b: Self) {
        lemma_text_total(a@, b@);
    }

    proof fn transitive(a: Self, b: Self, c: Self) {
        lemma_text_total(a@, b@);
        lemma_text_total(b@, c@);
        lemma_text_total(a@, c@);
        if text_less(a@, b@) && text_less(b@, c@) {
            lemma_text_transitive(a@, b@, c@);
        }
    }
}

/// Sorting keeps the order of what ranks the same: one more row stands behind every row that it
/// does not precede, and in front of every row that it precedes; the others stay as they stood.
pub proof fn law_sorting_keeps_the_order_of_equals<T: Ranked>(rows: Seq<T>, row: T) -> (at: int)
    ensures
        0 <= at <= rows.len(),
        ranked(rows.push(row)) == ranked(rows).insert(at, row),
        forall|k: int| 0 <= k < at ==> !row.precedes(#[trigger] ranked(rows)[k]),
        forall|k: int| at <= k < rows.len() ==> row.precedes(#[trigger] ranked(rows)[k]),
{
    law_sorting_orders_the_rows(rows);
    assert(rows.push(row).drop_last() =~= rows);
    let sorted = ranked(rows);
    let at = lemma_place_of(sorted, row);
    lemma_placed_at(sorted, row, at);
    at
}

proof fn lemma_place_of<T: Ranked>(rows: Seq<T>, row: T) -> (at: int)
    requires
        in_order(rows),
    ensures
        0 <= at <= rows.len(),
        forall|k: int| 0 <= k < at ==> !row.precedes(#[trigger] rows[k]),
        forall|k: int| at <= k < rows.len() ==> row.precedes(#[trigger] rows[k]),
    decreases rows.len(),
{
    if rows.len() == 0 {
        0
    } else if row.precedes(rows.last()) {
        let head = rows.drop_last();
        assert forall|i: int, j: int| 0 <= i < j < head.len() implies !(
        #[trigger] head[j]).precedes(#[trigger] head[i]) by {
            assert(head[j] == rows[j] && head[i] == rows[i]);
        }
        let at = lemma_place_of(head, row);
        assert forall|k: int| 0 <= k < at implies !row.precedes(#[trigger] rows[k]) by {
            assert(head[k] == rows[k]);
        }
        assert forall|k: int| at <= k < rows.len() implies row.precedes(#[trigger] rows[k]) by {
            if k < head.len() {
                assert(head[k] == rows[k]);
            }
        }
        at
    } else {
        let n = rows.len() as int;
        assert forall|k: int| 0 <= k < n implies !row.precedes(#[trigger] rows[k]) by {
            if k < n - 1 {
                T::transitive(rows[k], rows[n - 1], row);
            }
        }
        n
    }
}

/// Texts are sorted as in a dictionary of their characters.
pub proof fn law_texts_are_sorted(names: Seq<String>, i: int, j: int)
    requires
        0 <= i < j < names.len(),
    ensures
        ranked(names).to_multiset() == names.to_multiset(),
        ranked(names).len() == names.len(),
        !text_less(ranked(names)[j]@, ranked(names)[i]@),
{
    law_sorting_orders_the_rows(names);
    assert(!ranked(names)[j].precedes(ranked(names)[i]));
}

} // verus!
