//! Picking rows, in order.

use vstd::prelude::*;

verus! {

/// A test that rows are picked by.
pub trait Picks<T> {
    /// Whether the row is picked.
    spec fn picks(&self, row: T) -> bool;

    /// Whether the row is picked.
    fn takes(&self, row: &T) -> (r: bool)
        ensures
            r == self.picks(*row),
    ;
}

/// The rows that are picked, in order.
pub open spec fn chosen<'a, T, P: Picks<T>>(rows: Seq<T>, test: P) -> Seq<&'a T>
    decreases rows.len(),
{
    if rows.len() == 0 {
        Seq::empty()
    } else if test.picks(rows.last()) {
        chosen::<'a, T, P>(rows.drop_last(), test).push(&rows.last())
    } else {
        chosen::<'a, T, P>(rows.drop_last(), test)
    }
}

/// The rows that are picked, in order.
pub fn choose_rows<'a, T, P: Picks<T>>(rows: &'a Vec<T>, test: &P) -> (r: Vec<&'a T>)
    ensures
        r@ == chosen::<'a, T, P>(rows@, *test),
{
    let mut out: Vec<&'a T> = Vec::new();
    let mut i: usize = 0;
    assert(rows@.take(0) =~= Seq::<T>::empty());
    while i < rows.len()
        invariant
            i <= rows@.len(),
            out@ == chosen::<'a, T, P>(rows@.take(i as int), *test),
        decreases rows.len() - i,
    {
        assert(rows@.take(i + 1).drop_last() =~= rows@.take(i as int));
        assert(rows@.take(i + 1).last() == rows@[i as int]);
        if test.takes(&rows[i]) {
            out.push(&rows[i]);
        }
        i += 1;
    }
    assert(rows@.take(i as int) =~= rows@);
    out
}

/// The first rows that are picked, in order, no more than `limit`.
pub fn choose_first<'a, T, P: Picks<T>>(rows: &'a Vec<T>, test: &P, limit: usize) -> (r: Vec<&'a T>)
    ensures
        r@ == crate::chat_store::first_of(chosen::<'a, T, P>(rows@, *test), limit as int),
{
    let mut out: Vec<&'a T> = choose_rows(rows, test);
    if out.len() > limit {
        let ghost all = out@;
        out.truncate(limit);
        assert(out@ =~= all.take(limit as int));
    }
    out
}

/// Every row that is picked is one of the rows and meets the test, and none that meets it is
/// left out.
pub proof fn law_exactly_the_right_rows_are_picked<'a, T, P: Picks<T>>(rows: Seq<T>, test: P)
    ensures
        forall|k: int|
            0 <= k < chosen::<'a, T, P>(rows, test).len() ==> test.picks(
                *#[trigger] chosen::<'a, T, P>(rows, test)[k],
            ) && rows.contains(*chosen::<'a, T, P>(rows, test)[k]),
        forall|i: int|
            0 <= i < rows.len() && test.picks(#[trigger] rows[i]) ==> chosen::<'a, T, P>(
                rows,
                test,
            ).contains(&rows[i]),
    decreases rows.len(),
{
    if rows.len() > 0 {
        let head = rows.drop_last();
        law_exactly_the_right_rows_are_picked(head, test);
        let before = chosen::<'a, T, P>(head, test);
        let all = chosen::<'a, T, P>(rows, test);
        assert forall|k: int| 0 <= k < all.len() implies test.picks(*#[trigger] all[k])
            && rows.contains(*all[k]) by {
            if k < before.len() {
                assert(all[k] == before[k]);
                let n = choose|n: int| 0 <= n < head.len() && head[n] == *before[k];
                assert(rows[n] == *all[k]);
            } else {
                assert(rows[rows.len() - 1] == *all[k]);
            }
        }
        assert forall|i: int| 0 <= i < rows.len() && test.picks(#[trigger] rows[i]) implies all.contains(
            &rows[i],
        ) by {
            if i < head.len() {
                assert(head[i] == rows[i]);
                let n = choose|n: int| 0 <= n < before.len() && before[n] == &head[i];
                assert(all[n] == &rows[i]);
            } else {
                assert(all[all.len() - 1] == &rows[i]);
            }
        }
    }
}

} // verus!
