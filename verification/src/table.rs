//! A table of values keyed by text.
//!
//! The values stand in a vector; a concurrent hash map finds a key's place in it. The
//! table owns the map, so between two calls nothing else touches it.

use dashmap::DashMap;
use vstd::prelude::*;

verus! {

/// `dashmap::DashMap`, which holds the place of each key.
#[verifier::external_type_specification]
#[verifier::external_body]
#[verifier::reject_recursive_types(K)]
#[verifier::reject_recursive_types(V)]
#[verifier::reject_recursive_types(S)]
pub struct ExDashMap<K, V, S>(dashmap::DashMap<K, V, S>);

/// The entries of an index: the place of each key's text.
pub uninterp spec fn index_entries(m: DashMap<String, u64>) -> Map<Seq<char>, u64>;

/// `DashMap::new`: an index without entries.
#[verifier::external_body]
fn index_new() -> (m: DashMap<String, u64>)
    ensures
        index_entries(m).dom() == Set::<Seq<char>>::empty(),
{
    DashMap::new()
}

/// `DashMap::get`: the value under the key, where there is one.
#[verifier::external_body]
fn index_get(m: &DashMap<String, u64>, key: &str) -> (r: Option<u64>)
    ensures
        r == (if index_entries(*m).dom().contains(key@) {
            Some(index_entries(*m)[key@])
        } else {
            None
        }),
{
    m.get(key).map(|e| *e.value())
}

/// `DashMap::insert`: sets the value under the key. The exclusive borrow rules out a
/// reference into the map, with which the call could block.
#[verifier::external_body]
fn index_insert(m: &mut DashMap<String, u64>, key: String, place: u64)
    ensures
        index_entries(*final(m)) == index_entries(*old(m)).insert(key@, place),
{
    m.insert(key, place);
}

/// `DashMap::remove`: takes the key out, where it is in. The exclusive borrow rules out a
/// reference into the map, with which the call could block.
#[verifier::external_body]
fn index_remove(m: &mut DashMap<String, u64>, key: &str)
    ensures
        index_entries(*final(m)) == index_entries(*old(m)).remove(key@),
{
    m.remove(key);
}

/// A value with a time of issue.
pub trait Aged {
    /// The time of issue, in nanoseconds on the server's clock.
    spec fn issued(&self) -> u64;

    /// The time of issue, in nanoseconds on the server's clock.
    fn issued_at(&self) -> (r: u64)
        ensures
            r == self.issued(),
    ;
}

impl Aged for u64 {
    open spec fn issued(&self) -> u64 {
        *self
    }

    fn issued_at(&self) -> (r: u64) {
        *self
    }
}

/// A table of values keyed by text.
pub struct Table<T> {
    index: DashMap<String, u64>,
    rows: Vec<(String, T)>,
}

impl<T> View for Table<T> {
    type V = Map<Seq<char>, T>;

    closed spec fn view(&self) -> Map<Seq<char>, T> {
        Map::new(
            |k: Seq<char>| index_entries(self.index).dom().contains(k),
            |k: Seq<char>| self.rows@[index_entries(self.index)[k] as int].1,
        )
    }
}

impl<T> Table<T> {
    /// The index and the rows agree: each row's key is found at its place, and each
    /// indexed place holds its key.
    pub closed spec fn wf(&self) -> bool {
        let ix = index_entries(self.index);
        &&& forall|i: int|
            0 <= i < self.rows@.len() ==> ix.dom().contains(#[trigger] self.rows@[i].0@)
                && ix[self.rows@[i].0@] == i
        &&& forall|k: Seq<char>| #[trigger]
            ix.dom().contains(k) ==> ix[k] < self.rows@.len() && self.rows@[ix[k] as int].0@ == k
    }

    /// The number of rows.
    pub closed spec fn row_count(&self) -> nat {
        self.rows@.len()
    }

    /// The key of row `i`.
    pub closed spec fn row_key(&self, i: int) -> Seq<char> {
        self.rows@[i].0@
    }

    /// The row of a key.
    pub closed spec fn place(&self, k: Seq<char>) -> int {
        index_entries(self.index)[k] as int
    }

    /// Every key has one row, and every row one key.
    pub proof fn lemma_rows(&self)
        requires
            self.wf(),
        ensures
            forall|i: int|
                0 <= i < self.row_count() ==> self@.dom().contains(#[trigger] self.row_key(i))
                    && self.place(self.row_key(i)) == i,
            forall|k: Seq<char>| #[trigger]
                self@.dom().contains(k) ==> 0 <= self.place(k) < self.row_count() && self.row_key(
                    self.place(k),
                ) == k,
    {
    }

    /// The number of rows.
    pub fn len(&self) -> (n: usize)
        ensures
            n == self.row_count(),
    {
        self.rows.len()
    }

    /// The value of row `i`.
    pub fn row(&self, i: usize) -> (r: &T)
        requires
            self.wf(),
            i < self.row_count(),
        ensures
            *r == self@[self.row_key(i as int)],
    {
        &self.rows[i].1
    }

    /// A table without rows.
    pub fn new() -> (t: Self)
        ensures
            t.wf(),
            t@ == Map::<Seq<char>, T>::empty(),
    {
        let t = Table { index: index_new(), rows: Vec::new() };
        assert(t@ =~= Map::<Seq<char>, T>::empty());
        t
    }

    /// The row that holds the key.
    fn row_of(&self, key: &str) -> (r: Option<usize>)
        requires
            self.wf(),
        ensures
            match r {
                Some(i) => i < self.rows@.len() && self.rows@[i as int].0@ == key@
                    && self@.dom().contains(key@) && self@[key@] == self.rows@[i as int].1,
                None => !self@.dom().contains(key@),
            },
    {
        match index_get(&self.index, key) {
            Some(place) => {
                assert(place < self.rows.len());
                Some(place as usize)
            },
            None => None,
        }
    }

    /// The value under the key.
    pub fn get(&self, key: &str) -> (r: Option<&T>)
        requires
            self.wf(),
        ensures
            r == (if self@.dom().contains(key@) {
                Some(&self@[key@])
            } else {
                None
            }),
    {
        match self.row_of(key) {
            Some(i) => Some(&self.rows[i].1),
            None => None,
        }
    }

    /// Sets the value under the key.
    pub fn insert(&mut self, key: String, value: T)
        requires
            old(self).wf(),
        ensures
            final(self).wf(),
            final(self)@ == old(self)@.insert(key@, value),
    {
        let ghost before = *self;
        match self.row_of(key.as_str()) {
            Some(i) => {
                self.rows.set(i, (key, value));
                assert(self@ =~= before@.insert(key@, value));
            },
            None => {
                let place: u64 = self.rows.len() as u64;
                let copy: String = key.clone();
                self.rows.push((key, value));
                index_insert(&mut self.index, copy, place);
                assert(self@ =~= before@.insert(key@, value));
            },
        }
    }

    /// Takes the key out of the table and returns its value.
    pub fn remove(&mut self, key: &str) -> (r: Option<T>)
        requires
            old(self).wf(),
        ensures
            final(self).wf(),
            final(self)@ == old(self)@.remove(key@),
            r == (if old(self)@.dom().contains(key@) {
                Some(old(self)@[key@])
            } else {
                None
            }),
    {
        let ghost before = *self;
        match self.row_of(key) {
            Some(i) => Some(self.remove_row(i)),
            None => {
                assert(self@ =~= before@.remove(key@));
                None
            },
        }
    }

    /// Takes row `i` out; the last row moves to its place.
    fn remove_row(&mut self, i: usize) -> (value: T)
        requires
            old(self).wf(),
            i < old(self).rows@.len(),
        ensures
            final(self).wf(),
            final(self).rows@ == old(self).rows@.update(i as int, old(self).rows@.last()).drop_last(),
            final(self)@ == old(self)@.remove(old(self).rows@[i as int].0@),
            value == old(self).rows@[i as int].1,
    {
        let ghost before = *self;
        let (key, value) = self.rows.swap_remove(i);
        index_remove(&mut self.index, key.as_str());
        if i < self.rows.len() {
            let moved: String = self.rows[i].0.clone();
            index_insert(&mut self.index, moved, i as u64);
        }
        proof {
            before.lemma_removed(*self, key@, i as int);
        }
        value
    }

    proof fn lemma_removed(self, after: Self, key: Seq<char>, i: int)
        requires
            self.wf(),
            0 <= i < self.rows@.len(),
            self.rows@[i].0@ == key,
            after.rows@ == self.rows@.update(i, self.rows@.last()).drop_last(),
            index_entries(after.index) == (if i < self.rows@.len() - 1 {
                index_entries(self.index).remove(key).insert(self.rows@.last().0@, i as u64)
            } else {
                index_entries(self.index).remove(key)
            }),
            i < self.rows@.len() - 1 ==> after.rows@[i] == self.rows@.last(),
        ensures
            after.wf(),
            after@ == self@.remove(key),
    {
        let n = self.rows@.len() as int;
        let ix = index_entries(self.index);
        let ix2 = index_entries(after.index);
        let last = self.rows@.last().0@;
        assert(self.rows@[n - 1].0@ == last);
        assert(ix[last] == n - 1);
        assert forall|j: int| 0 <= j < after.rows@.len() implies ix2.dom().contains(
            #[trigger] after.rows@[j].0@,
        ) && ix2[after.rows@[j].0@] == j by {
            if j == i {
                assert(after.rows@[j].0@ == last);
            } else {
                assert(after.rows@[j] == self.rows@[j]);
                assert(ix[self.rows@[j].0@] == j);
            }
        }
        assert forall|k: Seq<char>| #[trigger] ix2.dom().contains(k) implies ix2[k]
            < after.rows@.len() && after.rows@[ix2[k] as int].0@ == k by {
            if k == last && i < n - 1 {
            } else {
                assert(ix.dom().contains(k));
                assert(ix[k] != i);
                if ix[k] == n - 1 {
                    assert(k == last);
                }
            }
        }
        assert(after@ =~= self@.remove(key)) by {
            assert forall|k: Seq<char>| after@.dom().contains(k) implies after@[k] == self@.remove(
                key,
            )[k] by {
                if k == last && i < n - 1 {
                } else {
                    assert(ix[k] != n - 1);
                }
            }
        }
    }
}

impl<T: Aged> Table<T> {
    /// Keeps the values whose age at `now` is below `max_age`, both in nanoseconds.
    pub fn keep_younger(&mut self, now: u64, max_age: u64)
        requires
            old(self).wf(),
        ensures
            final(self).wf(),
            final(self)@ == old(self)@.restrict(
                Set::new(
                    |k: Seq<char>|
                        old(self)@.dom().contains(k) && old(self)@[k].issued() + max_age > now,
                ),
            ),
    {
        let ghost before = *self;
        let mut i: usize = self.rows.len();
        while i > 0
            invariant
                self.wf(),
                i <= self.rows@.len(),
                forall|j: int|
                    i <= j < self.rows@.len() ==> #[trigger] self.rows@[j].1.issued() + max_age
                        > now,
                forall|k: Seq<char>| #[trigger]
                    self@.dom().contains(k) ==> before@.dom().contains(k) && self@[k] == before@[k],
                forall|k: Seq<char>| #[trigger]
                    before@.dom().contains(k) && before@[k].issued() + max_age > now
                        ==> self@.dom().contains(k),
            decreases i,
        {
            i -= 1;
            let issued: u64 = self.rows[i].1.issued_at();
            if (issued as u128) + (max_age as u128) <= now as u128 {
                let ghost mid = *self;
                assert(mid@.dom().contains(mid.rows@[i as int].0@));
                let _ = self.remove_row(i);
                proof {
                    assert forall|j: int| i <= j < self.rows@.len() implies (
                    #[trigger] self.rows@[j]).1.issued() + max_age > now by {
                        if j == i {
                            assert(self.rows@[j] == mid.rows@[mid.rows@.len() - 1]);
                        } else {
                            assert(self.rows@[j] == mid.rows@[j]);
                        }
                    }
                }
            }
        }
        proof {
            let kept = Set::new(
                |k: Seq<char>| before@.dom().contains(k) && before@[k].issued() + max_age > now,
            );
            assert forall|k: Seq<char>| self@.dom().contains(k) implies kept.contains(k) by {
                let row = index_entries(self.index)[k] as int;
                assert(self.rows@[row].1.issued() + max_age > now);
            }
            assert(self@ =~= before@.restrict(kept));
        }
    }
}

} // verus!
