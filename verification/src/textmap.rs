//! A small map keyed by text, and the order of texts.

use crate::text::{chars_of, same};
use vstd::prelude::*;

verus! {

/// A map keyed by text, for a few entries.
pub struct TextMap<T> {
    rows: Vec<(String, T)>,
}

impl<T> View for TextMap<T> {
    type V = Map<Seq<char>, T>;

    closed spec fn view(&self) -> Map<Seq<char>, T> {
        Map::new(
            |k: Seq<char>| exists|i: int| 0 <= i < self.rows@.len() && #[trigger] self.rows@[i].0@ == k,
            |k: Seq<char>|
                self.rows@[choose|i: int|
                    0 <= i < self.rows@.len() && #[trigger] self.rows@[i].0@ == k].1,
        )
    }
}

impl<T> TextMap<T> {
    /// No key stands twice.
    pub closed spec fn wf(&self) -> bool {
        forall|i: int, j: int|
            0 <= i < j < self.rows@.len() ==> #[trigger] self.rows@[i].0@
                != #[trigger] self.rows@[j].0@
    }

    /// A map without entries.
    pub fn new() -> (r: Self)
        ensures
            r.wf(),
            r@ == Map::<Seq<char>, T>::empty(),
    {
        let r = TextMap { rows: Vec::new() };
        assert(r@ =~= Map::<Seq<char>, T>::empty());
        r
    }

    fn row_of(&self, key: &str) -> (r: Option<usize>)
        requires
            self.wf(),
        ensures
            match r {
                Some(i) => i < self.rows@.len() && self.rows@[i as int].0@ == key@
                    && self@.dom().contains(key@) && self@[key@] == self.rows@[i as int].1,
                None => !self@.dom().contains(key@),
            },
    {
        let mut i: usize = 0;
        while i < self.rows.len()
            invariant
                self.wf(),
                i <= self.rows@.len(),
                forall|j: int| 0 <= j < i ==> #[trigger] self.rows@[j].0@ != key@,
            decreases self.rows.len() - i,
        {
            if same(self.rows[i].0.as_str(), key) {
                assert(self.rows@[i as int].0@ == key@);
                return Some(i);
            }
            i += 1;
        }
        None
    }

    /// The value under the key.
    pub fn get(&self, key: &str) -> (r: Option<&T>)
        requires
            self.wf(),
        ensures
            r == (if self@.dom().contains(key@) {
                Some(&self@[key@])
            } else {
                None
            }),
    {
        match self.row_of(key) {
            Some(i) => Some(&self.rows[i].1),
            None => None,
        }
    }

    /// Sets the value under the key.
    pub fn insert(&mut self, key: String, value: T)
        requires
            old(self).wf(),
        ensures
            final(self).wf(),
            final(self)@ == old(self)@.insert(key@, value),
    {
        let ghost before = *self;
        let ghost name = key@;
        match self.row_of(key.as_str()) {
            Some(i) => {
                self.rows.set(i, (key, value));
                proof {
                    before.lemma_set(*self, name, value, i as int);
                }
            },
            None => {
                let ghost i = self.rows@.len() as int;
                self.rows.push((key, value));
                proof {
                    before.lemma_set(*self, name, value, i);
                }
            },
        }
    }

    /// Removes what stands under the key.
    pub fn remove(&mut self, key: &str)
        requires
            old(self).wf(),
        ensures
            final(self).wf(),
            final(self)@ == old(self)@.remove(key@),
    {
        let ghost before = *self;
        match self.row_of(key) {
            Some(i) => {
                self.rows.remove(i);
                proof {
                    before.lemma_removed(*self, key@, i as int);
                }
            },
            None => {
                assert(self@ =~= before@.remove(key@));
            },
        }
    }

    proof fn lemma_removed(self, after: Self, key: Seq<char>, i: int)
        requires
            self.wf(),
            0 <= i < self.rows@.len(),
            self.rows@[i].0@ == key,
            after.rows@ == self.rows@.remove(i),
        ensures
            after.wf(),
            after@ == self@.remove(key),
    {
        let from = |j: int|
            if j < i {
                j
            } else {
                j + 1
            };
        let to = |j: int|
            if j < i {
                j
            } else {
                j - 1
            };
        assert forall|j: int| 0 <= j < after.rows@.len() implies #[trigger] after.rows@[j]
            == self.rows@[from(j)] && after.rows@[j].0@ != key by {
            assert(self.rows@[from(j)].0@ != self.rows@[i].0@);
        }
        assert forall|a: int, b: int| 0 <= a < b < after.rows@.len() implies #[trigger]
            after.rows@[a].0@ != #[trigger] after.rows@[b].0@ by {
            assert(self.rows@[from(a)].0@ != self.rows@[from(b)].0@);
        }
        assert(after@ =~= self@.remove(key)) by {
            assert forall|k: Seq<char>| #[trigger]
                after@.dom().contains(k) <==> self@.remove(key).dom().contains(k) by {
                if after@.dom().contains(k) {
                    let j = choose|j: int|
                        0 <= j < after.rows@.len() && #[trigger] after.rows@[j].0@ == k;
                    assert(self.rows@[from(j)].0@ == k);
                }
                if self@.dom().contains(k) && k != key {
                    let j = choose|j: int|
                        0 <= j < self.rows@.len() && #[trigger] self.rows@[j].0@ == k;
                    assert(after.rows@[to(j)].0@ == k);
                }
            }
            assert forall|k: Seq<char>| #[trigger] after@.dom().contains(k) implies after@[k]
                == self@.remove(key)[k] by {
                let a = choose|a: int|
                    0 <= a < after.rows@.len() && #[trigger] after.rows@[a].0@ == k;
                let b = choose|b: int|
                    0 <= b < self.rows@.len() && #[trigger] self.rows@[b].0@ == k;
                assert(self.rows@[from(a)].0@ == k);
                assert(from(a) == b);
            }
        }
    }

    proof fn lemma_set(self, after: Self, key: Seq<char>, value: T, i: int)
        requires
            self.wf(),
            0 <= i <= self.rows@.len(),
            i < self.rows@.len() ==> self.rows@[i].0@ == key && after.rows@.len()
                == self.rows@.len(),
            i == self.rows@.len() ==> !self@.dom().contains(key) && after.rows@.len()
                == self.rows@.len() + 1,
            after.rows@[i].0@ == key,
            after.rows@[i].1 == value,
            forall|j: int| 0 <= j < self.rows@.len() && j != i ==> after.rows@[j] == self.rows@[j],
        ensures
            after.wf(),
            after@ == self@.insert(key, value),
    {
        assert forall|j: int| 0 <= j < self.rows@.len() && j != i implies self.rows@[j].0@
            != key by {
            if i == self.rows@.len() {
                assert(self.rows@[j].0@ == key ==> self@.dom().contains(key));
            }
        }
        assert(after.wf());
        assert(after@ =~= self@.insert(key, value)) by {
            assert forall|k: Seq<char>| #[trigger]
                after@.dom().contains(k) <==> self@.insert(key, value).dom().contains(k) by {
                if after@.dom().contains(k) {
                    let j = choose|j: int|
                        0 <= j < after.rows@.len() && #[trigger] after.rows@[j].0@ == k;
                    if j != i {
                        assert(self.rows@[j].0@ == k);
                    }
                }
                if self@.dom().contains(k) && k != key {
                    let j = choose|j: int|
                        0 <= j < self.rows@.len() && #[trigger] self.rows@[j].0@ == k;
                    assert(after.rows@[j].0@ == k);
                }
                if k == key {
                    assert(after.rows@[i].0@ == k);
                }
            }
            assert forall|k: Seq<char>| #[trigger] after@.dom().contains(k) implies after@[k]
                == self@.insert(key, value)[k] by {
                let a = choose|a: int|
                    0 <= a < after.rows@.len() && #[trigger] after.rows@[a].0@ == k;
                if k != key {
                    let b = choose|b: int|
                        0 <= b < self.rows@.len() && #[trigger] self.rows@[b].0@ == k;
                    assert(after.rows@[b].0@ == k);
                    assert(a == b);
                } else {
                    assert(a == i);
                }
            }
        }
    }
}

// ---------------------------------------------------------------------------
// The order of texts
// ---------------------------------------------------------------------------

/// Whether `a` comes before `b` in the order of their characters.
pub open spec fn text_less(a: Seq<char>, b: Seq<char>) -> bool
    decreases a.len(),
{
    if b.len() == 0 {
        false
    } else if a.len() == 0 {
        true
    } else if a[0] != b[0] {
        a[0] < b[0]
    } else {
        text_less(a.drop_first(), b.drop_first())
    }
}

/// Of two different texts one comes first, and only one.
pub proof fn lemma_text_total(a: Seq<char>, b: Seq<char>)
    ensures
        !(text_less(a, b) && text_less(b, a)),
        text_less(a, b) || text_less(b, a) || a == b,
        a == b ==> !text_less(a, b),
    decreases a.len(),
{
    if a.len() == 0 || b.len() == 0 {
        if a.len() == 0 && b.len() == 0 {
            assert(a =~= b);
        }
    } else if a[0] == b[0] {
        lemma_text_total(a.drop_first(), b.drop_first());
        if a.drop_first() == b.drop_first() {
            assert(a =~= seq![a[0]] + a.drop_first());
            assert(b =~= seq![b[0]] + b.drop_first());
        }
    }
}

/// The order is transitive.
pub proof fn lemma_text_transitive(a: Seq<char>, b: Seq<char>, c: Seq<char>)
    requires
        text_less(a, b),
        text_less(b, c),
    ensures
        text_less(a, c),
    decreases a.len(),
{
    if a.len() > 0 && a[0] == b[0] && b[0] == c[0] {
        lemma_text_transitive(a.drop_first(), b.drop_first(), c.drop_first());
    }
}

/// Whether `a` comes before `b`.
pub fn comes_before(a: &str, b: &str) -> (r: bool)
    ensures
        r == text_less(a@, b@),
{
    let x: Vec<char> = chars_of(a);
    let y: Vec<char> = chars_of(b);
    let mut i: usize = 0;
    assert(x@.skip(0) =~= x@);
    assert(y@.skip(0) =~= y@);
    loop
        invariant
            i <= x@.len(),
            i <= y@.len(),
            x@ == a@,
            y@ == b@,
            text_less(x@.skip(i as int), y@.skip(i as int)) == text_less(x@, y@),
        decreases x.len() - i,
    {
        if i == y.len() {
            return false;
        }
        if i == x.len() {
            return true;
        }
        if x[i] != y[i] {
            return x[i] < y[i];
        }
        assert(x@.skip(i as int).drop_first() =~= x@.skip(i + 1));
        assert(y@.skip(i as int).drop_first() =~= y@.skip(i + 1));
        i += 1;
    }
}

/// Texts are ordered by the first character in which they differ, and the beginning of a text
/// comes before the text.
pub proof fn law_texts_are_ordered_by_their_first_difference(
    front: Seq<char>,
    a: char,
    b: char,
    rest: Seq<char>,
    other: Seq<char>,
)
    ensures
        text_less(front + seq![a] + rest, front + seq![b] + other) || a >= b,
        a < b ==> !text_less(front + seq![b] + other, front + seq![a] + rest),
        text_less(front, front + seq![a] + rest),
        !text_less(front, front),
    decreases front.len(),
{
    let x = front + seq![a] + rest;
    let y = front + seq![b] + other;
    if front.len() > 0 {
        let tail = front.drop_first();
        assert(x.drop_first() =~= tail + seq![a] + rest);
        assert(y.drop_first() =~= tail + seq![b] + other);
        law_texts_are_ordered_by_their_first_difference(tail, a, b, rest, other);
    } else {
        assert(x[0] == a && y[0] == b);
    }
}

} // verus!
