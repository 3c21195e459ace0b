//! Which sessions have a run in progress.
//!
//! Each session has at most one current run. A run is known by its number; a run that has
//! ended keeps its place until it is replaced or removed, so that a late reader still finds
//! its events.

use crate::table::Table;
use vstd::prelude::*;

verus! {

/// A run of a session.
pub struct Run {
    pub number: u64,
    pub done: bool,
}

/// The current run of each session.
pub struct Runs {
    sessions: Table<Run>,
    next: u64,
}

impl View for Runs {
    type V = Map<Seq<char>, Run>;

    closed spec fn view(&self) -> Map<Seq<char>, Run> {
        self.sessions@
    }
}

/// Whether the session has a run that has not ended.
pub open spec fn running(runs: Map<Seq<char>, Run>, id: Seq<char>) -> bool {
    runs.dom().contains(id) && !runs[id].done
}

/// Whether a run of the session can start: none is running, and `next`, the number that it would
/// get, is not the largest there is.
pub open spec fn can_start(runs: Map<Seq<char>, Run>, next: u64, id: Seq<char>) -> bool {
    !running(runs, id) && next < u64::MAX
}

/// The runs after a start of the session, which changes nothing where it is refused.
pub open spec fn started(runs: Map<Seq<char>, Run>, next: u64, id: Seq<char>) -> Map<
    Seq<char>,
    Run,
> {
    if can_start(runs, next, id) {
        runs.insert(id, (Run { number: next, done: false }))
    } else {
        runs
    }
}

impl Runs {
    /// The table is sound, and every run has a number below the next one.
    pub closed spec fn wf(&self) -> bool {
        self.sessions.wf() && forall|k: Seq<char>| #[trigger]
            self.sessions@.dom().contains(k) ==> self.sessions@[k].number < self.next
    }

    /// The number that the next run gets.
    pub closed spec fn next_number(&self) -> u64 {
        self.next
    }

    /// No runs.
    pub fn new() -> (r: Self)
        ensures
            r.wf(),
            r@ == Map::<Seq<char>, Run>::empty(),
            r.next_number() == 0,
    {
        Runs { sessions: Table::new(), next: 0 }
    }

    /// Starts a run of the session, unless one is running: the result is its number. A run
    /// that has ended is replaced.
    pub fn try_start(&mut self, id: &str) -> (r: Option<u64>)
        requires
            old(self).wf(),
        ensures
            final(self).wf(),
            r == (if can_start(old(self)@, old(self).next_number(), id@) {
                Some(old(self).next_number())
            } else {
                None
            }),
            final(self)@ == started(old(self)@, old(self).next_number(), id@),
            final(self).next_number() == old(self).next_number() + (if r is Some {
                1int
            } else {
                0int
            }),
    {
        let busy: bool = match self.sessions.get(id) {
            Some(run) => !run.done,
            None => false,
        };
        if busy || self.next == u64::MAX {
            return None;
        }
        let number: u64 = self.next;
        self.sessions.insert(id.to_owned(), Run { number, done: false });
        self.next = number + 1;
        Some(number)
    }

    /// The current run of the session.
    pub fn get(&self, id: &str) -> (r: Option<&Run>)
        requires
            self.wf(),
        ensures
            r == (if self@.dom().contains(id@) {
                Some(&self@[id@])
            } else {
                None
            }),
    {
        self.sessions.get(id)
    }

    /// Whether the session has a run that has not ended.
    pub fn is_running(&self, id: &str) -> (r: bool)
        requires
            self.wf(),
        ensures
            r == running(self@, id@),
    {
        match self.sessions.get(id) {
            Some(run) => !run.done,
            None => false,
        }
    }

    /// Records that run `number` of the session has ended. A later run is left alone.
    pub fn finish(&mut self, id: &str, number: u64)
        requires
            old(self).wf(),
        ensures
            final(self).wf(),
            final(self).next_number() == old(self).next_number(),
            final(self)@ == (if old(self)@.dom().contains(id@) && old(self)@[id@].number == number {
                old(self)@.insert(id@, (Run { number, done: true }))
            } else {
                old(self)@
            }),
    {
        let current: bool = match self.sessions.get(id) {
            Some(run) => run.number == number,
            None => false,
        };
        if current {
            self.sessions.insert(id.to_owned(), Run { number, done: true });
        }
    }

    /// Takes the session's run out, whether it has ended or not.
    pub fn remove(&mut self, id: &str)
        requires
            old(self).wf(),
        ensures
            final(self).wf(),
            final(self).next_number() == old(self).next_number(),
            final(self)@ == old(self)@.remove(id@),
    {
        let _ = self.sessions.remove(id);
    }

    /// The sessions with a run that has not ended.
    pub open spec fn active(&self) -> Set<Seq<char>> {
        Set::new(|k: Seq<char>| running(self@, k))
    }

    /// How many sessions have a run that has not ended.
    pub fn active_count(&self) -> (n: usize)
        requires
            self.wf(),
        ensures
            self.active().finite(),
            n == self.active().len(),
    {
        let mut n: usize = 0;
        let mut i: usize = 0;
        let ghost mut seen = Set::<Seq<char>>::empty();
        while i < self.sessions.len()
            invariant
                self.wf(),
                i <= self.sessions.row_count(),
                seen.finite(),
                n == seen.len(),
                n <= i,
                seen =~= Set::new(
                    |k: Seq<char>|
                        exists|j: int|
                            0 <= j < i && #[trigger] self.sessions.row_key(j) == k && running(
                                self@,
                                k,
                            ),
                ),
            decreases self.sessions.row_count() - i,
        {
            let ghost key = self.sessions.row_key(i as int);
            proof {
                self.sessions.lemma_rows();
            }
            let run: &Run = self.sessions.row(i);
            let ghost before = seen;
            if !run.done {
                n += 1;
                proof {
                    assert(!seen.contains(key));
                    seen = seen.insert(key);
                }
            }
            proof {
                let after = Set::new(
                    |k: Seq<char>|
                        exists|j: int|
                            0 <= j < i + 1 && #[trigger] self.sessions.row_key(j) == k && running(
                                self@,
                                k,
                            ),
                );
                assert forall|k: Seq<char>| seen.contains(k) <==> after.contains(k) by {
                    if before.contains(k) {
                        let j = choose|j: int|
                            0 <= j < i && #[trigger] self.sessions.row_key(j) == k && running(
                                self@,
                                k,
                            );
                        assert(self.sessions.row_key(j) == k);
                    }
                    if after.contains(k) {
                        let j = choose|j: int|
                            0 <= j < i + 1 && #[trigger] self.sessions.row_key(j) == k && running(
                                self@,
                                k,
                            );
                        if j < i {
                            assert(self.sessions.row_key(j) == k);
                        }
                    }
                    if k == key && running(self@, k) {
                        assert(self.sessions.row_key(i as int) == k);
                    }
                }
            }
            i += 1;
        }
        proof {
            self.sessions.lemma_rows();
            assert forall|k: Seq<char>| self.active().contains(k) <==> seen.contains(k) by {
                if running(self@, k) {
                    let j = self.sessions.place(k);
                    assert(self.sessions.row_key(j) == k);
                }
            }
            assert(seen =~= self.active());
        }
        n
    }
}

/// A session runs one thing at a time. A start succeeds exactly where the session has no run or
/// one that has ended; then the session's run is a new one that has not ended, and a second start
/// right after it is refused and changes nothing. A refused start changes nothing either, and no
/// start touches another session.
pub proof fn law_second_start_is_refused(runs: Map<Seq<char>, Run>, next: u64, id: Seq<char>)
    requires
        forall|k: Seq<char>| #[trigger] runs.dom().contains(k) ==> runs[k].number < next,
        next < u64::MAX,
    ensures
        can_start(runs, next, id) <==> (!runs.dom().contains(id) || runs[id].done),
        ({
            let after = started(runs, next, id);
            &&& can_start(runs, next, id) ==> {
                &&& running(after, id)
                &&& after[id].number == next
                &&& forall|k: Seq<char>| #[trigger]
                    runs.dom().contains(k) ==> runs[k].number != after[id].number
            }
            &&& !can_start(runs, next, id) ==> after == runs
            &&& forall|later: u64|
                !can_start(after, later, id) && #[trigger] started(after, later, id) == after
            &&& forall|k: Seq<char>|
                k != id ==> (after.dom().contains(k) <==> #[trigger] runs.dom().contains(k))
                    && after[k] == runs[k]
        }),
{
}

/// Once its run has ended, or is taken out, a session can start anew.
pub proof fn law_an_ended_run_makes_room(
    runs: Map<Seq<char>, Run>,
    next: u64,
    id: Seq<char>,
    number: u64,
)
    requires
        next < u64::MAX,
    ensures
        can_start(runs.insert(id, (Run { number, done: true })), next, id),
        can_start(runs.remove(id), next, id),
{
}

} // verus!
