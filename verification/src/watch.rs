//! Which steps of a run changed since they were last looked at.

use crate::text::same;
use crate::textmap::TextMap;
use vstd::prelude::*;

verus! {

/// What a run says of one of its steps.
pub struct StepReport {
    pub step_id: String,
    pub status: String,
    pub output: Option<String>,
    pub error: Option<String>,
}

/// The statuses behind the strings.
pub open spec fn statuses(m: Map<Seq<char>, String>) -> Map<Seq<char>, Seq<char>> {
    Map::new(|k: Seq<char>| m.dom().contains(k), |k: Seq<char>| m[k]@)
}

/// The statuses behind a look at the steps: each step has the one that was last reported.
pub open spec fn noted(seen: Map<Seq<char>, Seq<char>>, steps: Seq<StepReport>) -> Map<
    Seq<char>,
    Seq<char>,
>
    decreases steps.len(),
{
    if steps.len() == 0 {
        seen
    } else {
        noted(seen, steps.drop_last()).insert(steps.last().step_id@, steps.last().status@)
    }
}

/// Whether a status is news.
pub open spec fn is_news(seen: Map<Seq<char>, Seq<char>>, step: StepReport) -> bool {
    !seen.dom().contains(step.step_id@) || seen[step.step_id@] != step.status@
}

/// The steps whose status is news, in order.
pub open spec fn news(seen: Map<Seq<char>, Seq<char>>, steps: Seq<StepReport>) -> Seq<
    &'static StepReport,
>
    decreases steps.len(),
{
    if steps.len() == 0 {
        Seq::empty()
    } else {
        let before = news(seen, steps.drop_last());
        if is_news(noted(seen, steps.drop_last()), steps.last()) {
            before.push(&steps.last())
        } else {
            before
        }
    }
}

/// The status of each step as it was last seen.
pub struct StatusWatch {
    seen: TextMap<String>,
}

impl View for StatusWatch {
    type V = Map<Seq<char>, Seq<char>>;

    closed spec fn view(&self) -> Map<Seq<char>, Seq<char>> {
        statuses(self.seen@)
    }
}

impl StatusWatch {
    /// No step stands twice.
    pub closed spec fn wf(self) -> bool {
        self.seen.wf()
    }

    /// A watch that has seen nothing.
    pub fn new() -> (r: Self)
        ensures
            r.wf(),
            r@ == Map::<Seq<char>, Seq<char>>::empty(),
    {
        let r = StatusWatch { seen: TextMap::new() };
        assert(r@ =~= Map::<Seq<char>, Seq<char>>::empty());
        r
    }

    /// Looks at the steps: gives those whose status is news, in order.
    pub fn look<'a>(&mut self, steps: &'a Vec<StepReport>) -> (r: Vec<&'a StepReport>)
        requires
            old(self).wf(),
        ensures
            final(self).wf(),
            final(self)@ == noted(old(self)@, steps@),
            r@ == news(old(self)@, steps@),
    {
        let ghost first = self@;
        let mut out: Vec<&'a StepReport> = Vec::new();
        let mut i: usize = 0;
        assert(steps@.take(0) =~= Seq::<StepReport>::empty());
        while i < steps.len()
            invariant
                i <= steps@.len(),
                self.wf(),
                self@ == noted(first, steps@.take(i as int)),
                out@ == news(first, steps@.take(i as int)),
            decreases steps.len() - i,
        {
            assert(steps@.take(i + 1).drop_last() =~= steps@.take(i as int));
            assert(steps@.take(i + 1).last() == steps@[i as int]);
            let step: &'a StepReport = &steps[i];
            let unchanged: bool = match self.seen.get(step.step_id.as_str()) {
                Some(s) => same(s.as_str(), step.status.as_str()),
                None => false,
            };
            let ghost before = self@;
            assert(unchanged == !is_news(before, *step));
            if !unchanged {
                self.seen.insert(step.step_id.clone(), step.status.clone());
                assert(self@ =~= before.insert(step.step_id@, step.status@));
                out.push(step);
            } else {
                assert(self@ =~= before.insert(step.step_id@, step.status@));
            }
            i += 1;
        }
        assert(steps@.take(i as int) =~= steps@);
        out
    }
}

/// A second look at the same steps finds no news, where no step is reported twice.
pub proof fn law_nothing_is_news_twice(seen: Map<Seq<char>, Seq<char>>, steps: Seq<StepReport>)
    requires
        forall|i: int, j: int|
            0 <= i < j < steps.len() ==> (#[trigger] steps[i]).step_id@ != (
            #[trigger] steps[j]).step_id@,
    ensures
        news(noted(seen, steps), steps).len() == 0,
{
    lemma_noted(seen, steps);
    lemma_old_news(noted(seen, steps), steps);
}

proof fn lemma_noted(seen: Map<Seq<char>, Seq<char>>, steps: Seq<StepReport>)
    requires
        forall|i: int, j: int|
            0 <= i < j < steps.len() ==> (#[trigger] steps[i]).step_id@ != (
            #[trigger] steps[j]).step_id@,
    ensures
        forall|i: int|
            0 <= i < steps.len() ==> !is_news(noted(seen, steps), #[trigger] steps[i]),
    decreases steps.len(),
{
    if steps.len() > 0 {
        let head = steps.drop_last();
        assert forall|i: int, j: int| 0 <= i < j < head.len() implies (#[trigger] head[i]).step_id@
            != (#[trigger] head[j]).step_id@ by {
            assert(head[i] == steps[i] && head[j] == steps[j]);
        }
        lemma_noted(seen, head);
        assert forall|i: int| 0 <= i < steps.len() implies !is_news(
            noted(seen, steps),
            #[trigger] steps[i],
        ) by {
            if i < head.len() {
                assert(!is_news(noted(seen, head), head[i]));
                assert(steps[i].step_id@ != steps[steps.len() - 1].step_id@);
            }
        }
    }
}

proof fn lemma_old_news(seen: Map<Seq<char>, Seq<char>>, steps: Seq<StepReport>)
    requires
        forall|i: int| 0 <= i < steps.len() ==> !is_news(seen, #[trigger] steps[i]),
    ensures
        news(seen, steps).len() == 0,
        noted(seen, steps) == seen,
    decreases steps.len(),
{
    if steps.len() > 0 {
        let head = steps.drop_last();
        assert forall|i: int| 0 <= i < head.len() implies !is_news(seen, #[trigger] head[i]) by {
            assert(head[i] == steps[i]);
        }
        lemma_old_news(seen, head);
        assert(!is_news(seen, steps[steps.len() - 1]));
        assert(noted(seen, steps) =~= seen);
    }
}

/// A step is news where it was not seen before or has another status now, and then it is told
/// with the others, in order; a step that says what was last heard of it is not.
pub proof fn law_changed_steps_are_news(
    seen: Map<Seq<char>, Seq<char>>,
    steps: Seq<StepReport>,
    step: StepReport,
)
    ensures
        news(seen, Seq::empty()).len() == 0,
        noted(seen, Seq::empty()) == seen,
        noted(seen, steps.push(step)).dom().contains(step.step_id@),
        noted(seen, steps.push(step))[step.step_id@] == step.status@,
        !noted(seen, steps).dom().contains(step.step_id@) || noted(seen, steps)[step.step_id@]
            != step.status@ ==> news(seen, steps.push(step)) == news(seen, steps).push(&step),
        noted(seen, steps).dom().contains(step.step_id@) && noted(seen, steps)[step.step_id@]
            == step.status@ ==> news(seen, steps.push(step)) == news(seen, steps),
{
    assert(steps.push(step).drop_last() =~= steps);
}

} // verus!
