use crate::control::Control;
use crate::model_selection_result::ModelSelectionResult;
use crate::optimizer::optimizer_result::OptimizerResult;
use vstd::prelude::*;

verus! {

/// Why no split of an interval is proposed.
#[derive(Clone, Copy, Debug, PartialEq, Eq, Structural)]
pub enum SplitError {
    /// The interval has no room for two segments of the minimal length.
    SegmentTooSmall,
    /// Every position with enough room lies in a forbidden interval.
    NoCandidates,
    /// The gain answered a fit that is not of the interval and the guess it
    /// was asked about, or that leaves a split candidate without a score.
    ClassifierFailure,
}

impl SplitError {
    /// The sentence that reports the error.
    pub fn message(&self) -> (message: &'static str)
        ensures
            message@ == match *self {
                SplitError::SegmentTooSmall => "Segment too small."@,
                SplitError::NoCandidates =>
                    "No split_candidates left after filtering out forbidden_segments."@,
                SplitError::ClassifierFailure => "The gain did not describe a split."@,
            },
    {
        match self {
            SplitError::SegmentTooSmall => "Segment too small.",
            SplitError::NoCandidates =>
                "No split_candidates left after filtering out forbidden_segments.",
            SplitError::ClassifierFailure => "The gain did not describe a split.",
        }
    }
}

/// A search for the best split of an interval of the series.
pub trait Optimizer {
    /// The best split of `[start, stop)`, or why there is none.
    ///
    /// A split that is found is of the interval asked about, and it is one of
    /// the interval's split candidates under the optimizer's hyperparameters.
    fn find_best_split(&self, start: usize, stop: usize) -> (result: Result<
        OptimizerResult,
        SplitError,
    >)
        requires
            start <= stop,
        ensures
            result matches Ok(found) ==> {
                &&& found.start == start
                &&& found.stop == stop
                &&& forall|control: &Control|
                    #![trigger call_ensures(Self::control, (self,), control)]
                    call_ensures(Self::control, (self,), control) ==> is_split_candidate(
                        control.minimal_segment_length as int,
                        control@.forbidden(),
                        start as int,
                        stop as int,
                        found.best_split as int,
                    )
            },
    ;

    /// Whether the split that `optimizer_result` proposes is a change point.
    fn model_selection(&self, optimizer_result: &OptimizerResult) -> ModelSelectionResult;

    /// Total number of observations.
    fn n(&self) -> usize;

    /// The hyperparameters of the run.
    fn control(&self) -> &Control;
}

/// `x` lies in one of the forbidden intervals: `a < x <= b` for some `(a, b)`.
pub open spec fn is_forbidden(forbidden: Seq<(usize, usize)>, x: int) -> bool {
    exists|k: int| 0 <= k < forbidden.len() && (#[trigger] forbidden[k]).0 < x <= forbidden[k].1
}

/// `[start, stop)` has no room for two segments of `delta` observations.
pub open spec fn segment_too_small(delta: int, start: int, stop: int) -> bool {
    2 * delta >= stop - start
}

/// `x` may split `[start, stop)`: it leaves `delta` observations on its left,
/// and at least one, more than `delta` on its right, and is not forbidden.
pub open spec fn is_split_candidate(
    delta: int,
    forbidden: Seq<(usize, usize)>,
    start: int,
    stop: int,
    x: int,
) -> bool {
    &&& start + delta <= x < stop - delta
    &&& start < x
    &&& !is_forbidden(forbidden, x)
}

/// The least position that leaves `delta` observations, and at least one, on
/// its left.
pub open spec fn first_position(delta: int, start: int) -> int {
    if delta <= 0 {
        start + 1
    } else {
        start + delta
    }
}

/// The positions `first, first + 1, ..., bound - 1`.
pub open spec fn positions(first: int, bound: int) -> Seq<usize> {
    if bound <= first {
        Seq::empty()
    } else {
        Seq::new((bound - first) as nat, |i: int| (first + i) as usize)
    }
}

/// The candidate splits of `[start, stop)`, in increasing order.
pub open spec fn spec_split_candidates(
    delta: int,
    forbidden: Seq<(usize, usize)>,
    start: int,
    stop: int,
) -> Seq<usize> {
    positions(first_position(delta, start), stop - delta).filter(
        |x: usize| !is_forbidden(forbidden, x as int),
    )
}

/// Whether `x` lies in one of the forbidden intervals.
pub fn in_forbidden_segment(forbidden: &Vec<(usize, usize)>, x: usize) -> (inside: bool)
    ensures
        inside == is_forbidden(forbidden@, x as int),
{
    let mut k: usize = 0;
    while k < forbidden.len()
        invariant
            k <= forbidden.len(),
            forall|j: int| 0 <= j < k ==> !((#[trigger] forbidden@[j]).0 < x <= forbidden@[j].1),
        decreases forbidden.len() - k,
    {
        if forbidden[k].0 < x && x <= forbidden[k].1 {
            return true;
        }
        k += 1;
    }
    false
}

/// The candidates are exactly the positions that may split the interval, and
/// they come in strictly increasing order.
pub proof fn lemma_split_candidates(
    delta: int,
    forbidden: Seq<(usize, usize)>,
    start: int,
    stop: int,
)
    requires
        0 <= delta,
        0 <= start,
        stop <= usize::MAX,
    ensures
        forall|x: usize|
            #![trigger spec_split_candidates(delta, forbidden, start, stop).contains(x)]
            #![trigger is_split_candidate(delta, forbidden, start, stop, x as int)]
            spec_split_candidates(delta, forbidden, start, stop).contains(x) <==> is_split_candidate(
                delta,
                forbidden,
                start,
                stop,
                x as int,
            ),
        forall|i: int, j: int|
            0 <= i < j < spec_split_candidates(delta, forbidden, start, stop).len()
                ==> spec_split_candidates(delta, forbidden, start, stop)[i]
                < spec_split_candidates(delta, forbidden, start, stop)[j],
    decreases stop - delta - first_position(delta, start),
{
    let first = first_position(delta, start);
    let bound = stop - delta;
    let pred = |x: usize| !is_forbidden(forbidden, x as int);
    let all = positions(first, bound);
    let out = all.filter(pred);
    reveal(Seq::filter);
    if bound <= first {
        assert(out.len() == 0);
    } else {
        lemma_split_candidates(delta, forbidden, start, stop - 1);
        let before = positions(first, bound - 1);
        assert(all.drop_last() =~= before);
        assert(all.last() == (bound - 1) as usize);
        let rest = before.filter(pred);
        assert(rest == spec_split_candidates(delta, forbidden, start, stop - 1));
        if pred(all.last()) {
            assert(out == rest.push(all.last()));
        } else {
            assert(out == rest);
        }
        assert forall|x: usize| out.contains(x) implies is_split_candidate(
            delta,
            forbidden,
            start,
            stop,
            x as int,
        ) by {
            let i = choose|i: int| 0 <= i < out.len() && out[i] == x;
            if i < rest.len() {
                assert(rest[i] == x);
                assert(rest.contains(x));
                assert(is_split_candidate(delta, forbidden, start, stop - 1, x as int));
            }
        }
        assert forall|x: usize|
            is_split_candidate(delta, forbidden, start, stop, x as int) implies out.contains(
            x,
        ) by {
            if x < bound - 1 {
                assert(is_split_candidate(delta, forbidden, start, stop - 1, x as int));
                assert(rest.contains(x));
                let i = choose|i: int| 0 <= i < rest.len() && rest[i] == x;
                assert(out[i] == x);
            } else {
                assert(out[out.len() - 1] == x);
            }
        }
        assert forall|i: int, j: int| 0 <= i < j < out.len() implies out[i] < out[j] by {
            if j == rest.len() {
                assert(rest.contains(rest[i]));
                assert(is_split_candidate(delta, forbidden, start, stop - 1, rest[i] as int));
            }
        }
    }
}

/// The candidate splits of `[start, stop)` under `control`.
///
/// A candidate `x` has `start + delta <= x < stop - delta`, with `delta` the
/// minimal segment length, and lies in no forbidden interval.
pub fn split_candidates(control: &Control, start: usize, stop: usize) -> (result: Result<
    Vec<usize>,
    SplitError,
>)
    ensures
        match result {
            Ok(candidates) => {
                &&& !segment_too_small(control.minimal_segment_length as int, start as int, stop as int)
                &&& candidates@.len() > 0
                &&& candidates@ == spec_split_candidates(
                    control.minimal_segment_length as int,
                    control@.forbidden(),
                    start as int,
                    stop as int,
                )
                &&& forall|i: int|
                    0 <= i < candidates.len() ==> {
                        &&& (#[trigger] candidates[i]) - start >= control.minimal_segment_length
                        &&& stop - candidates[i] >= control.minimal_segment_length
                    }
                &&& forall|i: int, j: int|
                    0 <= i < j < candidates.len() ==> candidates[i] < candidates[j]
            },
            Err(SplitError::SegmentTooSmall) => segment_too_small(
                control.minimal_segment_length as int,
                start as int,
                stop as int,
            ),
            Err(SplitError::NoCandidates) => {
                &&& !segment_too_small(control.minimal_segment_length as int, start as int, stop as int)
                &&& spec_split_candidates(
                    control.minimal_segment_length as int,
                    control@.forbidden(),
                    start as int,
                    stop as int,
                ).len() == 0
            },
            Err(SplitError::ClassifierFailure) => false,
        },
{
    let delta = control.minimal_segment_length;
    if stop <= start {
        return Err(SplitError::SegmentTooSmall);
    }
    let length = stop - start;
    if delta >= length - length / 2 {
        return Err(SplitError::SegmentTooSmall);
    }
    let first = if delta == 0 {
        start + 1
    } else {
        start + delta
    };
    let bound = stop - delta;
    let ghost forbidden = control@.forbidden();
    let ghost pred = |x: usize| !is_forbidden(forbidden, x as int);
    let mut candidates: Vec<usize> = Vec::new();
    let mut x = first;
    proof {
        reveal(Seq::filter);
        assert(positions(first as int, first as int).len() == 0);
    }
    while x < bound
        invariant
            first <= x <= bound,
            forbidden == control@.forbidden(),
            pred == |x: usize| !is_forbidden(forbidden, x as int),
            candidates@ == positions(first as int, x as int).filter(pred),
        decreases bound - x,
    {
        let keep = match &control.forbidden_segments {
            Some(segments) => !in_forbidden_segment(segments, x),
            None => true,
        };
        proof {
            reveal(Seq::filter);
            let next = positions(first as int, x + 1);
            assert(next.drop_last() =~= positions(first as int, x as int));
            assert(next.last() == x);
            assert(keep == pred(x));
        }
        if keep {
            candidates.push(x);
        }
        x += 1;
    }
    proof {
        lemma_split_candidates(delta as int, forbidden, start as int, stop as int);
        assert forall|i: int| 0 <= i < candidates.len() implies {
            &&& (#[trigger] candidates[i]) - start >= delta
            &&& stop - candidates[i] >= delta
        } by {
            assert(candidates@.contains(candidates[i]));
            assert(is_split_candidate(
                delta as int,
                forbidden,
                start as int,
                stop as int,
                candidates[i] as int,
            ));
        }
    }
    if candidates.len() == 0 {
        Err(SplitError::NoCandidates)
    } else {
        Ok(candidates)
    }
}

/// The score of a split at `split` on a gain curve that begins at `start`.
pub open spec fn score_at(gain: Seq<Option<i64>>, start: int, split: int) -> Option<i64> {
    if 0 <= split - start < gain.len() {
        gain[split - start]
    } else {
        None
    }
}

/// The curve scores every candidate.
pub open spec fn all_scored(candidates: Seq<usize>, gain: Seq<Option<i64>>, start: int) -> bool {
    forall|j: int|
        0 <= j < candidates.len() ==> score_at(gain, start, #[trigger] candidates[j] as int) is Some
}

/// `candidates[k]` has the highest score, and no candidate before it reaches
/// that score: among equal scores the first wins.
pub open spec fn is_first_best(
    candidates: Seq<usize>,
    gain: Seq<Option<i64>>,
    start: int,
    k: int,
) -> bool {
    &&& 0 <= k < candidates.len()
    &&& forall|j: int|
        0 <= j < candidates.len() ==> score_at(gain, start, #[trigger] candidates[j] as int)->0
            <= score_at(gain, start, candidates[k] as int)->0
    &&& forall|j: int|
        0 <= j < k ==> score_at(gain, start, #[trigger] candidates[j] as int)->0 < score_at(
            gain,
            start,
            candidates[k] as int,
        )->0
}

/// `best_split` with `max_gain` is the first best candidate of the curve.
pub open spec fn is_best_split(
    candidates: Seq<usize>,
    gain: Seq<Option<i64>>,
    start: int,
    best_split: usize,
    max_gain: i64,
) -> bool {
    exists|k: int|
        {
            &&& #[trigger] is_first_best(candidates, gain, start, k)
            &&& candidates[k] == best_split
            &&& score_at(gain, start, best_split as int) == Some(max_gain)
        }
}

/// The candidate with the highest score on `gain`, the first one among equals,
/// together with its score; `None` where there is no candidate or a candidate
/// has no score.
pub fn best_candidate(start: usize, split_candidates: &Vec<usize>, gain: &Vec<Option<i64>>) -> (best:
    Option<(usize, i64)>)
    ensures
        match best {
            Some((best_split, max_gain)) => {
                &&& all_scored(split_candidates@, gain@, start as int)
                &&& is_best_split(split_candidates@, gain@, start as int, best_split, max_gain)
            },
            None => split_candidates.len() == 0 || !all_scored(
                split_candidates@,
                gain@,
                start as int,
            ),
        },
{
    if split_candidates.len() == 0 {
        return None;
    }
    let mut best_index: usize = 0;
    let mut best_split: usize = split_candidates[0];
    let mut max_gain: i64 = 0;
    let mut j: usize = 0;
    while j < split_candidates.len()
        invariant
            j <= split_candidates.len(),
            split_candidates.len() > 0,
            forall|i: int|
                0 <= i < j ==> score_at(gain@, start as int, #[trigger] split_candidates[i] as int) is Some,
            j > 0 ==> {
                &&& best_index < j
                &&& best_split == split_candidates[best_index as int]
                &&& score_at(gain@, start as int, best_split as int) == Some(max_gain)
                &&& forall|i: int|
                    0 <= i < j ==> score_at(
                        gain@,
                        start as int,
                        #[trigger] split_candidates[i] as int,
                    )->0 <= max_gain
                &&& forall|i: int|
                    0 <= i < best_index ==> score_at(
                        gain@,
                        start as int,
                        #[trigger] split_candidates[i] as int,
                    )->0 < max_gain
            },
        decreases split_candidates.len() - j,
    {
        let index = split_candidates[j];
        if index < start || index - start >= gain.len() {
            assert(score_at(gain@, start as int, split_candidates[j as int] as int) is None);
            return None;
        }
        match gain[index - start] {
            None => {
                assert(score_at(gain@, start as int, split_candidates[j as int] as int) is None);
                return None;
            },
            Some(score) => {
                if j == 0 || score > max_gain {
                    best_index = j;
                    best_split = index;
                    max_gain = score;
                }
            },
        }
        j += 1;
    }
    assert(is_first_best(split_candidates@, gain@, start as int, best_index as int));
    Some((best_split, max_gain))
}

} // verus!
