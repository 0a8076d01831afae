use crate::control::{Control, ControlView};
use crate::model_selection_result::ModelSelectionResult;
use crate::optimizer::{
    is_split_candidate, Optimizer, OptimizerResult, OptimizerResultView, SplitError,
};
use crate::random::{draw_below, seeded_rng};
use vstd::prelude::*;

verus! {

/// How auxiliary parent intervals are chosen before the recursion starts.
#[derive(Clone, Copy, Debug, PartialEq, Eq, Structural)]
pub enum SegmentationType {
    /// Plain binary segmentation: no auxiliary intervals.
    BS,
    /// Wild binary segmentation: randomly drawn intervals.
    WBS,
    /// Seeded binary segmentation: a deterministic multi-scale family.
    SBS,
}

/// The optimizer's results on the intervals looked at so far, and the means to
/// look at more.
///
/// `control` and `n` are the hyperparameters and the length of the series as
/// the optimizer gave them when the segmentation was made.
pub struct Segmentation<'a, O: Optimizer> {
    pub segments: Vec<OptimizerResult>,
    pub control: Control,
    pub n: usize,
    pub optimizer: &'a O,
}

/// `control` holds what `optimizer` answers when asked for its
/// hyperparameters.
pub open spec fn is_control_of<O: Optimizer>(optimizer: &O, control: ControlView) -> bool {
    exists|answer: &Control| #[trigger] call_ensures(O::control, (optimizer,), answer) && answer@ == control
}

/// `segment` proposes a split candidate of its own interval, which lies in a
/// series of `n` observations.
pub open spec fn is_valid_segment(control: ControlView, n: usize, segment: OptimizerResultView) -> bool {
    &&& segment.stop <= n
    &&& is_split_candidate(
        control.minimal_segment_length as int,
        control.forbidden(),
        segment.start as int,
        segment.stop as int,
        segment.best_split as int,
    )
}

/// Every one of `segments` proposes a split candidate of its own interval.
pub open spec fn all_valid_segments(
    control: ControlView,
    n: usize,
    segments: Seq<OptimizerResultView>,
) -> bool {
    forall|i: int| 0 <= i < segments.len() ==> is_valid_segment(control, n, #[trigger] segments[i])
}

/// `answer` is a split of `[start, stop)`, an interval of a series of `n`
/// observations, that is a split candidate under `control`; or it is no split.
pub open spec fn is_answer_on(
    control: ControlView,
    n: usize,
    start: usize,
    stop: usize,
    answer: Result<OptimizerResult, SplitError>,
) -> bool {
    answer matches Ok(found) ==> {
        &&& found.start == start
        &&& found.stop == stop
        &&& is_valid_segment(control, n, found@)
    }
}

/// Appends `result` to `segments` if it is a split, and says whether it is.
pub fn keep_segment(
    segments: &mut Vec<OptimizerResult>,
    result: Result<OptimizerResult, SplitError>,
) -> (kept: bool)
    ensures
        kept == (result is Ok),
        kept ==> final(segments).deep_view() == old(segments).deep_view().push(result->Ok_0@),
        !kept ==> final(segments).deep_view() == old(segments).deep_view(),
        final(segments).len() == old(segments).len() + if kept {
            1int
        } else {
            0int
        },
{
    match result {
        Err(_) => false,
        Ok(found) => {
            let ghost before = segments.deep_view();
            segments.push(found);
            assert(segments.deep_view() =~= before.push(found@));
            true
        },
    }
}

/// The interval of `segment` lies in `[start, stop)`.
pub open spec fn is_nested(segment: OptimizerResultView, start: usize, stop: usize) -> bool {
    segment.start >= start && segment.stop <= stop
}

/// `index` is where the result for `[start, stop)` is taken from, with
/// `local_gain` the gain found on the interval itself.
///
/// It is the first of the nested segments with the highest gain, if that gain
/// exceeds `local_gain`; otherwise it is `segments.len()`, which stands for
/// the result on the interval itself.
pub open spec fn is_best_nested(
    segments: Seq<OptimizerResultView>,
    start: usize,
    stop: usize,
    local_gain: i64,
    index: int,
) -> bool {
    if index == segments.len() {
        forall|i: int|
            0 <= i < segments.len() && is_nested(#[trigger] segments[i], start, stop)
                ==> segments[i].max_gain <= local_gain
    } else {
        &&& 0 <= index < segments.len()
        &&& is_nested(segments[index], start, stop)
        &&& segments[index].max_gain > local_gain
        &&& forall|i: int|
            0 <= i < segments.len() && is_nested(#[trigger] segments[i], start, stop)
                ==> segments[i].max_gain <= segments[index].max_gain
        &&& forall|i: int|
            0 <= i < index && is_nested(#[trigger] segments[i], start, stop) ==> segments[i].max_gain
                < segments[index].max_gain
    }
}

/// Where the result for `[start, stop)` is taken from: the index of the first
/// nested segment with the highest gain above `local_gain`, or
/// `segments.len()` where no nested segment has a gain above it.
pub fn best_nested(
    segments: &Vec<OptimizerResult>,
    start: usize,
    stop: usize,
    local_gain: i64,
) -> (index: usize)
    ensures
        index <= segments.len(),
        is_best_nested(segments.deep_view(), start, stop, local_gain, index as int),
{
    let mut idx_opt = segments.len();
    let mut best_gain = local_gain;
    let mut idx: usize = 0;
    let ghost views = segments.deep_view();
    while idx < segments.len()
        invariant
            idx <= segments.len(),
            views == segments.deep_view(),
            views.len() == segments.len(),
            best_gain >= local_gain,
            idx_opt == segments.len() || idx_opt < idx,
            idx_opt == segments.len() ==> best_gain == local_gain,
            idx_opt < segments.len() ==> {
                &&& is_nested(views[idx_opt as int], start, stop)
                &&& views[idx_opt as int].max_gain == best_gain
                &&& best_gain > local_gain
            },
            forall|i: int|
                0 <= i < idx && is_nested(#[trigger] views[i], start, stop) ==> views[i].max_gain
                    <= best_gain,
            forall|i: int|
                0 <= i < idx_opt && i < idx && is_nested(#[trigger] views[i], start, stop)
                    ==> views[i].max_gain < best_gain || idx_opt == segments.len(),
        decreases segments.len() - idx,
    {
        let current = &segments[idx];
        assert(views[idx as int] == current@);
        if current.start >= start && current.stop <= stop && current.max_gain > best_gain {
            best_gain = current.max_gain;
            idx_opt = idx;
        }
        idx += 1;
    }
    idx_opt
}

/// `found` is the result for `[start, stop)` once the result on the interval
/// itself has been appended to `before`, which gives `after`.
pub open spec fn is_selection(
    before: Seq<OptimizerResultView>,
    after: Seq<OptimizerResultView>,
    start: usize,
    stop: usize,
    found: OptimizerResultView,
) -> bool {
    &&& after.len() == before.len() + 1
    &&& after.drop_last() == before
    &&& after.last().start == start
    &&& after.last().stop == stop
    &&& exists|index: int|
        {
            &&& #[trigger] is_best_nested(before, start, stop, after.last().max_gain, index)
            &&& 0 <= index < after.len()
            &&& found == after[index]
        }
}

/// `result` is the answer for `[start, stop)` that comes of the optimizer's
/// answer `local` on the interval itself, the segments going from `before` to
/// `after`.
///
/// An error of the optimizer is handed on, and the segments stay as they are.
/// A split is appended to the segments, and the result is the best nested
/// segment, or the split itself where no nested segment has a higher gain.
pub open spec fn is_select_outcome(
    before: Seq<OptimizerResultView>,
    after: Seq<OptimizerResultView>,
    start: usize,
    stop: usize,
    local: Result<OptimizerResult, SplitError>,
    result: Result<OptimizerResult, SplitError>,
) -> bool {
    match local {
        Ok(found) => {
            &&& after == before.push(found@)
            &&& result matches Ok(chosen)
            &&& is_selection(before, after, start, stop, chosen@)
        },
        Err(error) => {
            &&& after == before
            &&& result == Err::<OptimizerResult, SplitError>(error)
        },
    }
}

/// The optimizer is asked about an interval only if it is a non-empty
/// interval of the series.
pub open spec fn is_asked(interval: (usize, usize), n: usize) -> bool {
    interval.0 < interval.1 <= n
}

/// `answers` holds, for each of `intervals` that the optimizer is asked
/// about, an answer of the optimizer on it.
pub open spec fn are_answers<O: Optimizer>(
    optimizer: &O,
    intervals: Seq<(usize, usize)>,
    answers: Seq<Result<OptimizerResult, SplitError>>,
    n: usize,
) -> bool {
    &&& answers.len() == intervals.len()
    &&& forall|k: int|
        0 <= k < intervals.len() && is_asked(intervals[k], n) ==> call_ensures(
            O::find_best_split,
            (optimizer, intervals[k].0, intervals[k].1),
            #[trigger] answers[k],
        )
}

/// The segments that are kept of `answers` on `intervals`: every split that
/// was answered on an interval that the optimizer is asked about, in the
/// order of the intervals.
pub open spec fn spec_kept(
    intervals: Seq<(usize, usize)>,
    answers: Seq<Result<OptimizerResult, SplitError>>,
    n: usize,
) -> Seq<OptimizerResultView>
    decreases intervals.len(),
{
    if intervals.len() == 0 || answers.len() == 0 {
        Seq::empty()
    } else {
        let rest = spec_kept(intervals.drop_last(), answers.drop_last(), n);
        if is_asked(intervals.last(), n) && answers.last() is Ok {
            rest.push(answers.last()->Ok_0@)
        } else {
            rest
        }
    }
}

/// The splits that the optimizer answers on those of `intervals` that are
/// non-empty intervals of the series, in the order of the intervals.
pub fn seeded_segments<O: Optimizer>(
    optimizer: &O,
    control: &Control,
    n: usize,
    intervals: &Vec<(usize, usize)>,
) -> (segments: Vec<OptimizerResult>)
    ensures
        exists|answers: Seq<Result<OptimizerResult, SplitError>>|
            {
                &&& #[trigger] are_answers(optimizer, intervals@, answers, n)
                &&& segments.deep_view() == spec_kept(intervals@, answers, n)
            },
        is_control_of(optimizer, control@) ==> all_valid_segments(control@, n, segments.deep_view()),
{
    let mut segments: Vec<OptimizerResult> = Vec::new();
    let ghost mut answers: Seq<Result<OptimizerResult, SplitError>> = Seq::empty();
    let mut k: usize = 0;
    assert(segments.deep_view() =~= Seq::empty());
    assert(intervals@.take(0) =~= Seq::empty());
    while k < intervals.len()
        invariant
            k <= intervals.len(),
            are_answers(optimizer, intervals@.take(k as int), answers, n),
            segments.deep_view() == spec_kept(intervals@.take(k as int), answers, n),
            is_control_of(optimizer, control@) ==> all_valid_segments(
                control@,
                n,
                segments.deep_view(),
            ),
        decreases intervals.len() - k,
    {
        let (start, stop) = intervals[k];
        let ghost seen = intervals@.take(k as int);
        let ghost before = answers;
        if start < stop && stop <= n {
            let result = optimizer.find_best_split(start, stop);
            proof {
                answers = answers.push(result);
                if is_control_of(optimizer, control@) {
                    let held = choose|held: &Control| #[trigger]
                        call_ensures(O::control, (optimizer,), held) && held@ == control@;
                    assert(held.minimal_segment_length == control.minimal_segment_length);
                    assert(is_answer_on(control@, n, start, stop, result));
                }
            }
            keep_segment(&mut segments, result);
        } else {
            proof {
                answers = answers.push(Err(SplitError::SegmentTooSmall));
            }
        }
        proof {
            let next = intervals@.take(k + 1);
            assert(next.drop_last() =~= seen);
            assert(next.last() == (start, stop));
            assert(answers.drop_last() =~= before);
            assert forall|j: int| 0 <= j < next.len() && is_asked(next[j], n) implies call_ensures(
                O::find_best_split,
                (optimizer, next[j].0, next[j].1),
                #[trigger] answers[j],
            ) by {
                if j < k {
                    assert(next[j] == seen[j]);
                    assert(answers[j] == before[j]);
                }
            }
        }
        k += 1;
    }
    assert(intervals@.take(intervals.len() as int) =~= intervals@);
    segments
}

/// `segments` are what wild binary segmentation keeps of `draws` pairs drawn
/// from a series of `n` observations.
///
/// Both ends of each pair lie in `0..=n`. The optimizer is asked about each
/// pair that is a non-empty interval, and every split that it answers is
/// kept. Drawing stops when `number_of_wild_segments` splits are kept. Nothing
/// is drawn where no interval of the series has room for a split.
pub open spec fn is_wild_run<O: Optimizer>(
    optimizer: &O,
    control: ControlView,
    n: usize,
    segments: Seq<OptimizerResultView>,
    draws: usize,
) -> bool {
    &&& exists|pairs: Seq<(usize, usize)>, answers: Seq<Result<OptimizerResult, SplitError>>|
        {
            &&& #[trigger] are_answers(optimizer, pairs, answers, n)
            &&& pairs.len() == draws
            &&& forall|k: int|
                0 <= k < pairs.len() ==> (#[trigger] pairs[k]).0 <= n && pairs[k].1 <= n
            &&& segments == spec_kept(pairs, answers, n)
        }
    &&& segments.len() <= control.number_of_wild_segments
    &&& 2 * control.minimal_segment_length >= n ==> segments.len() == 0 && draws == 0
    &&& segments.len() == control.number_of_wild_segments || draws == usize::MAX || 2
        * control.minimal_segment_length >= n || n == usize::MAX
}

/// The splits that the optimizer answers on intervals drawn at random from
/// the series, and the number of pairs drawn.
pub fn wild_segments<O: Optimizer>(optimizer: &O, control: &Control, n: usize) -> (drawn: (
    Vec<OptimizerResult>,
    usize,
))
    ensures
        is_wild_run(optimizer, control@, n, drawn.0.deep_view(), drawn.1),
        is_control_of(optimizer, control@) ==> all_valid_segments(control@, n, drawn.0.deep_view()),
{
    let mut segments: Vec<OptimizerResult> = Vec::new();
    let mut draws: usize = 0;
    let ghost mut pairs: Seq<(usize, usize)> = Seq::empty();
    let ghost mut answers: Seq<Result<OptimizerResult, SplitError>> = Seq::empty();
    assert(segments.deep_view() =~= Seq::empty());
    if control.minimal_segment_length >= n - n / 2 || n == usize::MAX {
        assert(are_answers(optimizer, pairs, answers, n));
        return (segments, draws);
    }
    let mut rng = seeded_rng(control.seed);
    while segments.len() < control.number_of_wild_segments && draws < usize::MAX
        invariant
            n < usize::MAX,
            segments.len() <= control.number_of_wild_segments,
            are_answers(optimizer, pairs, answers, n),
            pairs.len() == draws,
            forall|k: int| 0 <= k < pairs.len() ==> (#[trigger] pairs[k]).0 <= n && pairs[k].1 <= n,
            segments.deep_view() == spec_kept(pairs, answers, n),
            segments.deep_view().len() == segments.len(),
            is_control_of(optimizer, control@) ==> all_valid_segments(
                control@,
                n,
                segments.deep_view(),
            ),
        decreases usize::MAX - draws,
    {
        let start = draw_below(&mut rng, n + 1);
        let stop = draw_below(&mut rng, n + 1);
        draws += 1;
        let ghost pairs_before = pairs;
        let ghost answers_before = answers;
        proof {
            pairs = pairs.push((start, stop));
        }
        if start < stop {
            let result = optimizer.find_best_split(start, stop);
            proof {
                answers = answers.push(result);
                if is_control_of(optimizer, control@) {
                    let held = choose|held: &Control| #[trigger]
                        call_ensures(O::control, (optimizer,), held) && held@ == control@;
                    assert(held.minimal_segment_length == control.minimal_segment_length);
                    assert(is_answer_on(control@, n, start, stop, result));
                }
            }
            keep_segment(&mut segments, result);
        } else {
            proof {
                answers = answers.push(Err(SplitError::SegmentTooSmall));
            }
        }
        proof {
            assert(pairs.drop_last() =~= pairs_before);
            assert(answers.drop_last() =~= answers_before);
            assert forall|j: int| 0 <= j < pairs.len() && is_asked(pairs[j], n) implies call_ensures(
                O::find_best_split,
                (optimizer, pairs[j].0, pairs[j].1),
                #[trigger] answers[j],
            ) by {
                if j < pairs_before.len() {
                    assert(pairs[j] == pairs_before[j]);
                    assert(answers[j] == answers_before[j]);
                }
            }
        }
    }
    (segments, draws)
}

/// `segments` are the auxiliary segments of `segmentation_type`: none for
/// plain binary segmentation, what the optimizer answers on the seeded
/// intervals for seeded binary segmentation, and what it answers on pairs
/// drawn at random for wild binary segmentation.
pub open spec fn are_auxiliary_segments<O: Optimizer>(
    segmentation_type: SegmentationType,
    optimizer: &O,
    control: ControlView,
    n: usize,
    segments: Seq<OptimizerResultView>,
) -> bool {
    match segmentation_type {
        SegmentationType::BS => segments.len() == 0,
        SegmentationType::SBS => exists|answers: Seq<Result<OptimizerResult, SplitError>>|
            {
                &&& #[trigger] are_answers(optimizer, control.seeded_segments, answers, n)
                &&& segments == spec_kept(control.seeded_segments, answers, n)
            },
        SegmentationType::WBS => exists|draws: usize| #[trigger]
            is_wild_run(optimizer, control, n, segments, draws),
    }
}

impl<'a, O: Optimizer> Segmentation<'a, O> {
    /// The hyperparameters are the optimizer's, and every stored segment
    /// proposes a split candidate of its own interval under them.
    pub open spec fn wf(&self) -> bool {
        &&& is_control_of(self.optimizer, self.control@)
        &&& all_valid_segments(self.control@, self.n, self.segments.deep_view())
    }

    /// A segmentation with the auxiliary segments of `segmentation_type`,
    /// scored by `optimizer`, for the length of the series and under the
    /// hyperparameters that the optimizer answers.
    pub fn new(segmentation_type: SegmentationType, optimizer: &'a O) -> (segmentation: Self)
        ensures
            segmentation.wf(),
            segmentation.optimizer == optimizer,
            call_ensures(O::n, (optimizer,), segmentation.n),
            are_auxiliary_segments(
                segmentation_type,
                optimizer,
                segmentation.control@,
                segmentation.n,
                segmentation.segments.deep_view(),
            ),
    {
        let control = optimizer.control().clone();
        let n = optimizer.n();
        let segments = Self::get_segments(optimizer, segmentation_type, &control, n);
        Segmentation { segments, control, n, optimizer }
    }

    fn get_segments(
        optimizer: &O,
        segmentation_type: SegmentationType,
        control: &Control,
        n: usize,
    ) -> (segments: Vec<OptimizerResult>)
        ensures
            are_auxiliary_segments(segmentation_type, optimizer, control@, n, segments.deep_view()),
            is_control_of(optimizer, control@) ==> all_valid_segments(
                control@,
                n,
                segments.deep_view(),
            ),
    {
        match segmentation_type {
            SegmentationType::BS => {
                let segments: Vec<OptimizerResult> = Vec::new();
                assert(segments.deep_view() =~= Seq::empty());
                segments
            },
            SegmentationType::SBS => {
                let segments = seeded_segments(optimizer, control, n, &control.seeded_segments);
                proof {
                    let answers = choose|answers: Seq<Result<OptimizerResult, SplitError>>|
                        {
                            &&& #[trigger] are_answers(
                                optimizer,
                                control.seeded_segments@,
                                answers,
                                n,
                            )
                            &&& segments.deep_view() == spec_kept(
                                control.seeded_segments@,
                                answers,
                                n,
                            )
                        };
                    assert(control@.seeded_segments == control.seeded_segments@);
                    assert(are_answers(optimizer, control@.seeded_segments, answers, n));
                }
                assert(are_auxiliary_segments(
                    segmentation_type,
                    optimizer,
                    control@,
                    n,
                    segments.deep_view(),
                ));
                segments
            },
            SegmentationType::WBS => {
                let drawn = wild_segments(optimizer, control, n);
                assert(is_wild_run(optimizer, control@, n, drawn.0.deep_view(), drawn.1));
                drawn.0
            },
        }
    }

    /// The best split for `[start, stop)`: the optimizer's on the interval
    /// itself, or that of a segment inside the interval with a higher gain.
    ///
    /// The optimizer's split of the interval is appended to `segments` in
    /// either case; where the optimizer fails, nothing is appended. The answer
    /// is what `select` makes of what the optimizer answers on the interval.
    pub fn find_best_split(&mut self, start: usize, stop: usize) -> (result: Result<
        OptimizerResult,
        SplitError,
    >)
        requires
            old(self).wf(),
            start <= stop <= old(self).n,
        ensures
            final(self).wf(),
            final(self).control == old(self).control,
            final(self).n == old(self).n,
            final(self).optimizer == old(self).optimizer,
            result matches Ok(found) ==> is_nested(found@, start, stop) && is_valid_segment(
                final(self).control@,
                final(self).n,
                found@,
            ),
            exists|local: Result<OptimizerResult, SplitError>|
                {
                    &&& call_ensures(O::find_best_split, (old(self).optimizer, start, stop), local)
                    &&& #[trigger] is_select_outcome(
                        old(self).segments.deep_view(),
                        final(self).segments.deep_view(),
                        start,
                        stop,
                        local,
                        result,
                    )
                },
    {
        let local = self.optimizer.find_best_split(start, stop);
        let ghost answer = local;
        proof {
            let held = choose|held: &Control| #[trigger]
                call_ensures(O::control, (self.optimizer,), held) && held@ == self.control@;
            assert(held.minimal_segment_length == self.control.minimal_segment_length);
            assert(is_answer_on(self.control@, self.n, start, stop, local));
        }
        let result = self.select(start, stop, local);
        assert(is_select_outcome(
            old(self).segments.deep_view(),
            self.segments.deep_view(),
            start,
            stop,
            answer,
            result,
        ));
        result
    }

    /// The best split for `[start, stop)`, given the optimizer's answer
    /// `local` on the interval itself.
    ///
    /// An error of the optimizer is handed on. A split is appended to
    /// `segments`, and the answer is a copy of the best nested segment, or of
    /// the split itself where no nested segment has a higher gain.
    pub fn select(
        &mut self,
        start: usize,
        stop: usize,
        local: Result<OptimizerResult, SplitError>,
    ) -> (result: Result<OptimizerResult, SplitError>)
        requires
            old(self).wf(),
            is_answer_on(old(self).control@, old(self).n, start, stop, local),
        ensures
            final(self).wf(),
            final(self).control == old(self).control,
            final(self).n == old(self).n,
            final(self).optimizer == old(self).optimizer,
            is_select_outcome(
                old(self).segments.deep_view(),
                final(self).segments.deep_view(),
                start,
                stop,
                local,
                result,
            ),
            result matches Ok(found) ==> is_nested(found@, start, stop) && is_valid_segment(
                final(self).control@,
                final(self).n,
                found@,
            ),
    {
        let local_gain = match &local {
            Ok(found) => found.max_gain,
            Err(error) => {
                return Err(*error);
            },
        };
        let idx_opt = best_nested(&self.segments, start, stop, local_gain);
        let ghost before = self.segments.deep_view();
        keep_segment(&mut self.segments, local);
        let ghost after = self.segments.deep_view();
        let found = self.segments[idx_opt].clone();
        proof {
            assert(after.drop_last() =~= before);
            assert(found@ == after[idx_opt as int]);
            assert(is_best_nested(before, start, stop, after.last().max_gain, idx_opt as int));
            if idx_opt < before.len() {
                assert(after[idx_opt as int] == before[idx_opt as int]);
            }
        }
        Ok(found)
    }

    /// Whether the split that `optimizer_result` proposes is a change point:
    /// the verdict of the optimizer on it.
    pub fn model_selection(&self, optimizer_result: &OptimizerResult) -> (verdict:
        ModelSelectionResult)
        ensures
            call_ensures(O::model_selection, (self.optimizer, optimizer_result), verdict),
    {
        self.optimizer.model_selection(optimizer_result)
    }
}

} // verus!
