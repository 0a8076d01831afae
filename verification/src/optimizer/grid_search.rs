use crate::control::Control;
use crate::gain::{gain_full, FullGainResult, FullGainResultView, Gain, GainResult, GainResultView};
use crate::model_selection_result::ModelSelectionResult;
use crate::optimizer::optimizer::{
    all_scored, best_candidate, is_best_split, is_first_best, is_split_candidate,
    lemma_split_candidates, score_at, segment_too_small, spec_split_candidates,
    split_candidates, Optimizer, SplitError,
};
use crate::optimizer::optimizer_result::{OptimizerResult, OptimizerResultView};
use vstd::prelude::*;

verus! {

/// Scores every candidate split and takes the best.
pub struct GridSearch<T: Gain> {
    pub gain: T,
    pub control: Control,
}

/// `result` is what a grid search over `candidates` returns from the scored
/// curve `full`: the curve with its first best candidate written into it.
pub open spec fn is_grid_search_result(
    candidates: Seq<usize>,
    full: FullGainResultView,
    result: OptimizerResultView,
) -> bool {
    &&& result.start == full.start
    &&& result.stop == full.stop
    &&& is_best_split(candidates, full.gain, full.start as int, result.best_split, result.max_gain)
    &&& result.gain_results == seq![
        GainResultView::FullGainResult(
            FullGainResultView {
                best_split: Some(result.best_split),
                max_gain: Some(result.max_gain),
                ..full
            },
        ),
    ]
}

/// The result of a grid search, from the curve that scored the candidates.
///
/// Fails only where there is no candidate or `full_gain` does not score them
/// all.
pub fn grid_search_result(split_candidates: &Vec<usize>, full_gain: FullGainResult) -> (result:
    Result<OptimizerResult, SplitError>)
    ensures
        match result {
            Ok(found) => {
                &&& all_scored(split_candidates@, full_gain@.gain, full_gain.start as int)
                &&& is_grid_search_result(split_candidates@, full_gain@, found@)
            },
            Err(error) => {
                &&& error == SplitError::ClassifierFailure
                &&& split_candidates.len() == 0 || !all_scored(
                    split_candidates@,
                    full_gain@.gain,
                    full_gain.start as int,
                )
            },
        },
{
    let mut full_gain = full_gain;
    match best_candidate(full_gain.start, split_candidates, &full_gain.gain) {
        None => Err(SplitError::ClassifierFailure),
        Some((best_split, max_gain)) => {
            full_gain.max_gain = Some(max_gain);
            full_gain.best_split = Some(best_split);
            let start = full_gain.start;
            let stop = full_gain.stop;
            let mut gain_results: Vec<GainResult> = Vec::new();
            gain_results.push(GainResult::FullGainResult(full_gain));
            let found = OptimizerResult { start, stop, best_split, max_gain, gain_results };
            assert(found@.gain_results =~= seq![found.gain_results@[0]@]);
            Ok(found)
        },
    }
}

impl<T: Gain> GridSearch<T> {
    /// Vector with indices of allowed split points.
    pub fn split_candidates(&self, start: usize, stop: usize) -> (result: Result<
        Vec<usize>,
        SplitError,
    >)
        ensures
            match result {
                Ok(candidates) => {
                    &&& candidates@.len() > 0
                    &&& !segment_too_small(
                        self.control.minimal_segment_length as int,
                        start as int,
                        stop as int,
                    )
                    &&& candidates@ == spec_split_candidates(
                        self.control.minimal_segment_length as int,
                        self.control@.forbidden(),
                        start as int,
                        stop as int,
                    )
                },
                Err(SplitError::SegmentTooSmall) => segment_too_small(
                    self.control.minimal_segment_length as int,
                    start as int,
                    stop as int,
                ),
                Err(SplitError::NoCandidates) => {
                    &&& !segment_too_small(
                        self.control.minimal_segment_length as int,
                        start as int,
                        stop as int,
                    )
                    &&& spec_split_candidates(
                        self.control.minimal_segment_length as int,
                        self.control@.forbidden(),
                        start as int,
                        stop as int,
                    ).len() == 0
                },
                Err(SplitError::ClassifierFailure) => false,
            },
    {
        split_candidates(&self.control, start, stop)
    }
}

impl<T: Gain> Optimizer for GridSearch<T> {
    /// Total number of observations: what the gain answers.
    fn n(&self) -> (n: usize)
        ensures
            call_ensures(T::n, (&self.gain,), n),
    {
        self.gain.n()
    }

    fn control(&self) -> (control: &Control)
        ensures
            *control == self.control,
    {
        &self.control
    }

    /// The candidate of `[start, stop)` with the highest gain, the first one
    /// among equals, with the curve of all candidates' gains: each candidate's
    /// score is what the gain answers for it.
    fn find_best_split(&self, start: usize, stop: usize) -> (result: Result<
        OptimizerResult,
        SplitError,
    >)
        ensures
            match result {
                Ok(found) => {
                    &&& !segment_too_small(
                        self.control.minimal_segment_length as int,
                        start as int,
                        stop as int,
                    )
                    &&& found.start == start
                    &&& found.stop == stop
                    &&& found@.wf()
                    &&& is_split_candidate(
                        self.control.minimal_segment_length as int,
                        self.control@.forbidden(),
                        start as int,
                        stop as int,
                        found.best_split as int,
                    )
                    &&& found@.gain_results.len() == 1
                    &&& found@.gain_results[0] matches GainResultView::FullGainResult(full)
                    &&& full.gain.len() == stop - start
                    &&& forall|i: int|
                        0 <= i < full.gain.len() ==> ((#[trigger] full.gain[i]) is Some
                            <==> is_split_candidate(
                            self.control.minimal_segment_length as int,
                            self.control@.forbidden(),
                            start as int,
                            stop as int,
                            start + i,
                        ))
                    &&& is_grid_search_result(
                        spec_split_candidates(
                            self.control.minimal_segment_length as int,
                            self.control@.forbidden(),
                            start as int,
                            stop as int,
                        ),
                        FullGainResultView { best_split: None, max_gain: None, ..full },
                        found@,
                    )
                    &&& forall|split: usize, score: i64|
                        #![trigger call_ensures(T::gain, (&self.gain, start, stop, split), score)]
                        start <= split < stop && full.gain[split - start] == Some(score)
                            ==> call_ensures(T::gain, (&self.gain, start, stop, split), score)
                },
                Err(SplitError::SegmentTooSmall) => segment_too_small(
                    self.control.minimal_segment_length as int,
                    start as int,
                    stop as int,
                ),
                Err(SplitError::NoCandidates) => {
                    &&& !segment_too_small(
                        self.control.minimal_segment_length as int,
                        start as int,
                        stop as int,
                    )
                    &&& spec_split_candidates(
                        self.control.minimal_segment_length as int,
                        self.control@.forbidden(),
                        start as int,
                        stop as int,
                    ).len() == 0
                },
                Err(SplitError::ClassifierFailure) => false,
            },
    {
        let candidates = match split_candidates(&self.control, start, stop) {
            Ok(candidates) => candidates,
            Err(error) => {
                return Err(error);
            },
        };
        proof {
            lemma_split_candidates(
                self.control.minimal_segment_length as int,
                self.control@.forbidden(),
                start as int,
                stop as int,
            );
            assert forall|i: int| 0 <= i < candidates.len() implies start <= (
            #[trigger] candidates[i]) < stop by {
                assert(candidates@.contains(candidates[i]));
            }
        }
        let full_gain = gain_full(&self.gain, start, stop, &candidates);
        proof {
            assert forall|j: int| 0 <= j < candidates.len() implies score_at(
                full_gain@.gain,
                start as int,
                #[trigger] candidates[j] as int,
            ) is Some by {
                assert(candidates@.contains(candidates[j]));
                assert((start + (candidates[j] - start)) as usize == candidates[j]);
            }
            assert forall|i: int| 0 <= i < full_gain.gain.len() implies ((
            #[trigger] full_gain.gain[i]) is Some <==> is_split_candidate(
                self.control.minimal_segment_length as int,
                self.control@.forbidden(),
                start as int,
                stop as int,
                start + i,
            )) by {
                assert((start + i) as usize == start + i);
            }
        }
        let ghost full = full_gain@;
        match grid_search_result(&candidates, full_gain) {
            Ok(found) => {
                proof {
                    let k = choose|k: int|
                        {
                            &&& #[trigger] is_first_best(
                                candidates@,
                                full.gain,
                                start as int,
                                k,
                            )
                            &&& candidates[k] == found.best_split
                        };
                    assert(candidates@.contains(candidates[k]));
                    assert(found@.gain_results[0] matches GainResultView::FullGainResult(f) && (
                    FullGainResultView { best_split: None, max_gain: None, ..f }) == full);
                }
                Ok(found)
            },
            Err(error) => Err(error),
        }
    }

    /// Whether the split that `optimizer_result` proposes is a change point:
    /// the verdict of the gain on it.
    fn model_selection(&self, optimizer_result: &OptimizerResult) -> (verdict:
        ModelSelectionResult)
        ensures
            call_ensures(T::model_selection, (&self.gain, optimizer_result), verdict),
    {
        self.gain.model_selection(optimizer_result)
    }
}

} // verus!
