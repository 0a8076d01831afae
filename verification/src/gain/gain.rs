use crate::gain::gain_result::{ApproxGainResult, FullGainResult};
use crate::model_selection_result::ModelSelectionResult;
use crate::optimizer::OptimizerResult;
use vstd::prelude::*;

verus! {

/// A score for the splits of an interval: higher is better.
///
/// Scores are integers, and only their order matters to the search.
pub trait Gain {
    /// Total number of observations.
    fn n(&self) -> usize;

    /// Gain when splitting segment `[start, stop)` at `split`.
    fn gain(&self, start: usize, stop: usize, split: usize) -> i64
        requires
            start <= split <= stop,
    ;

    /// Whether the split that `optimizer_result` proposes is a change point.
    fn model_selection(&self, optimizer_result: &OptimizerResult) -> ModelSelectionResult;
}

/// A gain that can score every split of an interval from one fit at `guess`.
pub trait ApproxGain {
    /// An approximation of the gain of each split of `[start, stop)`, made from
    /// a single fit with a split at `guess`.
    fn gain_approx(
        &self,
        start: usize,
        stop: usize,
        guess: usize,
        split_points: &Vec<usize>,
    ) -> ApproxGainResult
        requires
            start <= guess <= stop,
            forall|i: int|
                0 <= i < split_points.len() ==> start <= (#[trigger] split_points[i]) <= stop,
    ;
}

/// Gain when splitting segment `[start, stop)` at each point of
/// `split_candidates`.
///
/// The result scores the offsets of the candidates and no other, each with
/// what the gain answers for the split.
pub fn gain_full<T: Gain>(
    gain: &T,
    start: usize,
    stop: usize,
    split_candidates: &Vec<usize>,
) -> (result: FullGainResult)
    requires
        start <= stop,
        forall|i: int|
            0 <= i < split_candidates.len() ==> start <= (#[trigger] split_candidates[i]) < stop,
    ensures
        result.start == start,
        result.stop == stop,
        result.max_gain is None,
        result.best_split is None,
        result.gain.len() == stop - start,
        forall|i: int|
            0 <= i < result.gain.len() ==> ((#[trigger] result.gain[i]) is Some
                <==> split_candidates@.contains((start + i) as usize)),
        forall|split: usize, score: i64|
            #![trigger call_ensures(T::gain, (gain, start, stop, split), score)]
            start <= split < stop && result.gain[split - start] == Some(score) ==> call_ensures(
                T::gain,
                (gain, start, stop, split),
                score,
            ),
{
    let length = stop - start;
    let mut values: Vec<Option<i64>> = Vec::new();
    let mut i: usize = 0;
    while i < length
        invariant
            i <= length,
            values.len() == i,
            forall|j: int| 0 <= j < i ==> (#[trigger] values[j]) is None,
        decreases length - i,
    {
        values.push(None);
        i += 1;
    }
    let mut k: usize = 0;
    while k < split_candidates.len()
        invariant
            k <= split_candidates.len(),
            values.len() == length,
            length == stop - start,
            forall|i: int|
                0 <= i < split_candidates.len() ==> start <= (#[trigger] split_candidates[i])
                    < stop,
            forall|j: int|
                0 <= j < length ==> ((#[trigger] values[j]) is Some <==> split_candidates@.take(
                    k as int,
                ).contains((start + j) as usize)),
            forall|split: usize, score: i64|
                #![trigger call_ensures(T::gain, (gain, start, stop, split), score)]
                start <= split < stop && values[split - start] == Some(score) ==> call_ensures(
                    T::gain,
                    (gain, start, stop, split),
                    score,
                ),
        decreases split_candidates.len() - k,
    {
        let split_point = split_candidates[k];
        let score = gain.gain(start, stop, split_point);
        let ghost before = values@;
        values.set(split_point - start, Some(score));
        proof {
            assert forall|split: usize, other: i64|
                start <= split < stop && values[split - start] == Some(other) implies call_ensures(
                T::gain,
                (gain, start, stop, split),
                other,
            ) by {
                if split != split_point {
                    assert(before[split - start] == Some(other));
                }
            }
            let seen = split_candidates@.take(k as int);
            let next = split_candidates@.take(k + 1);
            assert(next == seen.push(split_point));
            assert forall|j: int| 0 <= j < length implies ((#[trigger] values[j]) is Some
                <==> next.contains((start + j) as usize)) by {
                let x = (start + j) as usize;
                if next.contains(x) {
                    let m = choose|m: int| 0 <= m < next.len() && next[m] == x;
                    if m < k {
                        assert(seen[m] == x);
                        assert(seen.contains(x));
                    }
                }
                if seen.contains(x) {
                    let m = choose|m: int| 0 <= m < seen.len() && seen[m] == x;
                    assert(next[m] == x);
                }
                if j == split_point - start {
                    assert(next[k as int] == x);
                }
            }
        }
        k += 1;
    }
    assert(split_candidates@.take(split_candidates.len() as int) == split_candidates@);
    FullGainResult { start, stop, gain: values, max_gain: None, best_split: None }
}

} // verus!
