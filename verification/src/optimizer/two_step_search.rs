use crate::control::Control;
use crate::gain::{
    ApproxGain, ApproxGainResult, ApproxGainResultView, Gain, GainResult, GainResultView,
};
use crate::model_selection_result::ModelSelectionResult;
use crate::optimizer::optimizer::{
    all_scored, best_candidate, is_best_split, is_first_best, is_split_candidate,
    lemma_split_candidates, segment_too_small, spec_split_candidates, split_candidates, Optimizer,
    SplitError,
};
use crate::optimizer::optimizer_result::{OptimizerResult, OptimizerResultView};
use vstd::prelude::*;

verus! {

/// Fits the gain at up to three guesses, then once more at the best split
/// that the best of those fits proposes.
pub struct TwoStepSearch<T: Gain> {
    pub gain: T,
    pub control: Control,
}

/// `approx` is a fit of `[start, stop)` at `guess` with one score, two
/// likelihoods and one prediction for each offset of the interval.
pub open spec fn is_fit_of(approx: ApproxGainResultView, start: usize, stop: usize, guess: usize) -> bool {
    &&& approx.start == start
    &&& approx.stop == stop
    &&& approx.guess == guess
    &&& start <= stop
    &&& approx.gain.len() == stop - start
    &&& approx.predictions.len() == stop - start
    &&& approx.likelihoods.len() == 2
    &&& approx.likelihoods[0].len() == stop - start
    &&& approx.likelihoods[1].len() == stop - start
}

/// `curve` is a fit of `[start, stop)` at `guess` that scores every candidate
/// and names the first best of them.
#[verifier::opaque]
pub open spec fn is_scored_curve(
    curve: GainResultView,
    candidates: Seq<usize>,
    start: usize,
    stop: usize,
    guess: usize,
) -> bool {
    &&& curve matches GainResultView::ApproxGainResult(approx)
    &&& is_fit_of(approx, start, stop, guess)
    &&& all_scored(candidates, approx.gain, start as int)
    &&& approx.best_split matches Some(best_split)
    &&& approx.max_gain matches Some(max_gain)
    &&& is_best_split(candidates, approx.gain, start as int, best_split, max_gain)
}

/// A scored curve names a candidate as its best split, and that candidate's
/// score as its highest gain.
pub proof fn lemma_scored_curve_names_candidate(
    curve: GainResultView,
    candidates: Seq<usize>,
    start: usize,
    stop: usize,
    guess: usize,
)
    requires
        is_scored_curve(curve, candidates, start, stop, guess),
    ensures
        curve.best_split() matches Some(best_split) && candidates.contains(best_split),
        curve.max_gain() is Some,
        curve.guess() == Some(guess),
        curve.start() == start,
        curve.stop() == stop,
{
    reveal(is_scored_curve);
    let approx = curve->ApproxGainResult_0;
    let k = choose|k: int|
        {
            &&& #[trigger] is_first_best(candidates, approx.gain, start as int, k)
            &&& candidates[k] == approx.best_split->0
        };
    assert(candidates.contains(candidates[k]));
}

/// The fit `approx` with its first best candidate written into it.
///
/// Fails where `approx` is not a fit of `[start, stop)` at `guess`, where
/// there is no candidate, and where a candidate has no score.
pub fn scored_approx_gain(
    start: usize,
    stop: usize,
    guess: usize,
    split_candidates: &Vec<usize>,
    approx: ApproxGainResult,
) -> (result: Result<GainResult, SplitError>)
    ensures
        match result {
            Ok(curve) => {
                &&& is_fit_of(approx@, start, stop, guess)
                &&& is_scored_curve(curve@, split_candidates@, start, stop, guess)
                &&& curve@ == GainResultView::ApproxGainResult(
                    ApproxGainResultView {
                        best_split: curve@.best_split(),
                        max_gain: curve@.max_gain(),
                        ..approx@
                    },
                )
            },
            Err(error) => {
                &&& error == SplitError::ClassifierFailure
                &&& !is_fit_of(approx@, start, stop, guess) || split_candidates.len() == 0
                    || !all_scored(split_candidates@, approx@.gain, start as int)
            },
        },
{
    reveal(is_scored_curve);
    let mut approx = approx;
    if approx.start != start || approx.stop != stop || approx.guess != guess || stop < start {
        return Err(SplitError::ClassifierFailure);
    }
    let length = stop - start;
    if approx.gain.len() != length || approx.predictions.len() != length
        || approx.likelihoods.len() != 2 {
        return Err(SplitError::ClassifierFailure);
    }
    if approx.likelihoods[0].len() != length || approx.likelihoods[1].len() != length {
        assert(approx@.likelihoods[0] == approx.likelihoods@[0]@);
        assert(approx@.likelihoods[1] == approx.likelihoods@[1]@);
        return Err(SplitError::ClassifierFailure);
    }
    assert(approx@.likelihoods[0] == approx.likelihoods@[0]@);
    assert(approx@.likelihoods[1] == approx.likelihoods@[1]@);
    match best_candidate(start, split_candidates, &approx.gain) {
        None => Err(SplitError::ClassifierFailure),
        Some((best_split, max_gain)) => {
            approx.best_split = Some(best_split);
            approx.max_gain = Some(max_gain);
            Ok(GainResult::ApproxGainResult(approx))
        },
    }
}

/// `result` is what `scored_approx_gain` makes of the fit `approx`: the fit
/// with its first best candidate written into it; or `ClassifierFailure`
/// where `approx` is not a fit of `[start, stop)` at `guess`, where there is
/// no candidate, and where a candidate has no score.
pub open spec fn is_scored_outcome(
    start: usize,
    stop: usize,
    guess: usize,
    candidates: Seq<usize>,
    approx: ApproxGainResult,
    result: Result<GainResult, SplitError>,
) -> bool {
    match result {
        Ok(curve) => {
            &&& is_fit_of(approx@, start, stop, guess)
            &&& is_scored_curve(curve@, candidates, start, stop, guess)
            &&& curve@ == GainResultView::ApproxGainResult(
                ApproxGainResultView {
                    best_split: curve@.best_split(),
                    max_gain: curve@.max_gain(),
                    ..approx@
                },
            )
        },
        Err(error) => {
            &&& error == SplitError::ClassifierFailure
            &&& !is_fit_of(approx@, start, stop, guess) || candidates.len() == 0 || !all_scored(
                candidates,
                approx@.gain,
                start as int,
            )
        },
    }
}

/// `result` is what comes of a fit that `gain` answers for `[start, stop)` at
/// `guess`, with its first best candidate written into it.
pub open spec fn is_fit_outcome<T: ApproxGain>(
    gain: &T,
    start: usize,
    stop: usize,
    guess: usize,
    candidates: &Vec<usize>,
    result: Result<GainResult, SplitError>,
) -> bool {
    exists|approx: ApproxGainResult|
        {
            &&& call_ensures(T::gain_approx, (gain, start, stop, guess, candidates), approx)
            &&& #[trigger] is_scored_outcome(start, stop, guess, candidates@, approx, result)
        }
}

/// Each of `curves` is what comes of a fit that `gain` answers for
/// `[start, stop)` at the guess that the curve names.
pub open spec fn are_fit_outcomes<T: ApproxGain>(
    gain: &T,
    start: usize,
    stop: usize,
    candidates: &Vec<usize>,
    curves: Seq<GainResult>,
) -> bool {
    forall|i: int|
        0 <= i < curves.len() ==> is_fit_outcome(
            gain,
            start,
            stop,
            (#[trigger] curves[i])@.guess()->0,
            candidates,
            Ok(curves[i]),
        )
}

/// A curve more that comes of a fit keeps the curves such.
proof fn lemma_one_more_fit<T: ApproxGain>(
    gain: &T,
    start: usize,
    stop: usize,
    candidates: &Vec<usize>,
    before: Seq<GainResult>,
    after: Seq<GainResult>,
    guess: usize,
)
    requires
        are_fit_outcomes(gain, start, stop, candidates, before),
        after.len() == before.len() + 1,
        after.drop_last() == before,
        is_fit_outcome(gain, start, stop, guess, candidates, Ok(after.last())),
        after.last()@.guess() == Some(guess),
    ensures
        are_fit_outcomes(gain, start, stop, candidates, after),
{
    assert forall|i: int| 0 <= i < after.len() implies is_fit_outcome(
        gain,
        start,
        stop,
        (#[trigger] after[i])@.guess()->0,
        candidates,
        Ok(after[i]),
    ) by {
        if i < before.len() {
            assert(after[i] == before[i]);
        }
    }
}

/// Whether `x` is one of `split_candidates`.
pub fn contains_split(split_candidates: &Vec<usize>, x: usize) -> (found: bool)
    ensures
        found == split_candidates@.contains(x),
{
    let mut i: usize = 0;
    while i < split_candidates.len()
        invariant
            i <= split_candidates.len(),
            forall|j: int| 0 <= j < i ==> split_candidates@[j] != x,
        decreases split_candidates.len() - i,
    {
        if split_candidates[i] == x {
            return true;
        }
        i += 1;
    }
    false
}

/// The guesses of the first step, as (left, middle, right).
///
/// They are the quartile positions of `[start, stop)` that are candidates.
/// Where none of the three is a candidate, they are the candidates at one
/// quarter, one half and three quarters of the list, each kept only if it
/// lies behind the one kept before it.
#[verifier::opaque]
pub open spec fn spec_first_guesses(candidates: Seq<usize>, start: int, stop: int) -> (
    Option<usize>,
    Option<usize>,
    Option<usize>,
) {
    let left = ((3 * start + stop) / 4) as usize;
    let mid = ((start + stop) / 2) as usize;
    let right = ((start + 3 * stop) / 4) as usize;
    if candidates.contains(left) || candidates.contains(mid) || candidates.contains(right) {
        (
            if candidates.contains(left) {
                Some(left)
            } else {
                None
            },
            if candidates.contains(mid) {
                Some(mid)
            } else {
                None
            },
            if candidates.contains(right) {
                Some(right)
            } else {
                None
            },
        )
    } else {
        let first = candidates[candidates.len() as int / 4];
        let second = candidates[candidates.len() as int / 2];
        let third = candidates[3 * candidates.len() as int / 4];
        (
            Some(first),
            if second > first {
                Some(second)
            } else {
                None
            },
            if third > first && third > second {
                Some(third)
            } else {
                None
            },
        )
    }
}

/// The guesses of the first step of the search on `[start, stop)`.
pub fn first_guesses(start: usize, stop: usize, split_candidates: &Vec<usize>) -> (guesses: (
    Option<usize>,
    Option<usize>,
    Option<usize>,
))
    requires
        start <= stop,
        split_candidates.len() > 0,
    ensures
        guesses == spec_first_guesses(split_candidates@, start as int, stop as int),
        guesses.0 is Some || guesses.1 is Some || guesses.2 is Some,
        guesses.0 matches Some(guess) ==> split_candidates@.contains(guess),
        guesses.1 matches Some(guess) ==> split_candidates@.contains(guess),
        guesses.2 matches Some(guess) ==> split_candidates@.contains(guess),
{
    reveal(spec_first_guesses);
    let length = stop - start;
    let left = start + length / 4;
    let mid = start + length / 2;
    let right = start + (length - length / 4 - if length % 4 == 0 {
        0
    } else {
        1
    });
    assert(left == (3 * start + stop) / 4);
    assert(mid == (start + stop) / 2);
    assert(right == (start + 3 * stop) / 4);
    let has_left = contains_split(split_candidates, left);
    let has_mid = contains_split(split_candidates, mid);
    let has_right = contains_split(split_candidates, right);
    if has_left || has_mid || has_right {
        (
            if has_left {
                Some(left)
            } else {
                None
            },
            if has_mid {
                Some(mid)
            } else {
                None
            },
            if has_right {
                Some(right)
            } else {
                None
            },
        )
    } else {
        let len = split_candidates.len();
        let three_quarters = len - len / 4 - if len % 4 == 0 {
            0
        } else {
            1
        };
        assert(three_quarters == 3 * len / 4);
        let first = split_candidates[len / 4];
        let second = split_candidates[len / 2];
        let third = split_candidates[three_quarters];
        (
            Some(first),
            if second > first {
                Some(second)
            } else {
                None
            },
            if third > first && third > second {
                Some(third)
            } else {
                None
            },
        )
    }
}

/// Which of the first fits is refined: 1 for the middle one, 0 for the left
/// one, 2 for the right one.
///
/// It is a fit with the highest gain; among equal gains the middle fit comes
/// before the left one, and the left one before the right one.
pub open spec fn spec_preferred(left: Option<i64>, mid: Option<i64>, right: Option<i64>) -> int {
    if mid is Some && (left is None || mid->0 >= left->0) && (right is None || mid->0 >= right->0) {
        1
    } else if left is Some && (right is None || left->0 >= right->0) {
        0
    } else {
        2
    }
}

/// Which of the first fits is refined, from the highest gain of each:
/// 1 for the middle one, 0 for the left one, 2 for the right one.
pub fn preferred(left: Option<i64>, mid: Option<i64>, right: Option<i64>) -> (choice: usize)
    ensures
        choice == spec_preferred(left, mid, right),
        left is Some || mid is Some || right is Some ==> match choice {
            0 => left is Some,
            1 => mid is Some,
            _ => right is Some,
        },
{
    let mid_wins = match mid {
        None => false,
        Some(m) => (match left {
            None => true,
            Some(l) => m >= l,
        }) && (match right {
            None => true,
            Some(r) => m >= r,
        }),
    };
    if mid_wins {
        return 1;
    }
    let left_wins = match left {
        None => false,
        Some(l) => match right {
            None => true,
            Some(r) => l >= r,
        },
    };
    if left_wins {
        0
    } else {
        2
    }
}

/// One if there is a guess, zero if not.
pub open spec fn present(guess: Option<usize>) -> int {
    if guess is Some {
        1
    } else {
        0
    }
}

/// The highest gain of the fit at `guess`, which is `curves[index]`.
pub open spec fn step_gain(guess: Option<usize>, curves: Seq<GainResultView>, index: int) -> Option<
    i64,
> {
    if guess is Some {
        curves[index].max_gain()
    } else {
        None
    }
}

/// `result` is what the two-step search returns on `[start, stop)`: a scored
/// fit for each first guess, in the order left, middle, right; then a scored
/// fit at the best split of the preferred one; and the best split and gain of
/// that last fit.
pub open spec fn is_two_step_result(
    candidates: Seq<usize>,
    start: usize,
    stop: usize,
    result: OptimizerResultView,
) -> bool {
    let (left, mid, right) = spec_first_guesses(candidates, start as int, stop as int);
    let i_mid = present(left);
    let i_right = present(left) + present(mid);
    let i_last = present(left) + present(mid) + present(right);
    let curves = result.gain_results;
    let choice = spec_preferred(
        step_gain(left, curves, 0),
        step_gain(mid, curves, i_mid),
        step_gain(right, curves, i_right),
    );
    let chosen = if choice == 1 {
        i_mid
    } else if choice == 0 {
        0
    } else {
        i_right
    };
    &&& result.start == start
    &&& result.stop == stop
    &&& curves.len() == i_last + 1
    &&& left matches Some(guess) ==> is_scored_curve(curves[0], candidates, start, stop, guess)
    &&& mid matches Some(guess) ==> is_scored_curve(curves[i_mid], candidates, start, stop, guess)
    &&& right matches Some(guess) ==> is_scored_curve(
        curves[i_right],
        candidates,
        start,
        stop,
        guess,
    )
    &&& curves[chosen].best_split() matches Some(refined)
    &&& is_scored_curve(curves[i_last], candidates, start, stop, refined)
    &&& curves[i_last].best_split() == Some(result.best_split)
    &&& curves[i_last].max_gain() == Some(result.max_gain)
}

impl<T> TwoStepSearch<T> where T: Gain + ApproxGain {
    /// Vector with indices of allowed split points.
    pub fn split_candidates(&self, start: usize, stop: usize) -> (result: Result<
        Vec<usize>,
        SplitError,
    >)
        ensures
            match result {
                Ok(candidates) => {
                    &&& candidates@.len() > 0
                    &&& !segment_too_small(
                        self.control.minimal_segment_length as int,
                        start as int,
                        stop as int,
                    )
                    &&& candidates@ == spec_split_candidates(
                        self.control.minimal_segment_length as int,
                        self.control@.forbidden(),
                        start as int,
                        stop as int,
                    )
                },
                Err(SplitError::SegmentTooSmall) => segment_too_small(
                    self.control.minimal_segment_length as int,
                    start as int,
                    stop as int,
                ),
                Err(SplitError::NoCandidates) => {
                    &&& !segment_too_small(
                        self.control.minimal_segment_length as int,
                        start as int,
                        stop as int,
                    )
                    &&& spec_split_candidates(
                        self.control.minimal_segment_length as int,
                        self.control@.forbidden(),
                        start as int,
                        stop as int,
                    ).len() == 0
                },
                Err(SplitError::ClassifierFailure) => false,
            },
    {
        split_candidates(&self.control, start, stop)
    }

    /// One fit of the gain at `guess`, with its best candidate: what
    /// `scored_approx_gain` makes of what the gain answers.
    pub fn _single_find_best_split(
        &self,
        start: usize,
        stop: usize,
        guess: usize,
        split_candidates: &Vec<usize>,
    ) -> (result: Result<GainResult, SplitError>)
        requires
            start <= guess < stop,
            forall|i: int|
                0 <= i < split_candidates.len() ==> start <= (#[trigger] split_candidates[i])
                    < stop,
        ensures
            match result {
                Ok(curve) => is_scored_curve(curve@, split_candidates@, start, stop, guess),
                Err(error) => error == SplitError::ClassifierFailure,
            },
            is_fit_outcome(&self.gain, start, stop, guess, split_candidates, result),
    {
        let approx_gain_result = self.gain.gain_approx(start, stop, guess, split_candidates);
        let ghost approx = approx_gain_result;
        let result = scored_approx_gain(start, stop, guess, split_candidates, approx_gain_result);
        assert(is_scored_outcome(start, stop, guess, split_candidates@, approx, result));
        result
    }

    /// The fit at `guess`, where there is a guess, appended to `results`; and
    /// the best split and gain of that fit.
    fn first_step(
        &self,
        start: usize,
        stop: usize,
        guess: Option<usize>,
        split_candidates: &Vec<usize>,
        results: &mut Vec<GainResult>,
    ) -> (step: Result<Option<(usize, i64)>, SplitError>)
        requires
            guess matches Some(g) ==> start <= g < stop,
            forall|i: int|
                0 <= i < split_candidates.len() ==> start <= (#[trigger] split_candidates[i])
                    < stop,
        ensures
            match step {
                Ok(None) => {
                    &&& guess is None
                    &&& final(results).deep_view() == old(results).deep_view()
                    &&& final(results)@ == old(results)@
                },
                Ok(Some((best_split, max_gain))) => {
                    &&& guess is Some
                    &&& final(results)@.len() == old(results)@.len() + 1
                    &&& final(results)@.drop_last() == old(results)@
                    &&& is_fit_outcome(
                        &self.gain,
                        start,
                        stop,
                        guess->0,
                        split_candidates,
                        Ok(final(results)@.last()),
                    )
                    &&& final(results)@.last()@.guess() == guess
                    &&& final(results).deep_view().len() == old(results).deep_view().len() + 1
                    &&& final(results).deep_view().drop_last() == old(results).deep_view()
                    &&& is_scored_curve(
                        final(results).deep_view().last(),
                        split_candidates@,
                        start,
                        stop,
                        guess->0,
                    )
                    &&& final(results).deep_view().last().best_split() == Some(best_split)
                    &&& final(results).deep_view().last().max_gain() == Some(max_gain)
                },
                Err(error) => {
                    &&& error == SplitError::ClassifierFailure
                    &&& guess is Some
                    &&& is_fit_outcome(
                        &self.gain,
                        start,
                        stop,
                        guess->0,
                        split_candidates,
                        Err(SplitError::ClassifierFailure),
                    )
                },
            },
    {
        match guess {
            None => Ok(None),
            Some(g) => {
                match self._single_find_best_split(start, stop, g, split_candidates) {
                    Err(error) => Err(error),
                    Ok(curve) => {
                        let best_split = curve.best_split();
                        let max_gain = curve.max_gain();
                        proof {
                            lemma_scored_curve_names_candidate(
                                curve@,
                                split_candidates@,
                                start,
                                stop,
                                g,
                            );
                        }
                        let ghost before = results.deep_view();
                        let ghost curves_before = results@;
                        results.push(curve);
                        assert(results.deep_view().drop_last() =~= before);
                        assert(results@.drop_last() =~= curves_before);
                        assert(results@.last() == curve);
                        match (best_split, max_gain) {
                            (Some(b), Some(m)) => Ok(Some((b, m))),
                            _ => Err(SplitError::ClassifierFailure),
                        }
                    },
                }
            },
        }
    }
}

impl<T> Optimizer for TwoStepSearch<T> where T: ApproxGain + Gain {
    /// Total number of observations: what the gain answers.
    fn n(&self) -> (n: usize)
        ensures
            call_ensures(T::n, (&self.gain,), n),
    {
        self.gain.n()
    }

    fn control(&self) -> (control: &Control)
        ensures
            *control == self.control,
    {
        &self.control
    }

    /// The best candidate of `[start, stop)` on a fit of the gain at the best
    /// split of the best of up to three first fits.
    ///
    /// Each fit is what comes of an answer of the gain at its guess. Fails
    /// with `ClassifierFailure` only where the gain answers a fit that is not
    /// of the interval and the guess, or that leaves a candidate without a
    /// score.
    fn find_best_split(&self, start: usize, stop: usize) -> (result: Result<
        OptimizerResult,
        SplitError,
    >)
        ensures
            match result {
                Ok(found) => {
                    &&& !segment_too_small(
                        self.control.minimal_segment_length as int,
                        start as int,
                        stop as int,
                    )
                    &&& found@.wf()
                    &&& is_split_candidate(
                        self.control.minimal_segment_length as int,
                        self.control@.forbidden(),
                        start as int,
                        stop as int,
                        found.best_split as int,
                    )
                    &&& is_two_step_result(
                        spec_split_candidates(
                            self.control.minimal_segment_length as int,
                            self.control@.forbidden(),
                            start as int,
                            stop as int,
                        ),
                        start,
                        stop,
                        found@,
                    )
                    &&& exists|candidates: Vec<usize>|
                        {
                            &&& candidates@ == spec_split_candidates(
                                self.control.minimal_segment_length as int,
                                self.control@.forbidden(),
                                start as int,
                                stop as int,
                            )
                            &&& #[trigger] are_fit_outcomes(
                                &self.gain,
                                start,
                                stop,
                                &candidates,
                                found.gain_results@,
                            )
                        }
                },
                Err(SplitError::SegmentTooSmall) => segment_too_small(
                    self.control.minimal_segment_length as int,
                    start as int,
                    stop as int,
                ),
                Err(SplitError::NoCandidates) => {
                    &&& !segment_too_small(
                        self.control.minimal_segment_length as int,
                        start as int,
                        stop as int,
                    )
                    &&& spec_split_candidates(
                        self.control.minimal_segment_length as int,
                        self.control@.forbidden(),
                        start as int,
                        stop as int,
                    ).len() == 0
                },
                Err(SplitError::ClassifierFailure) => {
                    &&& !segment_too_small(
                        self.control.minimal_segment_length as int,
                        start as int,
                        stop as int,
                    )
                    &&& spec_split_candidates(
                        self.control.minimal_segment_length as int,
                        self.control@.forbidden(),
                        start as int,
                        stop as int,
                    ).len() > 0
                    &&& exists|candidates: Vec<usize>, guess: usize|
                        {
                            &&& candidates@ == spec_split_candidates(
                                self.control.minimal_segment_length as int,
                                self.control@.forbidden(),
                                start as int,
                                stop as int,
                            )
                            &&& #[trigger] is_fit_outcome(
                                &self.gain,
                                start,
                                stop,
                                guess,
                                &candidates,
                                Err(SplitError::ClassifierFailure),
                            )
                        }
                },
            },
    {
        let candidates = match split_candidates(&self.control, start, stop) {
            Ok(candidates) => candidates,
            Err(error) => {
                return Err(error);
            },
        };
        proof {
            lemma_split_candidates(
                self.control.minimal_segment_length as int,
                self.control@.forbidden(),
                start as int,
                stop as int,
            );
            assert forall|i: int| 0 <= i < candidates.len() implies start <= (
            #[trigger] candidates[i]) < stop by {
                assert(candidates@.contains(candidates[i]));
            }
        }
        let (left, mid, right) = first_guesses(start, stop, &candidates);
        let mut results: Vec<GainResult> = Vec::new();
        assert(results.deep_view() =~= Seq::empty());
        let ghost none = results@;

        let left_best = match self.first_step(start, stop, left, &candidates, &mut results) {
            Ok(best) => best,
            Err(error) => {
                return Err(error);
            },
        };
        let ghost after_left = results.deep_view();
        let ghost curves_left = results@;
        proof {
            if left is Some {
                lemma_one_more_fit(&self.gain, start, stop, &candidates, none, curves_left, left->0);
            }
        }
        let mid_best = match self.first_step(start, stop, mid, &candidates, &mut results) {
            Ok(best) => best,
            Err(error) => {
                return Err(error);
            },
        };
        let ghost after_mid = results.deep_view();
        let ghost curves_mid = results@;
        proof {
            if mid is Some {
                lemma_one_more_fit(
                    &self.gain,
                    start,
                    stop,
                    &candidates,
                    curves_left,
                    curves_mid,
                    mid->0,
                );
            }
        }
        assert(after_left.len() > 0 ==> after_mid[0] == after_left[0]) by {
            if mid is Some && after_left.len() > 0 {
                assert(after_mid.drop_last()[0] == after_mid[0]);
            }
        }
        let right_best = match self.first_step(start, stop, right, &candidates, &mut results) {
            Ok(best) => best,
            Err(error) => {
                return Err(error);
            },
        };
        let ghost first_fits = results.deep_view();
        let ghost curves_first = results@;
        proof {
            if right is Some {
                lemma_one_more_fit(
                    &self.gain,
                    start,
                    stop,
                    &candidates,
                    curves_mid,
                    curves_first,
                    right->0,
                );
            }
        }
        proof {
            if right is Some {
                assert forall|i: int| 0 <= i < after_mid.len() implies first_fits[i]
                    == after_mid[i] by {
                    assert(first_fits.drop_last()[i] == first_fits[i]);
                }
            }
        }

        let left_gain = match left_best {
            Some((_, max_gain)) => Some(max_gain),
            None => None,
        };
        let mid_gain = match mid_best {
            Some((_, max_gain)) => Some(max_gain),
            None => None,
        };
        let right_gain = match right_best {
            Some((_, max_gain)) => Some(max_gain),
            None => None,
        };
        let choice = preferred(left_gain, mid_gain, right_gain);
        let chosen = if choice == 1 {
            mid_best
        } else if choice == 0 {
            left_best
        } else {
            right_best
        };
        let refined_guess = match chosen {
            Some((best_split, _)) => best_split,
            None => {
                return Err(SplitError::ClassifierFailure);
            },
        };
        proof {
            let i_mid = present(left);
            let i_right = present(left) + present(mid);
            let index = if choice == 1 {
                i_mid
            } else if choice == 0 {
                0
            } else {
                i_right
            };
            assert(first_fits[index].best_split() == Some(refined_guess));
            lemma_scored_curve_names_candidate(
                first_fits[index],
                candidates@,
                start,
                stop,
                if choice == 1 {
                    mid->0
                } else if choice == 0 {
                    left->0
                } else {
                    right->0
                },
            );
            assert(candidates@.contains(refined_guess));
        }
        let refined = match self._single_find_best_split(start, stop, refined_guess, &candidates) {
            Ok(curve) => curve,
            Err(error) => {
                return Err(error);
            },
        };
        let best_split = refined.best_split();
        let max_gain = refined.max_gain();
        proof {
            lemma_scored_curve_names_candidate(refined@, candidates@, start, stop, refined_guess);
        }
        results.push(refined);
        proof {
            assert(results@.drop_last() =~= curves_first);
            lemma_one_more_fit(
                &self.gain,
                start,
                stop,
                &candidates,
                curves_first,
                results@,
                refined_guess,
            );
        }
        proof {
            let curves = results.deep_view();
            assert(curves.drop_last() =~= first_fits);
            assert forall|i: int| 0 <= i < first_fits.len() implies curves[i] == first_fits[i] by {
                assert(curves.drop_last()[i] == curves[i]);
            }
        }
        match (best_split, max_gain) {
            (Some(best_split), Some(max_gain)) => Ok(
                OptimizerResult { start, stop, best_split, max_gain, gain_results: results },
            ),
            _ => Err(SplitError::ClassifierFailure),
        }
    }

    /// Whether the split that `optimizer_result` proposes is a change point:
    /// the verdict of the gain on it.
    fn model_selection(&self, optimizer_result: &OptimizerResult) -> (verdict:
        ModelSelectionResult)
        ensures
            call_ensures(T::model_selection, (&self.gain, optimizer_result), verdict),
    {
        self.gain.model_selection(optimizer_result)
    }
}

} // verus!
