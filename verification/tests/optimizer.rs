use changeforest::gain::{
    gain_full, ApproxGain, ApproxGainResult, FullGainResult, Gain, GainResult,
};
use changeforest::optimizer::{
    best_candidate, first_guesses, grid_search_result, preferred, scored_approx_gain,
    split_candidates, GridSearch, Optimizer, OptimizerResult, SplitError,
    TwoStepSearch,
};
use changeforest::{valid_forbidden_segments, Control, ModelSelectionResult};

/// Gain of a split of a series with one step: the closer to the step, the
/// higher.
struct StepGain {
    n: usize,
    step: usize,
}

impl Gain for StepGain {
    fn n(&self) -> usize {
        self.n
    }

    fn gain(&self, start: usize, stop: usize, split: usize) -> i64 {
        if start < self.step && self.step < stop {
            1000 - (split as i64 - self.step as i64).abs()
        } else {
            0
        }
    }

    fn model_selection(&self, optimizer_result: &OptimizerResult) -> ModelSelectionResult {
        ModelSelectionResult::by_threshold(optimizer_result.max_gain, 500)
    }
}

fn candidates(
    start: usize,
    stop: usize,
    forbidden_segments: Option<Vec<(usize, usize)>>,
    delta: usize,
) -> Result<Vec<usize>, SplitError> {
    let control = Control::default()
        .with_minimal_segment_length(delta)
        .with_forbidden_segments(forbidden_segments);
    split_candidates(&control, start, stop)
}

#[test]
fn test_split_candidates_left_forbidden() {
    assert_eq!(candidates(0, 10, Some(vec![(0, 3)]), 1).unwrap(), vec![4, 5, 6, 7, 8]);
}

#[test]
fn test_split_candidates_right_forbidden() {
    assert_eq!(candidates(1, 10, Some(vec![(6, 10)]), 2).unwrap(), vec![3, 4, 5, 6]);
}

#[test]
fn test_split_candidates_two_forbidden() {
    assert_eq!(candidates(0, 10, Some(vec![(2, 4), (5, 7)]), 1).unwrap(), vec![1, 2, 5, 8]);
}

#[test]
fn test_split_candidates_two_forbidden_short() {
    assert_eq!(candidates(1, 7, Some(vec![(2, 4), (5, 7)]), 1).unwrap(), vec![2, 5]);
}

#[test]
fn split_candidates_without_forbidden_segments() {
    assert_eq!(candidates(10, 20, None, 3).unwrap(), vec![13, 14, 15, 16]);
    assert_eq!(candidates(0, 3, None, 1).unwrap(), vec![1]);
}

#[test]
fn split_candidates_keep_the_minimal_length_on_both_sides() {
    for delta in 1..6 {
        for start in 0..12 {
            for stop in start..24 {
                if let Ok(found) = candidates(start, stop, Some(vec![(3, 5), (14, 14)]), delta) {
                    for c in found.iter() {
                        assert!(c - start >= delta);
                        assert!(stop - c >= delta);
                        assert!(!(3 < *c && *c <= 5));
                    }
                    for pair in found.windows(2) {
                        assert!(pair[0] < pair[1]);
                    }
                }
            }
        }
    }
}

#[test]
fn split_candidates_segment_too_small() {
    assert_eq!(candidates(0, 2, None, 1), Err(SplitError::SegmentTooSmall));
    assert_eq!(candidates(0, 10, None, 5), Err(SplitError::SegmentTooSmall));
    assert_eq!(candidates(7, 7, None, 1), Err(SplitError::SegmentTooSmall));
    assert_eq!(candidates(9, 7, None, 1), Err(SplitError::SegmentTooSmall));
    assert!(candidates(0, 11, None, 5).is_ok());
}

#[test]
fn split_candidates_none_left() {
    assert_eq!(candidates(0, 10, Some(vec![(0, 10)]), 1), Err(SplitError::NoCandidates));
    assert_eq!(candidates(0, 4, Some(vec![(0, 1), (1, 2)]), 1), Err(SplitError::NoCandidates));
}

#[test]
fn split_error_messages() {
    assert_eq!(SplitError::SegmentTooSmall.message(), "Segment too small.");
    assert_eq!(
        SplitError::NoCandidates.message(),
        "No split_candidates left after filtering out forbidden_segments."
    );
    assert_eq!(SplitError::ClassifierFailure.message(), "The gain did not describe a split.");
}

#[test]
fn forbidden_segments_must_be_ordered() {
    assert!(valid_forbidden_segments(&vec![(0, 3), (4, 4)]));
    assert!(!valid_forbidden_segments(&vec![(0, 3), (5, 4)]));
    assert!(valid_forbidden_segments(&vec![]));
}

#[test]
fn best_candidate_first_wins_among_equals() {
    let gain = vec![None, Some(7), Some(9), Some(9), Some(-3)];
    assert_eq!(best_candidate(2, &vec![3, 4, 5, 6], &gain), Some((4, 9)));
    assert_eq!(best_candidate(2, &vec![5, 4], &gain), Some((5, 9)));
    assert_eq!(best_candidate(2, &vec![6], &gain), Some((6, -3)));
    assert_eq!(best_candidate(2, &vec![], &gain), None);
    assert_eq!(best_candidate(2, &vec![2, 3], &gain), None);
    assert_eq!(best_candidate(2, &vec![3, 7], &gain), None);
    assert_eq!(best_candidate(2, &vec![1], &gain), None);
}

#[test]
fn gain_full_scores_the_candidates_only() {
    let gain = StepGain { n: 10, step: 5 };
    let full = gain_full(&gain, 2, 8, &vec![4, 6]);
    assert_eq!(full.start, 2);
    assert_eq!(full.stop, 8);
    assert_eq!(full.gain, vec![None, None, Some(999), None, Some(999), None]);
    assert_eq!(full.best_split, None);
    assert_eq!(full.max_gain, None);
}

#[test]
fn grid_search_finds_the_step() {
    let optimizer = GridSearch {
        gain: StepGain { n: 100, step: 40 },
        control: Control::default().with_minimal_segment_length(2),
    };
    let found = optimizer.find_best_split(0, 100).unwrap();
    assert_eq!((found.start, found.stop), (0, 100));
    assert_eq!(found.best_split, 40);
    assert_eq!(found.max_gain, 1000);
    assert_eq!(found.gain_results.len(), 1);
    assert_eq!(found.gain_results[0].best_split(), Some(40));
    assert_eq!(found.gain_results[0].max_gain(), Some(1000));
    assert_eq!(found.gain_results[0].guess(), None);
    assert!(found.gain_results[0].likelihoods().is_none());
    assert!(found.gain_results[0].predictions().is_none());
    assert_eq!(found.gain_results[0].gain().len(), 100);
    assert_eq!(found.gain_results[0].gain()[1], None);
    assert_eq!(found.gain_results[0].gain()[2], Some(962));
    assert_eq!(found.gain_results[0].gain()[97], Some(943));
    assert_eq!(found.gain_results[0].gain()[98], None);
    assert_eq!(optimizer.find_best_split(0, 4).unwrap_err(), SplitError::SegmentTooSmall);
    assert_eq!(optimizer.n(), 100);
    assert_eq!(optimizer.control().minimal_segment_length, 2);
}

#[test]
fn grid_search_takes_the_first_of_equal_gains() {
    let optimizer = GridSearch {
        gain: StepGain { n: 100, step: 40 },
        control: Control::default().with_minimal_segment_length(3),
    };
    // No step inside the interval: every candidate scores zero.
    let found = optimizer.find_best_split(50, 60).unwrap();
    assert_eq!(found.best_split, 53);
    assert_eq!(found.max_gain, 0);
    assert_eq!(optimizer.split_candidates(50, 60).unwrap(), vec![53, 54, 55, 56]);
}

#[test]
fn grid_search_skips_forbidden_positions() {
    let optimizer = GridSearch {
        gain: StepGain { n: 100, step: 40 },
        control: Control::default().with_forbidden_segments(Some(vec![(38, 41)])),
    };
    let found = optimizer.find_best_split(0, 100).unwrap();
    assert_eq!(found.best_split, 38);
    assert_eq!(found.max_gain, 998);
}

#[test]
fn first_guesses_are_the_quartiles_that_are_candidates() {
    let all: Vec<usize> = (10..90).collect();
    assert_eq!(first_guesses(0, 100, &all), (Some(25), Some(50), Some(75)));
    let inner: Vec<usize> = (10..20).collect();
    assert_eq!(first_guesses(0, 30, &inner), (None, Some(15), None));
    let wide: Vec<usize> = (1..29).collect();
    assert_eq!(first_guesses(0, 30, &wide), (Some(7), Some(15), Some(22)));
    assert_eq!(first_guesses(0, 100, &vec![49, 50]), (None, Some(50), None));
    assert_eq!(first_guesses(3, 10, &vec![4, 5, 6, 7, 8]), (Some(4), Some(6), Some(8)));
}

#[test]
fn first_guesses_fall_back_on_the_quartiles_of_the_candidates() {
    assert_eq!(
        first_guesses(0, 100, &vec![1, 2, 3, 4, 5, 6, 7, 8]),
        (Some(3), Some(5), Some(7))
    );
    assert_eq!(first_guesses(0, 100, &vec![3]), (Some(3), None, None));
    assert_eq!(first_guesses(0, 100, &vec![3, 4]), (Some(3), Some(4), None));
    assert_eq!(first_guesses(0, 100, &vec![3, 4, 9]), (Some(3), Some(4), Some(9)));
}

#[test]
fn preferred_fit_is_middle_then_left_then_right() {
    assert_eq!(preferred(Some(5), Some(5), Some(5)), 1);
    assert_eq!(preferred(Some(6), Some(5), Some(6)), 0);
    assert_eq!(preferred(Some(6), Some(5), Some(7)), 2);
    assert_eq!(preferred(Some(4), Some(5), Some(7)), 2);
    assert_eq!(preferred(None, Some(5), Some(5)), 1);
    assert_eq!(preferred(Some(5), None, Some(5)), 0);
    assert_eq!(preferred(None, None, Some(-1)), 2);
    assert_eq!(preferred(Some(i64::MIN), None, None), 0);
}

/// A gain whose fit at any guess peaks at `peak_of(guess)` with the height
/// `height_of(guess)`.
struct PeakGain {
    n: usize,
    peak_of: fn(usize) -> usize,
    height_of: fn(usize) -> i64,
    broken_at: Option<usize>,
}

impl Gain for PeakGain {
    fn n(&self) -> usize {
        self.n
    }

    fn gain(&self, _: usize, _: usize, _: usize) -> i64 {
        0
    }

    fn model_selection(&self, optimizer_result: &OptimizerResult) -> ModelSelectionResult {
        ModelSelectionResult::by_threshold(optimizer_result.max_gain, 0)
    }
}

impl ApproxGain for PeakGain {
    fn gain_approx(
        &self,
        start: usize,
        stop: usize,
        guess: usize,
        _: &Vec<usize>,
    ) -> ApproxGainResult {
        let peak = (self.peak_of)(guess);
        let height = (self.height_of)(guess);
        let mut gain: Vec<Option<i64>> = (start..stop)
            .map(|split| Some(height - (split as i64 - peak as i64).abs()))
            .collect();
        if self.broken_at == Some(guess) {
            gain.pop();
        }
        ApproxGainResult {
            start,
            stop,
            guess,
            gain,
            max_gain: None,
            best_split: None,
            likelihoods: vec![vec![0; stop - start], vec![0; stop - start]],
            predictions: vec![0; stop - start],
        }
    }
}

fn two_step(peak_of: fn(usize) -> usize, height_of: fn(usize) -> i64) -> TwoStepSearch<PeakGain> {
    TwoStepSearch {
        gain: PeakGain { n: 100, peak_of, height_of, broken_at: None },
        control: Control::default().with_minimal_segment_length(5),
    }
}

fn guesses_and_splits(found: &OptimizerResult) -> Vec<(usize, usize, i64)> {
    found
        .gain_results
        .iter()
        .map(|fit| (fit.guess().unwrap(), fit.best_split().unwrap(), fit.max_gain().unwrap()))
        .collect()
}

#[test]
fn two_step_search_refines_the_best_first_fit() {
    // The fit at a guess peaks ten positions behind the guess; the one at 75
    // is the highest.
    let search = two_step(|guess| guess + 10, |guess| guess as i64);
    let found = search.find_best_split(0, 100).unwrap();
    assert_eq!(
        guesses_and_splits(&found),
        vec![(25, 35, 25), (50, 60, 50), (75, 85, 75), (85, 94, 84)]
    );
    assert_eq!((found.best_split, found.max_gain), (94, 84));
    assert_eq!((found.start, found.stop), (0, 100));
}

#[test]
fn two_step_search_prefers_the_middle_fit_among_equals() {
    let search = two_step(|guess| guess + 1, |_| 7);
    let found = search.find_best_split(0, 100).unwrap();
    let fits = guesses_and_splits(&found);
    assert_eq!(&fits[..3], &[(25, 26, 7), (50, 51, 7), (75, 76, 7)]);
    // The last fit is made at the best split of the middle one.
    assert_eq!(fits[3].0, 51);
}

#[test]
fn two_step_search_prefers_the_left_fit_to_the_right_one() {
    let search = two_step(|guess| guess + 1, |guess| if guess == 50 { 6 } else { 7 });
    let found = search.find_best_split(0, 100).unwrap();
    assert_eq!(guesses_and_splits(&found)[3].0, 26);
}

#[test]
fn two_step_search_keeps_the_first_best_candidate_of_a_fit() {
    // The peak lies before the first candidate: the curve falls from there.
    let search = two_step(|_| 0, |_| 0);
    let found = search.find_best_split(10, 50).unwrap();
    assert_eq!(found.best_split, 15);
    assert_eq!(found.max_gain, -15);
    assert_eq!(search.split_candidates(10, 50).unwrap(), (15..45).collect::<Vec<usize>>());
}

#[test]
fn two_step_search_fails_on_a_fit_that_is_not_of_the_interval() {
    let search = TwoStepSearch {
        gain: PeakGain { n: 100, peak_of: |guess| guess, height_of: |_| 1, broken_at: Some(50) },
        control: Control::default().with_minimal_segment_length(5),
    };
    assert_eq!(search.find_best_split(0, 100).unwrap_err(), SplitError::ClassifierFailure);
    // Where no guess hits the broken fit, the search goes through.
    assert!(search.find_best_split(0, 40).is_ok());
    assert_eq!(search.find_best_split(0, 10).unwrap_err(), SplitError::SegmentTooSmall);
    let forbidden = TwoStepSearch {
        gain: PeakGain { n: 100, peak_of: |guess| guess, height_of: |_| 1, broken_at: None },
        control: Control::default().with_forbidden_segments(Some(vec![(0, 100)])),
    };
    assert_eq!(forbidden.find_best_split(0, 100).unwrap_err(), SplitError::NoCandidates);
}

#[test]
fn two_step_search_guesses_among_the_candidates_that_are_left() {
    let search = TwoStepSearch {
        gain: PeakGain { n: 100, peak_of: |guess| guess, height_of: |_| 1, broken_at: None },
        control: Control::default().with_forbidden_segments(Some(vec![(8, 99)])),
    };
    // The candidates are 1, ..., 8; none of 25, 50, 75 is among them.
    let found = search.find_best_split(0, 100).unwrap();
    let fits = guesses_and_splits(&found);
    assert_eq!(fits.len(), 4);
    assert_eq!((fits[0].0, fits[1].0, fits[2].0), (3, 5, 7));
    assert_eq!(fits[3].0, 5);
    assert_eq!(found.best_split, 5);
}

#[test]
fn scored_approx_gain_writes_the_best_candidate_into_the_fit() {
    let fit = |gain: Vec<Option<i64>>| ApproxGainResult {
        start: 2,
        stop: 6,
        guess: 3,
        gain,
        max_gain: None,
        best_split: None,
        likelihoods: vec![vec![0; 4], vec![0; 4]],
        predictions: vec![0; 4],
    };
    let scored =
        scored_approx_gain(2, 6, 3, &vec![3, 4], fit(vec![Some(9), Some(1), Some(5), None]))
            .unwrap();
    assert_eq!(scored.best_split(), Some(4));
    assert_eq!(scored.max_gain(), Some(5));
    assert_eq!(scored.guess(), Some(3));
    assert_eq!(scored.gain(), &vec![Some(9), Some(1), Some(5), None]);
    let candidates = vec![3, 4];
    let failure = Err(SplitError::ClassifierFailure);
    let full = vec![Some(9), Some(1), Some(5), None];
    assert_eq!(scored_approx_gain(2, 6, 4, &candidates, fit(full.clone())).err(), failure.clone().err());
    assert_eq!(scored_approx_gain(2, 7, 3, &candidates, fit(full.clone())).err(), failure.clone().err());
    assert_eq!(scored_approx_gain(2, 6, 3, &vec![], fit(full.clone())).err(), failure.clone().err());
    assert_eq!(scored_approx_gain(2, 6, 3, &vec![5], fit(full.clone())).err(), failure.clone().err());
    assert_eq!(
        scored_approx_gain(2, 6, 3, &candidates, fit(vec![Some(9), Some(1), Some(5)])).err(),
        failure.err()
    );
    let _: Result<GainResult, SplitError> = failure;
}

#[test]
fn grid_search_result_needs_every_candidate_scored() {
    let full = |gain: Vec<Option<i64>>| FullGainResult {
        start: 2,
        stop: 6,
        gain,
        max_gain: None,
        best_split: None,
    };
    let found = grid_search_result(&vec![3, 5], full(vec![None, Some(4), None, Some(4)])).unwrap();
    assert_eq!((found.start, found.stop, found.best_split, found.max_gain), (2, 6, 3, 4));
    assert_eq!(found.gain_results.len(), 1);
    assert_eq!(found.gain_results[0].best_split(), Some(3));
    assert_eq!(
        grid_search_result(&vec![3, 4], full(vec![None, Some(4), None, Some(4)])).unwrap_err(),
        SplitError::ClassifierFailure
    );
    assert_eq!(
        grid_search_result(&vec![], full(vec![None, Some(4), None, Some(4)])).unwrap_err(),
        SplitError::ClassifierFailure
    );
}
