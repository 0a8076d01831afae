use changeforest::optimizer::{Optimizer, OptimizerResult, SplitError};
use changeforest::{
    best_nested, keep_segment, seeded_segments, wild_segments, BinarySegmentationResult,
    BinarySegmentationTree, Control, ModelSelectionResult, Segmentation, SegmentationType,
};

/// An optimizer that splits every interval at its first quartile.
struct TrivialOptimizer {
    control: Control,
}

impl Optimizer for TrivialOptimizer {
    fn n(&self) -> usize {
        100
    }

    fn find_best_split(&self, start: usize, stop: usize) -> Result<OptimizerResult, SplitError> {
        Ok(OptimizerResult {
            start,
            stop,
            best_split: (3 * start + stop) / 4,
            max_gain: ((stop - start) * (start + 10)) as i64,
            gain_results: vec![],
        })
    }

    fn model_selection(&self, optimizer_result: &OptimizerResult) -> ModelSelectionResult {
        ModelSelectionResult { is_significant: optimizer_result.stop <= 50, p_value: None }
    }

    fn control(&self) -> &Control {
        &self.control
    }
}

/// The least number of observations on either side of a split.
fn minimal_segment_length(n: usize, minimal_relative_segment_length: f64) -> usize {
    (minimal_relative_segment_length * (n as f64)).ceil() as usize
}

/// The intervals of seeded binary segmentation for a series of `n`
/// observations, layer by layer.
fn seeded_intervals(
    n: usize,
    minimal_relative_segment_length: f64,
    seeded_segments_alpha: f64,
) -> Vec<(usize, usize)> {
    let minimal_segment_length =
        f64::max(2. * (minimal_relative_segment_length * n as f64).ceil(), 2.);
    let n_layers = ((minimal_segment_length / n as f64).ln() / seeded_segments_alpha.ln()).ceil();
    let mut intervals = vec![];
    for k in 1..(n_layers as i32) {
        let alpha_k = seeded_segments_alpha.powi(k);
        let segment_length = (n as f64) * alpha_k;
        let n_segments = 2 * ((1. / alpha_k) as f32).ceil() as usize - 1;
        let segment_step = (n as f64 - segment_length) / (n_segments - 1) as f64;
        for segment_id in 0..n_segments {
            let start = ((segment_id as f64 * segment_step) as f32) as usize;
            let stop = (start + (segment_length as f32).ceil() as usize).min(n);
            intervals.push((start, stop));
        }
    }
    intervals
}

fn sbs_segments(
    minimal_relative_segment_length: f64,
    seeded_segments_alpha: f64,
) -> Vec<(usize, usize)> {
    let control = Control::default()
        .with_minimal_segment_length(minimal_segment_length(100, minimal_relative_segment_length))
        .with_seeded_segments(seeded_intervals(
            100,
            minimal_relative_segment_length,
            seeded_segments_alpha,
        ));
    let optimizer = TrivialOptimizer { control };
    let segmentation = Segmentation::new(SegmentationType::SBS, &optimizer);
    segmentation.segments.iter().map(|result| (result.start, result.stop)).collect()
}

#[test]
fn test_sbs_segments_small_minimal_length() {
    let expected = vec![
        (0, 71), (14, 85), (29, 100), (0, 50), (25, 75),
        (50, 100), (0, 36), (16, 52), (32, 68), (48, 84),
        (64, 100), (0, 25), (12, 37), (25, 50), (37, 62),
        (50, 75), (62, 87), (75, 100), (0, 18), (8, 26),
        (16, 34), (24, 42), (32, 50), (41, 59), (49, 67),
        (57, 75), (65, 83), (74, 92), (82, 100), (0, 13),
        (6, 19), (12, 25), (18, 31), (25, 38), (31, 44),
        (37, 50), (43, 56), (50, 63), (56, 69), (62, 75),
        (68, 81), (75, 88), (81, 94), (87, 100),
    ];
    assert_eq!(sbs_segments(0.05, std::f64::consts::FRAC_1_SQRT_2), expected);
}

#[test]
fn test_sbs_segments_large_minimal_length() {
    let expected = vec![
        (0, 71), (14, 85), (29, 100), (0, 50), (25, 75),
        (50, 100), (0, 36), (16, 52), (32, 68), (48, 84),
        (64, 100), (0, 25), (12, 37), (25, 50), (37, 62),
        (50, 75), (62, 87), (75, 100),
    ];
    assert_eq!(sbs_segments(0.12, std::f64::consts::FRAC_1_SQRT_2), expected);
}

#[test]
fn test_sbs_segments_alpha_one_half() {
    let expected = vec![
        (0, 50), (25, 75), (50, 100),
        (0, 25), (12, 37), (25, 50), (37, 62),
        (50, 75), (62, 87), (75, 100),
    ];
    assert_eq!(sbs_segments(0.12, 0.5), expected);
}

fn generated(segmentation_type: SegmentationType) -> Vec<(usize, usize, usize, i64)> {
    let control = Control::default()
        .with_number_of_wild_segments(5)
        .with_minimal_segment_length(minimal_segment_length(100, 0.2))
        .with_seeded_segments(seeded_intervals(100, 0.2, std::f64::consts::FRAC_1_SQRT_2));
    let optimizer = TrivialOptimizer { control };
    let segmentation = Segmentation::new(segmentation_type, &optimizer);
    segmentation
        .segments
        .iter()
        .map(|result| (result.start, result.stop, result.best_split, result.max_gain))
        .collect()
}

#[test]
fn test_generate_segments_bs() {
    assert_eq!(generated(SegmentationType::BS), vec![]);
}

#[test]
fn test_generate_segments_sbs() {
    assert_eq!(
        generated(SegmentationType::SBS),
        vec![
            (0, 71, 17, 710),
            (14, 85, 31, 1704),
            (29, 100, 46, 2769),
            (0, 50, 12, 500),
            (25, 75, 37, 1750),
            (50, 100, 62, 3000),
        ]
    );
}

#[test]
fn test_generate_segments_wbs() {
    assert_eq!(
        generated(SegmentationType::WBS),
        vec![
            (73, 78, 74, 415),
            (2, 59, 16, 684),
            (26, 77, 38, 1836),
            (22, 80, 36, 1856),
            (75, 97, 80, 1870),
        ]
    );
}

fn optimum(segmentation_type: SegmentationType) -> (usize, i64) {
    let control = Control::default().with_seeded_segments(seeded_intervals(
        100,
        0.01,
        std::f64::consts::FRAC_1_SQRT_2,
    ));
    let optimizer = TrivialOptimizer { control };
    let mut segmentation = Segmentation::new(segmentation_type, &optimizer);
    let result = segmentation.find_best_split(0, 100).unwrap();
    (result.best_split, result.max_gain)
}

#[test]
fn test_optimizer_bs() {
    assert_eq!(optimum(SegmentationType::BS), (25, 1000));
}

#[test]
fn test_optimizer_sbs() {
    assert_eq!(optimum(SegmentationType::SBS), (62, 3000));
}

#[test]
fn test_optimizer_wbs() {
    assert_eq!(optimum(SegmentationType::WBS), (60, 2900));
}

#[test]
fn wild_segments_are_reproducible_and_lie_in_the_series() {
    let control = Control::default().with_number_of_wild_segments(40).with_seed(3);
    let optimizer = TrivialOptimizer { control: control.clone() };
    let (first, draws) = wild_segments(&optimizer, &control, 100);
    let (second, draws_again) = wild_segments(&optimizer, &control, 100);
    assert_eq!(first.len(), 40);
    assert!(draws >= 80 || draws >= 40);
    assert_eq!(draws, draws_again);
    for (a, b) in first.iter().zip(second.iter()) {
        assert_eq!((a.start, a.stop, a.best_split, a.max_gain), (b.start, b.stop, b.best_split, b.max_gain));
        assert!(a.start < a.stop && a.stop <= 100);
    }
    let other = Control::default().with_number_of_wild_segments(40).with_seed(4);
    let (third, _) = wild_segments(&optimizer, &other, 100);
    assert!(first.iter().zip(third.iter()).any(|(a, b)| (a.start, a.stop) != (b.start, b.stop)));
}

#[test]
fn wild_segments_draw_nothing_where_nothing_can_be_split() {
    let control = Control::default().with_minimal_segment_length(50);
    let optimizer = TrivialOptimizer { control: control.clone() };
    let (segments, draws) = wild_segments(&optimizer, &control, 100);
    assert!(segments.is_empty());
    assert_eq!(draws, 0);
}

#[test]
fn seeded_segments_keep_every_split_answered_on_an_interval_of_the_series() {
    let control = Control::default().with_minimal_segment_length(3);
    let optimizer = TrivialOptimizer { control: control.clone() };
    let intervals = vec![(0, 40), (0, 8), (10, 10), (30, 20), (60, 101), (60, 100)];
    let segments = seeded_segments(&optimizer, &control, 100, &intervals);
    let kept: Vec<(usize, usize, usize)> =
        segments.iter().map(|s| (s.start, s.stop, s.best_split)).collect();
    assert_eq!(kept, vec![(0, 40, 10), (0, 8, 2), (60, 100, 70)]);
}

/// An optimizer that finds no split on intervals of fewer than ten
/// observations.
struct ShyOptimizer {
    control: Control,
}

impl Optimizer for ShyOptimizer {
    fn n(&self) -> usize {
        100
    }

    fn find_best_split(&self, start: usize, stop: usize) -> Result<OptimizerResult, SplitError> {
        if stop - start < 10 {
            Err(SplitError::SegmentTooSmall)
        } else {
            Ok(result_on(start, stop, start + 4, (stop - start) as i64))
        }
    }

    fn model_selection(&self, optimizer_result: &OptimizerResult) -> ModelSelectionResult {
        ModelSelectionResult::by_threshold(optimizer_result.max_gain, 15)
    }

    fn control(&self) -> &Control {
        &self.control
    }
}

#[test]
fn seeded_segments_skip_the_intervals_without_a_split() {
    let control = Control::default().with_minimal_segment_length(4);
    let optimizer = ShyOptimizer { control: control.clone() };
    let intervals = vec![(0, 40), (0, 8), (50, 59), (50, 60)];
    let segments = seeded_segments(&optimizer, &control, 100, &intervals);
    let kept: Vec<(usize, usize)> = segments.iter().map(|s| (s.start, s.stop)).collect();
    assert_eq!(kept, vec![(0, 40), (50, 60)]);
    let wild = Control::default().with_minimal_segment_length(4).with_number_of_wild_segments(30);
    let (segments, draws) = wild_segments(&optimizer, &wild, 100);
    assert_eq!(segments.len(), 30);
    assert!(draws > 30);
    assert!(segments.iter().all(|s| s.stop - s.start >= 10 && s.stop <= 100));
}

fn result_on(start: usize, stop: usize, best_split: usize, max_gain: i64) -> OptimizerResult {
    OptimizerResult { start, stop, best_split, max_gain, gain_results: vec![] }
}

#[test]
fn keep_segment_keeps_every_split() {
    let mut segments = vec![];
    assert!(keep_segment(&mut segments, Ok(result_on(0, 10, 5, 1))));
    assert!(keep_segment(&mut segments, Ok(result_on(3, 9, 4, -1))));
    assert!(!keep_segment(&mut segments, Err(SplitError::NoCandidates)));
    assert!(!keep_segment(&mut segments, Err(SplitError::SegmentTooSmall)));
    assert_eq!(segments.len(), 2);
    assert_eq!((segments[1].start, segments[1].stop, segments[1].best_split), (3, 9, 4));
}

#[test]
fn best_nested_is_the_first_of_the_highest_gains_inside() {
    let segments = vec![
        result_on(0, 50, 10, 7),
        result_on(20, 40, 30, 9),
        result_on(25, 35, 30, 9),
        result_on(20, 41, 30, 99),
        result_on(19, 40, 30, 99),
    ];
    assert_eq!(best_nested(&segments, 20, 40, 5), 1);
    assert_eq!(best_nested(&segments, 20, 40, 9), 5);
    assert_eq!(best_nested(&segments, 20, 40, 10), 5);
    assert_eq!(best_nested(&segments, 0, 50, 5), 3);
    assert_eq!(best_nested(&segments, 25, 35, 0), 2);
    assert_eq!(best_nested(&vec![], 0, 50, 5), 0);
}

#[test]
fn find_best_split_appends_the_local_result_in_either_case() {
    let control = Control::default();
    let optimizer = TrivialOptimizer { control };
    let mut segmentation = Segmentation::new(SegmentationType::BS, &optimizer);
    let outer = segmentation.find_best_split(40, 100).unwrap();
    assert_eq!((outer.start, outer.stop, outer.best_split, outer.max_gain), (40, 100, 55, 3000));
    assert_eq!(segmentation.segments.len(), 1);
    // The wider interval scores less than the segment found inside it.
    let wider = segmentation.find_best_split(30, 100).unwrap();
    assert_eq!((wider.start, wider.stop, wider.best_split, wider.max_gain), (40, 100, 55, 3000));
    assert_eq!(segmentation.segments.len(), 2);
    assert_eq!((segmentation.segments[1].start, segmentation.segments[1].stop), (30, 100));
    assert_eq!(segmentation.segments[1].max_gain, 2800);
    // An interval that holds neither segment gets its own result.
    let inner = segmentation.find_best_split(50, 90).unwrap();
    assert_eq!((inner.start, inner.stop, inner.best_split), (50, 90, 60));
    assert_eq!(segmentation.segments.len(), 3);
}

#[test]
fn select_hands_on_errors_and_appends_splits() {
    let control = Control::default();
    let optimizer = TrivialOptimizer { control };
    let mut segmentation = Segmentation::new(SegmentationType::BS, &optimizer);
    assert_eq!(
        segmentation.select(0, 10, Err(SplitError::SegmentTooSmall)).unwrap_err(),
        SplitError::SegmentTooSmall
    );
    assert_eq!(
        segmentation.select(0, 10, Err(SplitError::NoCandidates)).unwrap_err(),
        SplitError::NoCandidates
    );
    assert!(segmentation.segments.is_empty());
    let kept = segmentation.select(2, 8, Ok(result_on(2, 8, 5, 7))).unwrap();
    assert_eq!((kept.start, kept.stop, kept.best_split, kept.max_gain), (2, 8, 5, 7));
    assert_eq!(segmentation.segments.len(), 1);
    // The segment inside the wider interval has the higher gain.
    let wider = segmentation.select(0, 10, Ok(result_on(0, 10, 5, 1))).unwrap();
    assert_eq!((wider.start, wider.stop, wider.best_split, wider.max_gain), (2, 8, 5, 7));
    assert_eq!(segmentation.segments.len(), 2);
    assert_eq!((segmentation.segments[1].start, segmentation.segments[1].stop), (0, 10));
}

#[test]
fn tree_of_the_trivial_optimizer() {
    let control = Control::default();
    let optimizer = TrivialOptimizer { control };
    let mut segmentation = Segmentation::new(SegmentationType::BS, &optimizer);
    let mut tree = BinarySegmentationTree::new(100);
    tree.grow(&mut segmentation);
    // The root stops at 100, so its split at 25 is not significant.
    assert_eq!(tree.optimizer_result.as_ref().unwrap().best_split, 25);
    assert!(!tree.model_selection_result.is_significant);
    assert!(tree.left.is_none() && tree.right.is_none());
    let result = BinarySegmentationResult::from_tree(tree);
    assert_eq!(result.split_points(), vec![]);
    assert!(result.segments.is_none());
    let result = result.with_segments(segmentation);
    assert_eq!(result.segments.as_ref().unwrap().len(), 1);
}

#[test]
fn tree_grows_until_the_optimizer_finds_no_split() {
    let control = Control::default().with_minimal_segment_length(4);
    let optimizer = ShyOptimizer { control };
    let mut segmentation = Segmentation::new(SegmentationType::BS, &optimizer);
    let mut tree = BinarySegmentationTree { start: 0, stop: 48, ..BinarySegmentationTree::new(100) };
    tree.grow(&mut segmentation);
    let result = BinarySegmentationResult::from_tree(tree);
    // A segment of more than fifteen observations splits behind its fourth
    // observation: [0, 48) at 4, [4, 48) at 8, and so on up to [28, 48) at 32.
    // [32, 48) is still split, at 36, but [36, 48) is not: its split at 40 is
    // found and is not significant.
    assert_eq!(result.split_points(), vec![4, 8, 12, 16, 20, 24, 28, 32, 36]);
    let left = result.left.as_ref().unwrap();
    assert_eq!((left.start, left.stop), (0, 4));
    assert!(left.optimizer_result.is_none());
    assert!(!left.model_selection_result.is_significant);
    assert!(left.left.is_none() && left.right.is_none());
    assert!(left.segments.is_none());
    let right = result.right.as_ref().unwrap();
    assert_eq!((right.start, right.stop), (4, 48));
    assert_eq!(right.split_points(), vec![8, 12, 16, 20, 24, 28, 32, 36]);
    assert!(right.segments.is_none());
    let mut last = right;
    while let Some(next) = last.right.as_ref() {
        last = next;
    }
    assert_eq!((last.start, last.stop), (36, 48));
    assert_eq!(last.optimizer_result.as_ref().unwrap().best_split, 40);
    assert!(!last.model_selection_result.is_significant);
}
