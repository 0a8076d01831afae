mod grid_search;
mod optimizer;
mod optimizer_result;
mod two_step_search;

pub use grid_search::{grid_search_result, is_grid_search_result, GridSearch};
pub use optimizer::{
    all_scored, best_candidate, in_forbidden_segment, is_best_split, is_first_best, is_forbidden,
    first_position, is_split_candidate, lemma_split_candidates, positions, score_at,
    segment_too_small, spec_split_candidates, split_candidates, Optimizer, SplitError,
};
pub use optimizer_result::{OptimizerResult, OptimizerResultView};
pub use two_step_search::{
    are_fit_outcomes, contains_split, first_guesses, is_fit_of, is_fit_outcome, is_scored_curve,
    is_scored_outcome, is_two_step_result,
    lemma_scored_curve_names_candidate, preferred, present, scored_approx_gain,
    spec_first_guesses, spec_preferred, step_gain, TwoStepSearch,
};
