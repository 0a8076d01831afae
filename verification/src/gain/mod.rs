mod classifier_gain;
mod gain;
mod gain_result;

pub use classifier_gain::{
    count_true, has_first_step, is_observed_gain, is_test_run, observed_gain, permutation_test,
    PermutationTest,
};
pub use gain::{gain_full, ApproxGain, Gain};
pub use gain_result::{
    copy_gain, copy_rows, copy_scores, ApproxGainResult, ApproxGainResultView, FullGainResult,
    FullGainResultView, GainResult, GainResultView,
};
