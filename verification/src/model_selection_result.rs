use vstd::prelude::*;

verus! {

/// A p-value kept as the exact ratio `numerator / denominator` of two counts.
#[derive(Clone, Copy, Debug)]
pub struct PValue {
    pub numerator: usize,
    pub denominator: usize,
}

impl PValue {
    /// A p-value is a positive ratio that does not exceed one.
    pub open spec fn wf(&self) -> bool {
        1 <= self.numerator <= self.denominator
    }
}

/// The verdict of a significance test on one proposed split.
#[derive(Clone, Copy, Debug)]
pub struct ModelSelectionResult {
    pub is_significant: bool,
    pub p_value: Option<PValue>,
}

impl ModelSelectionResult {
    /// The verdict of a threshold: a split is significant if and only if its
    /// gain exceeds `minimal_gain_to_split`. It comes without a p-value.
    pub fn by_threshold(max_gain: i64, minimal_gain_to_split: i64) -> (result: Self)
        ensures
            result.is_significant == (max_gain > minimal_gain_to_split),
            result.p_value is None,
    {
        ModelSelectionResult { is_significant: max_gain > minimal_gain_to_split, p_value: None }
    }
}

impl Default for ModelSelectionResult {
    /// Nothing is significant until a test has said so.
    fn default() -> (result: Self)
        ensures
            !result.is_significant,
            result.p_value is None,
    {
        ModelSelectionResult { is_significant: false, p_value: None }
    }
}

} // verus!
