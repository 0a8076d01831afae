use vstd::prelude::*;

verus! {

/// The exact ratio `numerator / denominator` of two counts.
#[derive(Clone, Copy, Debug, PartialEq, Eq, Structural)]
pub struct Ratio {
    pub numerator: usize,
    pub denominator: usize,
}

/// The factors that scale a prediction before its likelihood is taken, for a
/// split of `[start, stop)` at `split`.
///
/// An observation is left out of its own prediction. So under the hypothesis
/// that it lies left of the split, an observation before the split has
/// `split - start - 1` others on its side, and one behind the split would have
/// `split - start`; likewise on the right. Each factor is the number of other
/// observations of the segment over the number of those on the side.
#[derive(Clone, Copy, Debug, PartialEq, Eq, Structural)]
pub struct Priors {
    /// Left hypothesis, observation before the split.
    pub left_before: Ratio,
    /// Left hypothesis, observation at or behind the split.
    pub left_behind: Ratio,
    /// Right hypothesis, observation before the split.
    pub right_before: Ratio,
    /// Right hypothesis, observation at or behind the split.
    pub right_behind: Ratio,
}

/// A side of the split holds more than one observation.
pub open spec fn has_two_on_each_side(start: usize, stop: usize, split: usize) -> bool {
    split - start > 1 && stop - split > 1
}

impl Priors {
    /// The factors for a split of `[start, stop)` at `split`, or `None` where a
    /// side of the split holds one observation or none: such a split has no
    /// likelihood.
    pub fn new(start: usize, stop: usize, split: usize) -> (priors: Option<Priors>)
        requires
            start <= split <= stop,
        ensures
            priors is Some <==> has_two_on_each_side(start, stop, split),
            priors matches Some(p) ==> {
                &&& p.left_before == (Ratio {
                    numerator: (stop - start - 1) as usize,
                    denominator: (split - start - 1) as usize,
                })
                &&& p.left_behind == (Ratio {
                    numerator: (stop - start - 1) as usize,
                    denominator: (split - start) as usize,
                })
                &&& p.right_before == (Ratio {
                    numerator: (stop - start - 1) as usize,
                    denominator: (stop - split) as usize,
                })
                &&& p.right_behind == (Ratio {
                    numerator: (stop - start - 1) as usize,
                    denominator: (stop - split - 1) as usize,
                })
            },
    {
        if (stop - split <= 1) || (split - start <= 1) {
            return None;
        }
        let others = stop - start - 1;
        Some(
            Priors {
                left_before: Ratio { numerator: others, denominator: split - start - 1 },
                left_behind: Ratio { numerator: others, denominator: split - start },
                right_before: Ratio { numerator: others, denominator: stop - split },
                right_behind: Ratio { numerator: others, denominator: stop - split - 1 },
            },
        )
    }
}

/// The prediction that stands in for an observation before the split that a
/// learner could not score, for a split of `[start, stop)` at `split`: the
/// share of observations behind the split among the others of the segment.
pub fn prior_before(start: usize, stop: usize, split: usize) -> (prior: Ratio)
    requires
        start <= split <= stop,
        start < stop,
    ensures
        prior == (Ratio {
            numerator: (stop - split) as usize,
            denominator: (stop - start - 1) as usize,
        }),
{
    Ratio { numerator: stop - split, denominator: stop - start - 1 }
}

/// The prediction that stands in for an observation at or behind the split
/// that a learner could not score, for a split of `[start, stop)` at `split`:
/// the share of the other observations behind the split among the others of
/// the segment.
pub fn prior_behind(start: usize, stop: usize, split: usize) -> (prior: Ratio)
    requires
        start <= split < stop,
    ensures
        prior == (Ratio {
            numerator: (stop - split - 1) as usize,
            denominator: (stop - start - 1) as usize,
        }),
{
    Ratio { numerator: stop - split - 1, denominator: stop - start - 1 }
}

} // verus!
