use crate::gain::{GainResult, GainResultView};
use vstd::prelude::*;

verus! {

/// The best split that an optimizer found on `[start, stop)`, with the gain
/// curves it looked at on the way.
#[derive(Debug)]
pub struct OptimizerResult {
    pub start: usize,
    pub stop: usize,
    pub best_split: usize,
    pub max_gain: i64,
    pub gain_results: Vec<GainResult>,
}

pub struct OptimizerResultView {
    pub start: usize,
    pub stop: usize,
    pub best_split: usize,
    pub max_gain: i64,
    pub gain_results: Seq<GainResultView>,
}

impl View for OptimizerResult {
    type V = OptimizerResultView;

    open spec fn view(&self) -> OptimizerResultView {
        OptimizerResultView {
            start: self.start,
            stop: self.stop,
            best_split: self.best_split,
            max_gain: self.max_gain,
            gain_results: self.gain_results.deep_view(),
        }
    }
}

impl DeepView for OptimizerResult {
    type V = OptimizerResultView;

    open spec fn deep_view(&self) -> OptimizerResultView {
        self@
    }
}

impl DeepView for GainResult {
    type V = GainResultView;

    open spec fn deep_view(&self) -> GainResultView {
        self@
    }
}

impl OptimizerResultView {
    /// The split lies inside the interval, and the last of the gain curves
    /// reports the same split and gain.
    pub open spec fn wf(self) -> bool {
        &&& self.start <= self.best_split < self.stop
        &&& self.gain_results.len() > 0
        &&& self.gain_results.last().best_split() == Some(self.best_split)
        &&& self.gain_results.last().max_gain() == Some(self.max_gain)
    }
}

impl Clone for OptimizerResult {
    fn clone(&self) -> (copy: Self)
        ensures
            copy@ == self@,
    {
        let mut gain_results: Vec<GainResult> = Vec::new();
        let mut i: usize = 0;
        while i < self.gain_results.len()
            invariant
                i <= self.gain_results.len(),
                gain_results.len() == i,
                forall|j: int| 0 <= j < i ==> gain_results@[j]@ == self.gain_results@[j]@,
            decreases self.gain_results.len() - i,
        {
            gain_results.push(self.gain_results[i].clone());
            i += 1;
        }
        assert(gain_results.deep_view() =~= self.gain_results.deep_view());
        OptimizerResult {
            start: self.start,
            stop: self.stop,
            best_split: self.best_split,
            max_gain: self.max_gain,
            gain_results,
        }
    }
}

} // verus!
