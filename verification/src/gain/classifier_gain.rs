use crate::gain::gain_result::{GainResult, GainResultView};
use crate::model_selection_result::PValue;
use crate::optimizer::OptimizerResult;
use crate::random::{is_permutation, sample_permutation, seeded_rng};
use rand::rngs::StdRng;
use vstd::prelude::*;

verus! {

/// `observed` is the highest gain among the fits of the first step: all the
/// curves but the last.
pub open spec fn is_observed_gain(curves: Seq<GainResultView>, observed: i64) -> bool {
    &&& exists|j: int| 0 <= j < curves.len() - 1 && (#[trigger] curves[j]).max_gain() == Some(observed)
    &&& forall|j: int| 0 <= j < curves.len() - 1 ==> (#[trigger] curves[j]).max_gain()->0 <= observed
}

/// Every curve but the last is a classifier fit that names its highest gain.
pub open spec fn has_first_step(curves: Seq<GainResultView>) -> bool {
    &&& curves.len() >= 2
    &&& forall|j: int|
        0 <= j < curves.len() - 1 ==> (#[trigger] curves[j]) is ApproxGainResult
            && curves[j].max_gain() is Some
}

/// The gain that a permutation test compares against: the highest gain among
/// the fits of the first step of the search. There is none where the search
/// left no such fits.
pub fn observed_gain(optimizer_result: &OptimizerResult) -> (observed: Option<i64>)
    ensures
        match observed {
            Some(gain) => has_first_step(optimizer_result@.gain_results) && is_observed_gain(
                optimizer_result@.gain_results,
                gain,
            ),
            None => !has_first_step(optimizer_result@.gain_results),
        },
{
    let curves = &optimizer_result.gain_results;
    let ghost views = optimizer_result@.gain_results;
    if curves.len() < 2 {
        return None;
    }
    let mut observed: i64 = 0;
    let mut j: usize = 0;
    while j < curves.len() - 1
        invariant
            j <= curves.len() - 1,
            curves.len() >= 2,
            views == curves.deep_view(),
            views == optimizer_result@.gain_results,
            forall|i: int|
                0 <= i < j ==> (#[trigger] views[i]) is ApproxGainResult && views[i].max_gain() is Some,
            j > 0 ==> exists|i: int| 0 <= i < j && (#[trigger] views[i]).max_gain() == Some(observed),
            forall|i: int| 0 <= i < j ==> (#[trigger] views[i]).max_gain()->0 <= observed,
        decreases curves.len() - j,
    {
        assert(views[j as int] == curves@[j as int]@);
        let gain = match &curves[j] {
            GainResult::ApproxGainResult(result) => result.max_gain,
            GainResult::FullGainResult(_) => None,
        };
        match gain {
            None => {
                assert(!(views[j as int] is ApproxGainResult && views[j as int].max_gain() is Some));
                return None;
            },
            Some(gain) => {
                if j == 0 || gain > observed {
                    observed = gain;
                }
            },
        }
        j += 1;
    }
    Some(observed)
}

/// A permutation test in progress: it hands out random permutations of the
/// offsets of a segment and counts those on which the permuted gain reached
/// the observed gain.
pub struct PermutationTest {
    rng: StdRng,
    segment_length: usize,
    n_permutations: usize,
    drawn: usize,
    exceeded: usize,
    pending: bool,
    skip: usize,
    take: usize,
}

impl PermutationTest {
    /// No more permutations are counted than were handed out, and no more are
    /// handed out than the test draws in all.
    pub closed spec fn wf(&self) -> bool {
        &&& self.exceeded <= self.drawn <= self.n_permutations < usize::MAX
        &&& self.pending ==> self.exceeded < self.drawn
        &&& self.segment_length <= 0xFFFF_FFFF
    }

    /// Number of offsets that each permutation rearranges.
    pub closed spec fn spec_segment_length(&self) -> usize {
        self.segment_length
    }

    /// Number of permutations that the test draws in all.
    pub closed spec fn spec_n_permutations(&self) -> usize {
        self.n_permutations
    }

    /// Number of permutations handed out so far.
    pub closed spec fn spec_drawn(&self) -> usize {
        self.drawn
    }

    /// Number of permutations counted so far as reaching the observed gain.
    pub closed spec fn spec_exceeded(&self) -> usize {
        self.exceeded
    }

    /// The last permutation handed out has not been counted.
    pub closed spec fn spec_pending(&self) -> bool {
        self.pending
    }

    /// Number of leading steps of a permutation at which nothing is compared.
    pub closed spec fn spec_skip(&self) -> usize {
        self.skip
    }

    /// Number of steps, after the leading ones, at which the gain is compared.
    pub closed spec fn spec_take(&self) -> usize {
        self.take
    }

    /// A test of `n_permutations` permutations of a segment of
    /// `segment_length` observations.
    ///
    /// The walk along a permutation imitates the candidate splits: with
    /// `delta` the minimal segment length, its first `delta - 1` steps are not
    /// compared, its last `delta - 1` steps are not walked, and the
    /// `segment_length - 2 * delta + 2` steps between them are compared.
    pub fn new(
        seed: u64,
        n_permutations: usize,
        segment_length: usize,
        minimal_segment_length: usize,
    ) -> (test: PermutationTest)
        requires
            n_permutations < usize::MAX,
            segment_length <= 0xFFFF_FFFF,
            minimal_segment_length >= 1,
            2 * minimal_segment_length <= segment_length + 2,
        ensures
            test.wf(),
            test.spec_segment_length() == segment_length,
            test.spec_n_permutations() == n_permutations,
            test.spec_drawn() == 0,
            test.spec_exceeded() == 0,
            !test.spec_pending(),
            test.spec_skip() == minimal_segment_length - 1,
            test.spec_take() == segment_length - 2 * minimal_segment_length + 2,
    {
        PermutationTest {
            rng: seeded_rng(seed),
            segment_length,
            n_permutations,
            drawn: 0,
            exceeded: 0,
            pending: false,
            skip: minimal_segment_length - 1,
            take: segment_length - (minimal_segment_length - 1) - (minimal_segment_length - 1),
        }
    }

    /// Number of leading steps of a permutation at which nothing is compared.
    pub fn skip(&self) -> (skip: usize)
        ensures
            skip == self.spec_skip(),
    {
        self.skip
    }

    /// Number of steps, after the leading ones, at which the gain is compared.
    pub fn take(&self) -> (take: usize)
        ensures
            take == self.spec_take(),
    {
        self.take
    }

    /// The next permutation of the offsets of the segment, or `None` when all
    /// permutations of the test have been handed out.
    pub fn next_permutation(&mut self) -> (permutation: Option<Vec<usize>>)
        requires
            old(self).wf(),
        ensures
            final(self).wf(),
            final(self).spec_segment_length() == old(self).spec_segment_length(),
            final(self).spec_n_permutations() == old(self).spec_n_permutations(),
            final(self).spec_skip() == old(self).spec_skip(),
            final(self).spec_take() == old(self).spec_take(),
            final(self).spec_exceeded() == old(self).spec_exceeded(),
            match permutation {
                Some(indices) => {
                    &&& old(self).spec_drawn() < old(self).spec_n_permutations()
                    &&& final(self).spec_drawn() == old(self).spec_drawn() + 1
                    &&& final(self).spec_pending()
                    &&& is_permutation(indices@, old(self).spec_segment_length() as int)
                },
                None => {
                    &&& old(self).spec_drawn() == old(self).spec_n_permutations()
                    &&& final(self).spec_drawn() == old(self).spec_drawn()
                    &&& final(self).spec_pending() == old(self).spec_pending()
                },
            },
    {
        if self.drawn >= self.n_permutations {
            return None;
        }
        let indices = sample_permutation(&mut self.rng, self.segment_length);
        self.drawn = self.drawn + 1;
        self.pending = true;
        Some(indices)
    }

    /// Counts the last permutation handed out as one on which the permuted
    /// gain reached the observed gain. A permutation is counted once.
    pub fn record_exceedance(&mut self)
        requires
            old(self).wf(),
        ensures
            final(self).wf(),
            final(self).spec_segment_length() == old(self).spec_segment_length(),
            final(self).spec_n_permutations() == old(self).spec_n_permutations(),
            final(self).spec_skip() == old(self).spec_skip(),
            final(self).spec_take() == old(self).spec_take(),
            final(self).spec_drawn() == old(self).spec_drawn(),
            !final(self).spec_pending(),
            final(self).spec_exceeded() == old(self).spec_exceeded() + if old(self).spec_pending() {
                1int
            } else {
                0int
            },
    {
        if self.pending {
            self.exceeded = self.exceeded + 1;
            self.pending = false;
        }
    }

    /// The p-value of the test: the counted permutations and the observed
    /// order itself, among all permutations and the observed order.
    pub fn p_value(&self) -> (p_value: PValue)
        requires
            self.wf(),
        ensures
            p_value.numerator == self.spec_exceeded() + 1,
            p_value.denominator == self.spec_n_permutations() + 1,
            p_value.wf(),
    {
        PValue { numerator: self.exceeded + 1, denominator: self.n_permutations + 1 }
    }
}

/// The number of `true` among `outcomes`.
pub open spec fn count_true(outcomes: Seq<bool>) -> nat
    decreases outcomes.len(),
{
    if outcomes.len() == 0 {
        0
    } else {
        count_true(outcomes.drop_last()) + if outcomes.last() {
            1nat
        } else {
            0nat
        }
    }
}

/// `outcomes` are the answers of `reaches` on `permutations`, which are
/// permutations of the offsets of a segment of `segment_length` observations.
pub open spec fn is_test_run<F: Fn(&Vec<usize>, usize, usize) -> bool>(
    reaches: F,
    segment_length: usize,
    skip: usize,
    take: usize,
    permutations: Seq<Vec<usize>>,
    outcomes: Seq<bool>,
) -> bool {
    &&& permutations.len() == outcomes.len()
    &&& forall|i: int|
        0 <= i < permutations.len() ==> {
            &&& is_permutation((#[trigger] permutations[i])@, segment_length as int)
            &&& call_ensures(reaches, (&permutations[i], skip, take), outcomes[i])
        }
}

/// The p-value of a permutation test of `n_permutations` permutations of a
/// segment of `segment_length` observations.
///
/// `reaches` is asked of each permutation in turn whether the permuted gain
/// reaches the observed gain on it; it is handed the permutation, the number
/// `delta - 1` of leading steps at which nothing is compared, and the number
/// `segment_length - 2 * delta + 2` of steps at which the gain is compared.
/// The p-value counts the permutations of which
/// it says so, and the observed order itself, among all permutations and the
/// observed order.
pub fn permutation_test<F: Fn(&Vec<usize>, usize, usize) -> bool>(
    seed: u64,
    n_permutations: usize,
    segment_length: usize,
    minimal_segment_length: usize,
    reaches: F,
) -> (p_value: PValue)
    requires
        n_permutations < usize::MAX,
        segment_length <= 0xFFFF_FFFF,
        minimal_segment_length >= 1,
        2 * minimal_segment_length <= segment_length + 2,
        forall|permutation: &Vec<usize>|
            is_permutation(permutation@, segment_length as int) ==> call_requires(
                reaches,
                (
                    permutation,
                    (minimal_segment_length - 1) as usize,
                    (segment_length - 2 * minimal_segment_length + 2) as usize,
                ),
            ),
    ensures
        p_value.wf(),
        p_value.denominator == n_permutations + 1,
        exists|permutations: Seq<Vec<usize>>, outcomes: Seq<bool>|
            {
                &&& #[trigger] is_test_run(
                    reaches,
                    segment_length,
                    (minimal_segment_length - 1) as usize,
                    (segment_length - 2 * minimal_segment_length + 2) as usize,
                    permutations,
                    outcomes,
                )
                &&& outcomes.len() == n_permutations
                &&& p_value.numerator == 1 + count_true(outcomes)
            },
{
    let mut test = PermutationTest::new(
        seed,
        n_permutations,
        segment_length,
        minimal_segment_length,
    );
    let ghost skip = (minimal_segment_length - 1) as usize;
    let ghost take = (segment_length - 2 * minimal_segment_length + 2) as usize;
    let ghost mut permutations: Seq<Vec<usize>> = Seq::empty();
    let ghost mut outcomes: Seq<bool> = Seq::empty();
    let mut done = false;
    while !done
        invariant
            test.wf(),
            test.spec_segment_length() == segment_length,
            test.spec_n_permutations() == n_permutations,
            test.spec_skip() == skip,
            test.spec_take() == take,
            forall|permutation: &Vec<usize>|
                is_permutation(permutation@, segment_length as int) ==> call_requires(
                    reaches,
                    (permutation, skip, take),
                ),
            is_test_run(reaches, segment_length, skip, take, permutations, outcomes),
            outcomes.len() == test.spec_drawn(),
            test.spec_exceeded() == count_true(outcomes),
            done ==> test.spec_drawn() == n_permutations,
        decreases
                n_permutations - test.spec_drawn() + if done {
                    0int
                } else {
                    1int
                },
    {
        match test.next_permutation() {
            None => {
                done = true;
            },
            Some(permutation) => {
                let outcome = reaches(&permutation, test.skip(), test.take());
                if outcome {
                    test.record_exceedance();
                }
                proof {
                    let ghost before = outcomes;
                    permutations = permutations.push(permutation);
                    outcomes = outcomes.push(outcome);
                    assert(outcomes.drop_last() =~= before);
                }
            },
        }
    }
    test.p_value()
}

} // verus!
