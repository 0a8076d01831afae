use vstd::prelude::*;

verus! {

/// The gain curve of one classifier fit at `guess`, over the offsets of
/// `[start, stop)`, with the likelihoods and predictions it was made from.
///
/// `gain[i]` is the score of a split at `start + i`; `None` marks an offset
/// that was not scored. `likelihoods` has two rows, one per hypothesis.
#[derive(Debug)]
pub struct ApproxGainResult {
    pub start: usize,
    pub stop: usize,
    pub guess: usize,
    pub gain: Vec<Option<i64>>,
    pub max_gain: Option<i64>,
    pub best_split: Option<usize>,
    pub likelihoods: Vec<Vec<i64>>,
    pub predictions: Vec<i64>,
}

/// The gain of each candidate split of `[start, stop)`, scored one by one.
#[derive(Debug)]
pub struct FullGainResult {
    pub start: usize,
    pub stop: usize,
    pub max_gain: Option<i64>,
    pub best_split: Option<usize>,
    pub gain: Vec<Option<i64>>,
}

#[derive(Debug)]
pub enum GainResult {
    ApproxGainResult(ApproxGainResult),
    FullGainResult(FullGainResult),
}

pub struct ApproxGainResultView {
    pub start: usize,
    pub stop: usize,
    pub guess: usize,
    pub gain: Seq<Option<i64>>,
    pub max_gain: Option<i64>,
    pub best_split: Option<usize>,
    pub likelihoods: Seq<Seq<i64>>,
    pub predictions: Seq<i64>,
}

pub struct FullGainResultView {
    pub start: usize,
    pub stop: usize,
    pub max_gain: Option<i64>,
    pub best_split: Option<usize>,
    pub gain: Seq<Option<i64>>,
}

pub enum GainResultView {
    ApproxGainResult(ApproxGainResultView),
    FullGainResult(FullGainResultView),
}

impl View for ApproxGainResult {
    type V = ApproxGainResultView;

    open spec fn view(&self) -> ApproxGainResultView {
        ApproxGainResultView {
            start: self.start,
            stop: self.stop,
            guess: self.guess,
            gain: self.gain@,
            max_gain: self.max_gain,
            best_split: self.best_split,
            likelihoods: self.likelihoods.deep_view(),
            predictions: self.predictions@,
        }
    }
}

impl View for FullGainResult {
    type V = FullGainResultView;

    open spec fn view(&self) -> FullGainResultView {
        FullGainResultView {
            start: self.start,
            stop: self.stop,
            max_gain: self.max_gain,
            best_split: self.best_split,
            gain: self.gain@,
        }
    }
}

impl View for GainResult {
    type V = GainResultView;

    open spec fn view(&self) -> GainResultView {
        match self {
            GainResult::ApproxGainResult(result) => GainResultView::ApproxGainResult(result@),
            GainResult::FullGainResult(result) => GainResultView::FullGainResult(result@),
        }
    }
}

impl GainResultView {
    pub open spec fn start(self) -> usize {
        match self {
            GainResultView::ApproxGainResult(result) => result.start,
            GainResultView::FullGainResult(result) => result.start,
        }
    }

    pub open spec fn stop(self) -> usize {
        match self {
            GainResultView::ApproxGainResult(result) => result.stop,
            GainResultView::FullGainResult(result) => result.stop,
        }
    }

    pub open spec fn max_gain(self) -> Option<i64> {
        match self {
            GainResultView::ApproxGainResult(result) => result.max_gain,
            GainResultView::FullGainResult(result) => result.max_gain,
        }
    }

    pub open spec fn best_split(self) -> Option<usize> {
        match self {
            GainResultView::ApproxGainResult(result) => result.best_split,
            GainResultView::FullGainResult(result) => result.best_split,
        }
    }

    pub open spec fn gain(self) -> Seq<Option<i64>> {
        match self {
            GainResultView::ApproxGainResult(result) => result.gain,
            GainResultView::FullGainResult(result) => result.gain,
        }
    }

    pub open spec fn guess(self) -> Option<usize> {
        match self {
            GainResultView::ApproxGainResult(result) => Some(result.guess),
            GainResultView::FullGainResult(_) => None,
        }
    }
}

/// A copy of a vector of optional scores.
pub fn copy_gain(gain: &Vec<Option<i64>>) -> (copy: Vec<Option<i64>>)
    ensures
        copy@ == gain@,
{
    let mut copy: Vec<Option<i64>> = Vec::new();
    let mut i: usize = 0;
    while i < gain.len()
        invariant
            i <= gain.len(),
            copy@ == gain@.take(i as int),
        decreases gain.len() - i,
    {
        copy.push(gain[i]);
        assert(gain@.take(i + 1) == gain@.take(i as int).push(gain@[i as int]));
        i += 1;
    }
    assert(gain@.take(gain.len() as int) == gain@);
    copy
}

/// A copy of a vector of scores.
pub fn copy_scores(scores: &Vec<i64>) -> (copy: Vec<i64>)
    ensures
        copy@ == scores@,
{
    let mut copy: Vec<i64> = Vec::new();
    let mut i: usize = 0;
    while i < scores.len()
        invariant
            i <= scores.len(),
            copy@ == scores@.take(i as int),
        decreases scores.len() - i,
    {
        copy.push(scores[i]);
        assert(scores@.take(i + 1) == scores@.take(i as int).push(scores@[i as int]));
        i += 1;
    }
    assert(scores@.take(scores.len() as int) == scores@);
    copy
}

/// A copy of a matrix of scores, row by row.
pub fn copy_rows(rows: &Vec<Vec<i64>>) -> (copy: Vec<Vec<i64>>)
    ensures
        copy.deep_view() == rows.deep_view(),
{
    let mut copy: Vec<Vec<i64>> = Vec::new();
    let mut i: usize = 0;
    while i < rows.len()
        invariant
            i <= rows.len(),
            copy.len() == i,
            forall|j: int| 0 <= j < i ==> copy@[j]@ == rows@[j]@,
        decreases rows.len() - i,
    {
        copy.push(copy_scores(&rows[i]));
        i += 1;
    }
    assert(copy.deep_view() =~= rows.deep_view()) by {
        assert forall|j: int| 0 <= j < rows.len() implies #[trigger] copy.deep_view()[j]
            == rows.deep_view()[j] by {
            assert(copy.deep_view()[j] =~= copy@[j]@);
            assert(rows.deep_view()[j] =~= rows@[j]@);
        }
    }
    copy
}

impl Clone for ApproxGainResult {
    fn clone(&self) -> (copy: Self)
        ensures
            copy@ == self@,
    {
        ApproxGainResult {
            start: self.start,
            stop: self.stop,
            guess: self.guess,
            gain: copy_gain(&self.gain),
            max_gain: self.max_gain,
            best_split: self.best_split,
            likelihoods: copy_rows(&self.likelihoods),
            predictions: copy_scores(&self.predictions),
        }
    }
}

impl Clone for FullGainResult {
    fn clone(&self) -> (copy: Self)
        ensures
            copy@ == self@,
    {
        FullGainResult {
            start: self.start,
            stop: self.stop,
            max_gain: self.max_gain,
            best_split: self.best_split,
            gain: copy_gain(&self.gain),
        }
    }
}

impl Clone for GainResult {
    fn clone(&self) -> (copy: Self)
        ensures
            copy@ == self@,
    {
        match self {
            GainResult::ApproxGainResult(result) => GainResult::ApproxGainResult(result.clone()),
            GainResult::FullGainResult(result) => GainResult::FullGainResult(result.clone()),
        }
    }
}

impl GainResult {
    pub fn start(&self) -> (start: usize)
        ensures
            start == self@.start(),
    {
        match self {
            GainResult::ApproxGainResult(result) => result.start,
            GainResult::FullGainResult(result) => result.start,
        }
    }

    pub fn stop(&self) -> (stop: usize)
        ensures
            stop == self@.stop(),
    {
        match self {
            GainResult::ApproxGainResult(result) => result.stop,
            GainResult::FullGainResult(result) => result.stop,
        }
    }

    pub fn max_gain(&self) -> (max_gain: Option<i64>)
        ensures
            max_gain == self@.max_gain(),
    {
        match self {
            GainResult::ApproxGainResult(result) => result.max_gain,
            GainResult::FullGainResult(result) => result.max_gain,
        }
    }

    pub fn best_split(&self) -> (best_split: Option<usize>)
        ensures
            best_split == self@.best_split(),
    {
        match self {
            GainResult::ApproxGainResult(result) => result.best_split,
            GainResult::FullGainResult(result) => result.best_split,
        }
    }

    pub fn gain(&self) -> (gain: &Vec<Option<i64>>)
        ensures
            gain@ == self@.gain(),
    {
        match self {
            GainResult::ApproxGainResult(result) => &result.gain,
            GainResult::FullGainResult(result) => &result.gain,
        }
    }

    pub fn guess(&self) -> (guess: Option<usize>)
        ensures
            guess == self@.guess(),
    {
        match self {
            GainResult::ApproxGainResult(result) => Some(result.guess),
            GainResult::FullGainResult(_) => None,
        }
    }

    pub fn likelihoods(&self) -> (likelihoods: Option<&Vec<Vec<i64>>>)
        ensures
            match self@ {
                GainResultView::ApproxGainResult(result) => likelihoods matches Some(rows)
                    && rows.deep_view() == result.likelihoods,
                GainResultView::FullGainResult(_) => likelihoods is None,
            },
    {
        match self {
            GainResult::ApproxGainResult(result) => Some(&result.likelihoods),
            GainResult::FullGainResult(_) => None,
        }
    }

    pub fn predictions(&self) -> (predictions: Option<&Vec<i64>>)
        ensures
            match self@ {
                GainResultView::ApproxGainResult(result) => predictions matches Some(values)
                    && values@ == result.predictions,
                GainResultView::FullGainResult(_) => predictions is None,
            },
    {
        match self {
            GainResult::ApproxGainResult(result) => Some(&result.predictions),
            GainResult::FullGainResult(_) => None,
        }
    }
}

} // verus!
