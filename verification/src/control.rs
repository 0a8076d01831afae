use vstd::prelude::*;

verus! {

/// The hyperparameters of one run, fixed for a series of known length.
///
/// Lengths are absolute: `minimal_segment_length` is the least number of
/// observations on either side of a split, and `seeded_segments` is the family
/// of auxiliary intervals of seeded binary segmentation, in the order in which
/// they are to be scored.
#[derive(Debug)]
pub struct Control {
    /// No split is proposed closer than this to either end of a segment.
    pub minimal_segment_length: usize,
    /// Number of permutations of a permutation test.
    pub model_selection_n_permutations: usize,
    /// Number of randomly drawn segments that wild binary segmentation keeps.
    pub number_of_wild_segments: usize,
    /// Auxiliary intervals `(start, stop)` of seeded binary segmentation.
    pub seeded_segments: Vec<(usize, usize)>,
    /// Seed of every random draw.
    pub seed: u64,
    /// Intervals `(a, b)`: no split is proposed at `x` with `a < x <= b`.
    pub forbidden_segments: Option<Vec<(usize, usize)>>,
}

pub struct ControlView {
    pub minimal_segment_length: usize,
    pub model_selection_n_permutations: usize,
    pub number_of_wild_segments: usize,
    pub seeded_segments: Seq<(usize, usize)>,
    pub seed: u64,
    pub forbidden_segments: Option<Seq<(usize, usize)>>,
}

impl ControlView {
    /// The forbidden intervals, none where none were given.
    pub open spec fn forbidden(self) -> Seq<(usize, usize)> {
        match self.forbidden_segments {
            Some(segments) => segments,
            None => Seq::empty(),
        }
    }
}

impl View for Control {
    type V = ControlView;

    open spec fn view(&self) -> ControlView {
        ControlView {
            minimal_segment_length: self.minimal_segment_length,
            model_selection_n_permutations: self.model_selection_n_permutations,
            number_of_wild_segments: self.number_of_wild_segments,
            seeded_segments: self.seeded_segments@,
            seed: self.seed,
            forbidden_segments: match self.forbidden_segments {
                Some(segments) => Some(segments@),
                None => None,
            },
        }
    }
}

/// Every interval `(a, b)` has `a <= b`.
pub open spec fn segments_ordered(segments: Seq<(usize, usize)>) -> bool {
    forall|k: int| 0 <= k < segments.len() ==> (#[trigger] segments[k]).0 <= segments[k].1
}

/// Whether every interval `(a, b)` of `segments` has `a <= b`.
pub fn valid_forbidden_segments(segments: &Vec<(usize, usize)>) -> (ok: bool)
    ensures
        ok == segments_ordered(segments@),
{
    let mut k: usize = 0;
    while k < segments.len()
        invariant
            k <= segments.len(),
            forall|j: int| 0 <= j < k ==> (#[trigger] segments@[j]).0 <= segments@[j].1,
        decreases segments.len() - k,
    {
        if segments[k].0 > segments[k].1 {
            return false;
        }
        k += 1;
    }
    true
}

/// A copy of a list of intervals.
pub fn copy_segments(segments: &Vec<(usize, usize)>) -> (copy: Vec<(usize, usize)>)
    ensures
        copy@ == segments@,
{
    let mut copy: Vec<(usize, usize)> = Vec::new();
    let mut k: usize = 0;
    while k < segments.len()
        invariant
            k <= segments.len(),
            copy@ == segments@.take(k as int),
        decreases segments.len() - k,
    {
        copy.push(segments[k]);
        assert(segments@.take(k + 1) == segments@.take(k as int).push(segments@[k as int]));
        k += 1;
    }
    assert(segments@.take(segments.len() as int) == segments@);
    copy
}

impl Clone for Control {
    fn clone(&self) -> (copy: Self)
        ensures
            copy@ == self@,
    {
        Control {
            minimal_segment_length: self.minimal_segment_length,
            model_selection_n_permutations: self.model_selection_n_permutations,
            number_of_wild_segments: self.number_of_wild_segments,
            seeded_segments: copy_segments(&self.seeded_segments),
            seed: self.seed,
            forbidden_segments: match &self.forbidden_segments {
                Some(segments) => Some(copy_segments(segments)),
                None => None,
            },
        }
    }
}

impl Control {
    /// What a valid configuration holds: splits keep at least one observation
    /// on either side, and forbidden intervals are given in order.
    pub open spec fn wf(&self) -> bool {
        &&& self.minimal_segment_length >= 1
        &&& segments_ordered(self@.forbidden())
    }

    #[allow(clippy::should_implement_trait)]
    pub fn default() -> (control: Control)
        ensures
            control.wf(),
            control@ == (ControlView {
                minimal_segment_length: 1,
                model_selection_n_permutations: 199,
                number_of_wild_segments: 100,
                seeded_segments: Seq::empty(),
                seed: 0,
                forbidden_segments: None,
            }),
    {
        Control {
            minimal_segment_length: 1,
            model_selection_n_permutations: 199,
            number_of_wild_segments: 100,
            seeded_segments: Vec::new(),
            seed: 0,
            forbidden_segments: None,
        }
    }

    pub fn with_minimal_segment_length(self, minimal_segment_length: usize) -> (control: Self)
        requires
            minimal_segment_length >= 1,
        ensures
            control@ == (ControlView { minimal_segment_length, ..self@ }),
            self.wf() ==> control.wf(),
    {
        let mut control = self;
        control.minimal_segment_length = minimal_segment_length;
        control
    }

    pub fn with_model_selection_n_permutations(
        self,
        model_selection_n_permutations: usize,
    ) -> (control: Self)
        ensures
            control@ == (ControlView { model_selection_n_permutations, ..self@ }),
            self.wf() ==> control.wf(),
    {
        let mut control = self;
        control.model_selection_n_permutations = model_selection_n_permutations;
        control
    }

    pub fn with_number_of_wild_segments(self, number_of_wild_segments: usize) -> (control: Self)
        ensures
            control@ == (ControlView { number_of_wild_segments, ..self@ }),
            self.wf() ==> control.wf(),
    {
        let mut control = self;
        control.number_of_wild_segments = number_of_wild_segments;
        control
    }

    pub fn with_seeded_segments(self, seeded_segments: Vec<(usize, usize)>) -> (control: Self)
        ensures
            control@ == (ControlView { seeded_segments: seeded_segments@, ..self@ }),
            self.wf() ==> control.wf(),
    {
        let mut control = self;
        control.seeded_segments = seeded_segments;
        control
    }

    pub fn with_seed(self, seed: u64) -> (control: Self)
        ensures
            control@ == (ControlView { seed, ..self@ }),
            self.wf() ==> control.wf(),
    {
        let mut control = self;
        control.seed = seed;
        control
    }

    pub fn with_forbidden_segments(
        self,
        forbidden_segments: Option<Vec<(usize, usize)>>,
    ) -> (control: Self)
        requires
            forbidden_segments matches Some(segments) ==> segments_ordered(segments@),
        ensures
            control@ == (ControlView {
                forbidden_segments: match forbidden_segments {
                    Some(segments) => Some(segments@),
                    None => None,
                },
                ..self@
            }),
            self.wf() ==> control.wf(),
    {
        let mut control = self;
        control.forbidden_segments = forbidden_segments;
        control
    }
}

} // verus!
