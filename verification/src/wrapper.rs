use crate::binary_segmentation::{
    is_grown, lemma_split_points_increasing, BinarySegmentationResult, BinarySegmentationTree,
};
use crate::control::ControlView;
use crate::optimizer::{Optimizer, OptimizerResultView};
use crate::segmentation::{
    are_auxiliary_segments, is_control_of, Segmentation, SegmentationType,
};
use vstd::prelude::*;
use vstd::string::StringExecFns;

verus! {

/// Which gain scores the splits.
#[derive(Clone, Copy, Debug, PartialEq, Eq, Structural)]
pub enum Method {
    /// The classifier gain of a nearest-neighbour classifier.
    Knn,
    /// The classifier gain of a random forest.
    RandomForest,
    /// The parametric gain of a change in mean.
    ChangeInMean,
}

/// A name that is none of those on offer.
#[derive(Clone, Copy, Debug, PartialEq, Eq, Structural)]
pub enum ConfigError {
    /// The method is none of `knn`, `random_forest`, `change_in_mean`.
    InvalidMethod,
    /// The segmentation type is none of `bs`, `sbs`, `wbs`.
    InvalidSegmentationType,
}

/// Whether two strings hold the same characters.
fn str_eq(a: &str, b: &str) -> (equal: bool)
    ensures
        equal == (a@ == b@),
{
    String::from_str(a) == String::from_str(b)
}

impl Method {
    /// The method that `name` stands for.
    pub fn from_name(name: &str) -> (method: Result<Method, ConfigError>)
        ensures
            name@ == "knn"@ <==> method == Ok::<Method, ConfigError>(Method::Knn),
            name@ == "random_forest"@ <==> method == Ok::<Method, ConfigError>(Method::RandomForest),
            name@ == "change_in_mean"@ <==> method == Ok::<Method, ConfigError>(
                Method::ChangeInMean,
            ),
            method is Err ==> method == Err::<Method, ConfigError>(ConfigError::InvalidMethod),
    {
        proof {
            reveal_strlit("knn");
            reveal_strlit("random_forest");
            reveal_strlit("change_in_mean");
            assert("knn"@.len() == 3);
            assert("random_forest"@.len() == 13);
            assert("change_in_mean"@.len() == 14);
        }
        if str_eq(name, "knn") {
            Ok(Method::Knn)
        } else if str_eq(name, "random_forest") {
            Ok(Method::RandomForest)
        } else if str_eq(name, "change_in_mean") {
            Ok(Method::ChangeInMean)
        } else {
            Err(ConfigError::InvalidMethod)
        }
    }
}

impl SegmentationType {
    /// The segmentation type that `name` stands for, if it stands for one.
    pub open spec fn named(name: Seq<char>) -> Option<SegmentationType> {
        if name == "bs"@ {
            Some(SegmentationType::BS)
        } else if name == "sbs"@ {
            Some(SegmentationType::SBS)
        } else if name == "wbs"@ {
            Some(SegmentationType::WBS)
        } else {
            None
        }
    }

    /// The segmentation type that `name` stands for.
    pub fn from_name(name: &str) -> (segmentation_type: Result<SegmentationType, ConfigError>)
        ensures
            name@ == "bs"@ <==> segmentation_type == Ok::<SegmentationType, ConfigError>(
                SegmentationType::BS,
            ),
            name@ == "sbs"@ <==> segmentation_type == Ok::<SegmentationType, ConfigError>(
                SegmentationType::SBS,
            ),
            name@ == "wbs"@ <==> segmentation_type == Ok::<SegmentationType, ConfigError>(
                SegmentationType::WBS,
            ),
            segmentation_type is Err ==> segmentation_type == Err::<SegmentationType, ConfigError>(
                ConfigError::InvalidSegmentationType,
            ),
            match segmentation_type {
                Ok(found) => SegmentationType::named(name@) == Some(found),
                Err(_) => SegmentationType::named(name@) is None,
            },
    {
        proof {
            reveal_strlit("bs");
            reveal_strlit("sbs");
            reveal_strlit("wbs");
            assert("bs"@.len() == 2);
            assert("sbs"@[0] == 's');
            assert("wbs"@[0] == 'w');
        }
        if str_eq(name, "bs") {
            Ok(SegmentationType::BS)
        } else if str_eq(name, "sbs") {
            Ok(SegmentationType::SBS)
        } else if str_eq(name, "wbs") {
            Ok(SegmentationType::WBS)
        } else {
            Err(ConfigError::InvalidSegmentationType)
        }
    }
}

/// The tree of splits of the whole series that `optimizer` scores, grown with
/// the auxiliary segments of the named segmentation type, which come attached
/// to the root of the result.
///
/// The series has the length that the optimizer answers, and the tree is what
/// growth makes of the optimizer's answers, from the auxiliary segments on.
/// Its change points lie inside the series and come in strictly increasing
/// order. Fails where `segmentation_type` is none of `bs`, `sbs`, `wbs`.
pub fn changeforest<O: Optimizer>(optimizer: &O, segmentation_type: &str) -> (result: Result<
    BinarySegmentationResult,
    ConfigError,
>)
    ensures
        match result {
            Ok(tree) => {
                &&& SegmentationType::named(segmentation_type@) is Some
                &&& tree.start == 0
                &&& tree.segments is Some
                &&& tree.below_has_no_segments()
                &&& exists|
                    grown: BinarySegmentationTree,
                    control: ControlView,
                    n: usize,
                    auxiliary: Seq<OptimizerResultView>,
                |
                    {
                        &&& #[trigger] is_run(
                            SegmentationType::named(segmentation_type@)->0,
                            optimizer,
                            grown,
                            control,
                            n,
                            auxiliary,
                            tree.segments->0.deep_view(),
                        )
                        &&& tree@ == grown@
                    }
                &&& forall|i: int|
                    0 <= i < tree@.split_points().len() ==> 0 < (#[trigger] tree@.split_points()[i])
                        < tree.stop
                &&& forall|i: int, j: int|
                    0 <= i < j < tree@.split_points().len() ==> tree@.split_points()[i]
                        < tree@.split_points()[j]
            },
            Err(error) => {
                &&& error == ConfigError::InvalidSegmentationType
                &&& SegmentationType::named(segmentation_type@) is None
            },
        },
{
    let segmentation_type_enum = match SegmentationType::from_name(segmentation_type) {
        Ok(segmentation_type_enum) => segmentation_type_enum,
        Err(error) => {
            return Err(error);
        },
    };
    let mut segmentation = Segmentation::new(segmentation_type_enum, optimizer);
    let ghost auxiliary = segmentation.segments.deep_view();
    let mut tree = BinarySegmentationTree::new(segmentation.n);
    tree.grow(&mut segmentation);
    let ghost grown = tree;
    proof {
        lemma_split_points_increasing(tree@, segmentation.control@);
    }
    let ghost after = segmentation.segments.deep_view();
    let ghost control = segmentation.control@;
    let ghost n = segmentation.n;
    let bare = BinarySegmentationResult::from_tree(tree);
    let result = bare.with_segments(segmentation);
    proof {
        assert(bare.below_has_no_segments());
        assert(result.below_has_no_segments());
        assert(result.segments->0.deep_view() == after);
        assert(result@ == grown@);
        assert(is_run(
            SegmentationType::named(segmentation_type@)->0,
            optimizer,
            grown,
            control,
            n,
            auxiliary,
            result.segments->0.deep_view(),
        ));
    }
    Ok(result)
}

/// `grown` is the tree of a run on the whole series: the series has the
/// length `n` and the run the hyperparameters `control` that the optimizer
/// answers, `auxiliary` are the auxiliary segments of the segmentation type,
/// and `grown` is what growth makes of the root from them, which leaves the
/// segments `after`.
pub open spec fn is_run<O: Optimizer>(
    segmentation_type: SegmentationType,
    optimizer: &O,
    grown: BinarySegmentationTree,
    control: ControlView,
    n: usize,
    auxiliary: Seq<OptimizerResultView>,
    after: Seq<OptimizerResultView>,
) -> bool {
    &&& call_ensures(O::n, (optimizer,), n)
    &&& is_control_of(optimizer, control)
    &&& are_auxiliary_segments(segmentation_type, optimizer, control, n, auxiliary)
    &&& grown.start == 0
    &&& grown.stop == n
    &&& grown.n == n
    &&& is_grown(grown, optimizer, auxiliary, after)
    &&& grown@.wf(control)
}

} // verus!
