use crate::control::ControlView;
use crate::model_selection_result::ModelSelectionResult;
use crate::optimizer::{
    is_split_candidate, lemma_split_candidates, spec_split_candidates, Optimizer,
    OptimizerResult, OptimizerResultView, SplitError,
};
use crate::segmentation::{is_nested, is_select_outcome, is_selection, Segmentation};
use vstd::prelude::*;

verus! {

/// A node of the tree of splits while it grows.
pub struct BinarySegmentationTree {
    pub start: usize,
    pub stop: usize,
    pub n: usize,
    pub model_selection_result: ModelSelectionResult,
    pub left: Option<Box<BinarySegmentationTree>>,
    pub right: Option<Box<BinarySegmentationTree>>,
    pub optimizer_result: Option<OptimizerResult>,
}

/// Struct holding results from a BinarySegmentationTree after fitting.
#[derive(Debug)]
pub struct BinarySegmentationResult {
    pub start: usize,
    pub stop: usize,
    pub model_selection_result: ModelSelectionResult,
    pub optimizer_result: Option<OptimizerResult>,
    pub left: Option<Box<BinarySegmentationResult>>,
    pub right: Option<Box<BinarySegmentationResult>>,
    pub segments: Option<Vec<OptimizerResult>>,
}

/// What a node of either tree holds: its interval, the split proposed for it,
/// the verdict on that split, and its children.
pub struct NodeView {
    pub start: usize,
    pub stop: usize,
    pub model_selection_result: ModelSelectionResult,
    pub optimizer_result: Option<OptimizerResultView>,
    pub left: Option<Box<NodeView>>,
    pub right: Option<Box<NodeView>>,
}

impl NodeView {
    /// The node has a split that the verdict calls significant.
    pub open spec fn is_split(self) -> bool {
        self.optimizer_result is Some && self.model_selection_result.is_significant
    }

    /// The tree is one that growth under `control` produces.
    ///
    /// A split proposed for a node is a split candidate of the node's
    /// interval, found on a segment inside the interval; a node without a
    /// split is not significant. A node has children if and only if it is
    /// split, and then they are the two sides of the split.
    pub open spec fn wf(self, control: ControlView) -> bool
        decreases self,
    {
        &&& self.optimizer_result matches Some(found) ==> {
            &&& is_nested(found, self.start, self.stop)
            &&& is_split_candidate(
                control.minimal_segment_length as int,
                control.forbidden(),
                self.start as int,
                self.stop as int,
                found.best_split as int,
            )
        }
        &&& self.optimizer_result is None ==> !self.model_selection_result.is_significant
        &&& if self.is_split() {
            &&& self.left matches Some(left)
            &&& self.right matches Some(right)
            &&& left.start == self.start
            &&& left.stop == self.optimizer_result->0.best_split
            &&& right.start == self.optimizer_result->0.best_split
            &&& right.stop == self.stop
            &&& left.wf(control)
            &&& right.wf(control)
        } else {
            self.left is None && self.right is None
        }
    }

    /// `node` is this node or one of the nodes below it.
    pub open spec fn has_node(self, node: NodeView) -> bool
        decreases self,
    {
        ||| self == node
        ||| self.left matches Some(left) && left.has_node(node)
        ||| self.right matches Some(right) && right.has_node(node)
    }

    /// The significant splits of the tree in order: those of the left child,
    /// the node's own, those of the right child.
    pub open spec fn split_points(self) -> Seq<usize>
        decreases self,
    {
        let left = match self.left {
            Some(left) => left.split_points(),
            None => Seq::empty(),
        };
        let own = if self.is_split() {
            seq![self.optimizer_result->0.best_split]
        } else {
            Seq::empty()
        };
        let right = match self.right {
            Some(right) => right.split_points(),
            None => Seq::empty(),
        };
        left + own + right
    }
}

impl BinarySegmentationTree {
    /// What the node and the nodes below it hold.
    pub open spec fn node(&self) -> NodeView
        decreases self,
    {
        NodeView {
            start: self.start,
            stop: self.stop,
            model_selection_result: self.model_selection_result,
            optimizer_result: match self.optimizer_result {
                Some(found) => Some(found@),
                None => None,
            },
            left: match self.left {
                Some(left) => Some(Box::new(left.node())),
                None => None,
            },
            right: match self.right {
                Some(right) => Some(Box::new(right.node())),
                None => None,
            },
        }
    }
}

impl View for BinarySegmentationTree {
    type V = NodeView;

    open spec fn view(&self) -> NodeView {
        self.node()
    }
}

impl BinarySegmentationResult {
    /// What the node and the nodes below it hold.
    pub open spec fn node(&self) -> NodeView
        decreases self,
    {
        NodeView {
            start: self.start,
            stop: self.stop,
            model_selection_result: self.model_selection_result,
            optimizer_result: match self.optimizer_result {
                Some(found) => Some(found@),
                None => None,
            },
            left: match self.left {
                Some(left) => Some(Box::new(left.node())),
                None => None,
            },
            right: match self.right {
                Some(right) => Some(Box::new(right.node())),
                None => None,
            },
        }
    }
}

impl View for BinarySegmentationResult {
    type V = NodeView;

    open spec fn view(&self) -> NodeView {
        self.node()
    }
}

/// The split proposed for any node of a tree grown under `control` lies
/// strictly inside the node's interval and is one of the interval's split
/// candidates.
pub proof fn lemma_node_split_is_candidate(tree: NodeView, node: NodeView, control: ControlView)
    requires
        tree.wf(control),
        tree.has_node(node),
        node.optimizer_result is Some,
    ensures
        node.start < node.optimizer_result->0.best_split < node.stop,
        spec_split_candidates(
            control.minimal_segment_length as int,
            control.forbidden(),
            node.start as int,
            node.stop as int,
        ).contains(node.optimizer_result->0.best_split),
    decreases tree,
{
    if tree == node {
        lemma_split_candidates(
            control.minimal_segment_length as int,
            control.forbidden(),
            node.start as int,
            node.stop as int,
        );
    } else if tree.left is Some && tree.left->0.has_node(node) {
        lemma_node_split_is_candidate(*tree.left->0, node, control);
    } else {
        lemma_node_split_is_candidate(*tree.right->0, node, control);
    }
}

/// The significant splits of a tree grown under `control` lie strictly inside
/// the root's interval and come in strictly increasing order.
pub proof fn lemma_split_points_increasing(tree: NodeView, control: ControlView)
    requires
        tree.wf(control),
    ensures
        forall|i: int|
            0 <= i < tree.split_points().len() ==> tree.start < (#[trigger] tree.split_points()[i])
                < tree.stop,
        forall|i: int, j: int|
            0 <= i < j < tree.split_points().len() ==> tree.split_points()[i]
                < tree.split_points()[j],
    decreases tree,
{
    if tree.is_split() {
        let left = *tree.left->0;
        let right = *tree.right->0;
        lemma_split_points_increasing(left, control);
        lemma_split_points_increasing(right, control);
        let own = seq![tree.optimizer_result->0.best_split];
        let points = tree.split_points();
        assert(points == left.split_points() + own + right.split_points());
        assert forall|i: int| 0 <= i < points.len() implies tree.start < (#[trigger] points[i])
            < tree.stop by {
            if i < left.split_points().len() {
                assert(points[i] == left.split_points()[i]);
            } else if i == left.split_points().len() {
                assert(points[i] == own[0]);
            } else {
                assert(points[i] == right.split_points()[i - left.split_points().len() - 1]);
            }
        }
        assert forall|i: int, j: int| 0 <= i < j < points.len() implies points[i] < points[j] by {
            let m = left.split_points().len() as int;
            if i < m {
                assert(points[i] == left.split_points()[i]);
            } else if i == m {
                assert(points[i] == own[0]);
            } else {
                assert(points[i] == right.split_points()[i - m - 1]);
            }
            if j < m {
                assert(points[j] == left.split_points()[j]);
            } else if j == m {
                assert(points[j] == own[0]);
            } else {
                assert(points[j] == right.split_points()[j - m - 1]);
            }
        }
    } else {
        assert(tree.split_points() =~= Seq::empty());
    }
}

/// `tree` is what growth makes of a fresh node from the answers of
/// `optimizer`, the segments going from `before` to `after`.
///
/// The optimizer is asked for the best split of the node's interval. Where
/// it answers none, the node stays a leaf without a split, not significant,
/// and the segments stay as they are. Otherwise the node keeps the split that
/// is selected for the interval, and with it the verdict of the optimizer on
/// that split. Where the verdict calls the split significant, the node's
/// children are the two sides of the split, of the same series, the left one
/// grown before the right one; where it does not, the node has no children.
pub open spec fn is_grown<O: Optimizer>(
    tree: BinarySegmentationTree,
    optimizer: &O,
    before: Seq<OptimizerResultView>,
    after: Seq<OptimizerResultView>,
) -> bool
    decreases tree,
{
    exists|local: Result<OptimizerResult, SplitError>|
        {
            &&& #[trigger] call_ensures(O::find_best_split, (optimizer, tree.start, tree.stop), local)
            &&& match tree.optimizer_result {
                None => {
                    &&& local is Err
                    &&& after == before
                    &&& tree.left is None
                    &&& tree.right is None
                    &&& !tree.model_selection_result.is_significant
                    &&& tree.model_selection_result.p_value is None
                },
                Some(found) => {
                    &&& is_select_outcome(
                        before,
                        before.push(local->Ok_0@),
                        tree.start,
                        tree.stop,
                        local,
                        Ok(found),
                    )
                    &&& call_ensures(
                        O::model_selection,
                        (optimizer, &found),
                        tree.model_selection_result,
                    )
                    &&& if tree.model_selection_result.is_significant {
                        &&& tree.left is Some
                        &&& tree.right is Some
                        &&& tree.left->0.start == tree.start
                        &&& tree.left->0.stop == found.best_split
                        &&& tree.left->0.n == tree.n
                        &&& tree.right->0.start == found.best_split
                        &&& tree.right->0.stop == tree.stop
                        &&& tree.right->0.n == tree.n
                        &&& exists|between: Seq<OptimizerResultView>|
                            {
                                &&& #[trigger] before.push(local->Ok_0@).is_prefix_of(between)
                                &&& is_grown(
                                    *tree.left->0,
                                    optimizer,
                                    before.push(local->Ok_0@),
                                    between,
                                )
                                &&& is_grown(*tree.right->0, optimizer, between, after)
                            }
                    } else {
                        &&& tree.left is None
                        &&& tree.right is None
                        &&& after == before.push(local->Ok_0@)
                    }
                },
            }
        }
}

/// A node that keeps the split selected for it, with the optimizer's verdict
/// on the split and its children grown where the verdict calls for them, is
/// grown.
proof fn lemma_grown_node<O: Optimizer>(
    tree: BinarySegmentationTree,
    optimizer: &O,
    before: Seq<OptimizerResultView>,
    between: Seq<OptimizerResultView>,
    after: Seq<OptimizerResultView>,
    local: Result<OptimizerResult, SplitError>,
)
    requires
        call_ensures(O::find_best_split, (optimizer, tree.start, tree.stop), local),
        tree.optimizer_result matches Some(found) && {
            &&& is_select_outcome(
                before,
                before.push(local->Ok_0@),
                tree.start,
                tree.stop,
                local,
                Ok(found),
            )
            &&& call_ensures(O::model_selection, (optimizer, &found), tree.model_selection_result)
            &&& if tree.model_selection_result.is_significant {
                &&& tree.left is Some
                &&& tree.right is Some
                &&& tree.left->0.start == tree.start
                &&& tree.left->0.stop == found.best_split
                &&& tree.left->0.n == tree.n
                &&& tree.right->0.start == found.best_split
                &&& tree.right->0.stop == tree.stop
                &&& tree.right->0.n == tree.n
                &&& before.push(local->Ok_0@).is_prefix_of(between)
                &&& is_grown(*tree.left->0, optimizer, before.push(local->Ok_0@), between)
                &&& is_grown(*tree.right->0, optimizer, between, after)
            } else {
                &&& tree.left is None
                &&& tree.right is None
                &&& after == before.push(local->Ok_0@)
            }
        },
    ensures
        is_grown(tree, optimizer, before, after),
{
}

impl BinarySegmentationTree {
    /// The node has not been grown: it has neither a split nor children, and
    /// no verdict.
    pub open spec fn is_fresh(&self) -> bool {
        &&& self.optimizer_result is None
        &&& self.left is None
        &&& self.right is None
        &&& !self.model_selection_result.is_significant
        &&& self.model_selection_result.p_value is None
    }

    /// The root of the tree for a series of `n` observations.
    pub fn new(n: usize) -> (tree: BinarySegmentationTree)
        ensures
            tree.start == 0,
            tree.stop == n,
            tree.n == n,
            tree.is_fresh(),
            !tree.model_selection_result.is_significant,
            tree.model_selection_result.p_value is None,
    {
        BinarySegmentationTree {
            start: 0,
            stop: n,
            n,
            model_selection_result: ModelSelectionResult::default(),
            left: None,
            right: None,
            optimizer_result: None,
        }
    }

    fn new_left(&self, split: usize) -> (child: BinarySegmentationTree)
        ensures
            child.start == self.start,
            child.stop == split,
            child.n == self.n,
            child.is_fresh(),
    {
        BinarySegmentationTree {
            start: self.start,
            stop: split,
            n: self.n,
            model_selection_result: ModelSelectionResult::default(),
            left: None,
            right: None,
            optimizer_result: None,
        }
    }

    fn new_right(&self, split: usize) -> (child: BinarySegmentationTree)
        ensures
            child.start == split,
            child.stop == self.stop,
            child.n == self.n,
            child.is_fresh(),
    {
        BinarySegmentationTree {
            start: split,
            stop: self.stop,
            n: self.n,
            model_selection_result: ModelSelectionResult::default(),
            left: None,
            right: None,
            optimizer_result: None,
        }
    }

    /// Grow a `BinarySegmentationTree`.
    ///
    /// Recursively split segments and add subsegments as children `left` and
    /// `right` until segments have no valid split or the split found is no
    /// longer significant. A node keeps the split found for it also where that
    /// split is not significant.
    ///
    /// The tree is what growth makes of the answers of the segmentation's
    /// optimizer: see `is_grown`.
    pub fn grow<O: Optimizer>(&mut self, segmentation: &mut Segmentation<'_, O>)
        requires
            old(self).is_fresh(),
            old(self).start <= old(self).stop <= old(segmentation).n,
            old(segmentation).wf(),
        ensures
            final(self)@.wf(final(segmentation).control@),
            final(self).start == old(self).start,
            final(self).stop == old(self).stop,
            final(self).n == old(self).n,
            final(self).optimizer_result is None ==> final(self).model_selection_result == old(
                self,
            ).model_selection_result,
            final(segmentation).wf(),
            final(segmentation).control == old(segmentation).control,
            final(segmentation).n == old(segmentation).n,
            final(segmentation).optimizer == old(segmentation).optimizer,
            old(segmentation).segments.deep_view().is_prefix_of(
                final(segmentation).segments.deep_view(),
            ),
            match final(self).optimizer_result {
                Some(found) => {
                    &&& final(segmentation).segments.deep_view().len() > old(
                        segmentation,
                    ).segments.deep_view().len()
                    &&& is_selection(
                        old(segmentation).segments.deep_view(),
                        final(segmentation).segments.deep_view().take(
                            old(segmentation).segments.deep_view().len() as int + 1,
                        ),
                        final(self).start,
                        final(self).stop,
                        found@,
                    )
                },
                None => final(segmentation).segments.deep_view() == old(
                    segmentation,
                ).segments.deep_view(),
            },
            is_grown(
                *final(self),
                final(segmentation).optimizer,
                old(segmentation).segments.deep_view(),
                final(segmentation).segments.deep_view(),
            ),
        decreases old(self).stop - old(self).start,
    {
        let ghost segments_before = segmentation.segments.deep_view();
        let ghost optimizer = segmentation.optimizer;
        let chosen = segmentation.find_best_split(self.start, self.stop);
        let ghost local = choose|local: Result<OptimizerResult, SplitError>|
            {
                &&& call_ensures(O::find_best_split, (optimizer, self.start, self.stop), local)
                &&& #[trigger] is_select_outcome(
                    segments_before,
                    segmentation.segments.deep_view(),
                    self.start,
                    self.stop,
                    local,
                    chosen,
                )
            };
        match chosen {
            Err(_) => {
                assert(is_grown(*self, optimizer, segments_before, segments_before));
            },
            Ok(optimizer_result) => {
                let ghost segments_found = segmentation.segments.deep_view();
                assert(segments_before.is_prefix_of(segments_found)) by {
                    assert(segments_found.drop_last() == segments_before);
                    assert forall|i: int| 0 <= i < segments_before.len() implies segments_before[i]
                        == segments_found[i] by {
                        assert(segments_found.drop_last()[i] == segments_found[i]);
                    }
                }
                self.model_selection_result = segmentation.model_selection(&optimizer_result);

                let ghost mut between = segments_found;
                if self.model_selection_result.is_significant {
                    let mut left = self.new_left(optimizer_result.best_split);
                    left.grow(segmentation);
                    proof {
                        between = segmentation.segments.deep_view();
                    }
                    self.left = Some(Box::new(left));

                    let mut right = self.new_right(optimizer_result.best_split);
                    right.grow(segmentation);
                    self.right = Some(Box::new(right));
                }
                assert(segmentation.segments.deep_view().take(segments_before.len() as int + 1)
                    =~= segments_found);
                self.optimizer_result = Some(optimizer_result);
                proof {
                    assert(segments_found == segments_before.push(local->Ok_0@));
                    assert(segments_found.is_prefix_of(between));
                    lemma_grown_node(
                        *self,
                        optimizer,
                        segments_before,
                        between,
                        segmentation.segments.deep_view(),
                        local,
                    );
                }
            },
        }
    }
}

impl BinarySegmentationResult {
    /// Neither the node nor any node below it has segments attached.
    pub open spec fn has_no_segments(&self) -> bool
        decreases self,
    {
        &&& self.segments is None
        &&& self.below_has_no_segments()
    }

    /// No node below this one has segments attached.
    pub open spec fn below_has_no_segments(&self) -> bool
        decreases self, 0nat,
    {
        &&& self.left matches Some(left) ==> left.segments is None && left.below_has_no_segments()
        &&& self.right matches Some(right) ==> right.segments is None
            && right.below_has_no_segments()
    }

    /// The tree as a result: the same nodes, with no segments attached to any
    /// of them.
    pub fn from_tree(tree: BinarySegmentationTree) -> (result: Self)
        ensures
            result@ == tree@,
            result.has_no_segments(),
        decreases tree,
    {
        let left = match tree.left {
            Some(child) => Some(Box::new(BinarySegmentationResult::from_tree(*child))),
            None => None,
        };
        let right = match tree.right {
            Some(child) => Some(Box::new(BinarySegmentationResult::from_tree(*child))),
            None => None,
        };
        BinarySegmentationResult {
            start: tree.start,
            stop: tree.stop,
            model_selection_result: tree.model_selection_result,
            optimizer_result: tree.optimizer_result,
            left,
            right,
            segments: None,
        }
    }

    /// The significant splits in increasing order of position in the tree:
    /// left subtree, this node, right subtree.
    pub fn split_points(&self) -> (split_points: Vec<usize>)
        ensures
            split_points@ == self@.split_points(),
        decreases self,
    {
        let mut split_points: Vec<usize> = Vec::new();

        if let Some(left_boxed) = &self.left {
            let mut left_points = left_boxed.split_points();
            split_points.append(&mut left_points);
        }
        if let Some(result) = &self.optimizer_result {
            if self.model_selection_result.is_significant {
                split_points.push(result.best_split);
            }
        }
        if let Some(right_boxed) = &self.right {
            let mut right_points = right_boxed.split_points();
            split_points.append(&mut right_points);
        }
        assert(split_points@ =~= self@.split_points());
        split_points
    }

    /// The result with the segments of `segmentation` attached to its root;
    /// the nodes below the root stay as they are.
    pub fn with_segments<O: Optimizer>(self, segmentation: Segmentation<'_, O>) -> (result: Self)
        ensures
            result@ == self@,
            result.segments == Some(segmentation.segments),
            result.left == self.left,
            result.right == self.right,
    {
        let mut result = self;
        result.segments = Some(segmentation.segments);
        result
    }
}

} // verus!
