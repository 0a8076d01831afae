//! Change point detection by binary segmentation.
//!
//! A series of `n` observations is split recursively: an [`Optimizer`] proposes
//! the best split of an interval, a significance test decides whether the
//! split is a change point, and if it is, both sides are split in turn. The
//! result is a tree of splits, see [`BinarySegmentationTree`].
//!
//! The library works on integer scores. A [`Gain`] scores the splits of an
//! interval, higher being better, and the searches only compare scores. How a
//! score is computed from the data is the business of the gain. What the
//! library guarantees of the tree it guarantees of whatever the gain and the
//! significance test answer: every split is a split candidate of its node's
//! interval, and the change points come in increasing order.

mod binary_segmentation;
pub mod classifier;
mod control;
mod fmt;
pub mod gain;
mod model_selection_result;
pub mod optimizer;
mod random;
mod segmentation;
pub mod wrapper;

pub use binary_segmentation::{
    is_grown, lemma_node_split_is_candidate, lemma_split_points_increasing,
    BinarySegmentationResult, BinarySegmentationTree, NodeView,
};
pub use control::{copy_segments, segments_ordered, valid_forbidden_segments, Control, ControlView};
pub use fmt::{
    _display_option, _format_tree, decimal, format_table, has_four_columns, interval, is_row_of,
    is_table_of, layout, lemma_labels_len, lemma_width_bounds, spec_decimal, spec_digit,
    spec_header, spec_interval, spec_labels, spec_layout, spec_line, spec_lines,
    spec_right_aligned, spec_row_nodes, spec_spaces, spec_width,
};
pub use gain::Gain;
pub use model_selection_result::{ModelSelectionResult, PValue};
pub use optimizer::Optimizer;
pub use random::is_permutation;
pub use segmentation::{
    all_valid_segments, are_answers, are_auxiliary_segments, best_nested, is_answer_on, is_asked,
    is_best_nested, is_control_of, is_nested, is_select_outcome, is_selection, is_valid_segment,
    is_wild_run, keep_segment, seeded_segments, spec_kept, wild_segments, Segmentation,
    SegmentationType,
};
