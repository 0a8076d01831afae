mod classifier;
mod knn;

pub use classifier::{has_two_on_each_side, prior_before, prior_behind, Priors, Ratio};
pub use knn::{
    from_split, in_segment, integer_sqrt, is_integer_sqrt, is_ranking, kNN,
    lemma_integer_sqrt_unique, ranking, spec_neighbours, spec_votes, votes,
};
