use vstd::prelude::*;

verus! {

/// A nearest-neighbour classifier over a matrix of pairwise distances.
///
/// Row `i` of `ordering` ranks the observations by their distance from
/// observation `i`, nearest first.
#[allow(non_camel_case_types)]
#[derive(Debug)]
pub struct kNN {
    pub ordering: Vec<Vec<usize>>,
}

/// `order` ranks the indices of `keys`: it holds each index once, and the keys
/// ascend along it.
pub open spec fn is_ranking(order: Seq<usize>, keys: Seq<i64>) -> bool {
    &&& order.len() == keys.len()
    &&& order.no_duplicates()
    &&& forall|j: int| 0 <= j < order.len() ==> (#[trigger] order[j]) < keys.len()
    &&& forall|a: int, b: int|
        0 <= a <= b < order.len() ==> keys[order[a] as int] <= keys[order[b] as int]
}

/// `<[usize]>::sort_unstable_by_key`, the key of an index being its entry in
/// `keys`: `order` is rearranged so that the keys ascend along it. std does
/// not say in which order indices with equal keys come.
#[verifier::external_body]
fn sort_by_key(order: &mut Vec<usize>, keys: &Vec<i64>)
    requires
        forall|j: int| 0 <= j < old(order).len() ==> (#[trigger] old(order)[j]) < keys.len(),
    ensures
        final(order)@.to_multiset() == old(order)@.to_multiset(),
        forall|a: int, b: int|
            0 <= a <= b < final(order).len() ==> keys[final(order)[a] as int]
                <= keys[final(order)[b] as int],
{
    order.sort_unstable_by_key(|j| keys[*j]);
}

/// The indices of `keys` by ascending key.
pub fn ranking(keys: &Vec<i64>) -> (order: Vec<usize>)
    ensures
        is_ranking(order@, keys@),
{
    let mut order: Vec<usize> = Vec::new();
    let mut j: usize = 0;
    while j < keys.len()
        invariant
            j <= keys.len(),
            order.len() == j,
            forall|i: int| 0 <= i < j ==> order[i] == i,
        decreases keys.len() - j,
    {
        order.push(j);
        j += 1;
    }
    let ghost identity = order@;
    sort_by_key(&mut order, keys);
    proof {
        broadcast use vstd::seq_lib::group_to_multiset_ensures;

        assert(identity.no_duplicates());
        identity.lemma_multiset_has_no_duplicates();
        order@.lemma_multiset_has_no_duplicates_conv();
        assert(order@.len() == order@.to_multiset().len());
        assert(identity.len() == identity.to_multiset().len());
        assert forall|i: int| 0 <= i < order.len() implies (#[trigger] order[i]) < keys.len() by {
            assert(order@.contains(order[i]));
            assert(order@.to_multiset().count(order[i]) > 0);
            assert(identity.contains(order[i]));
        }
    }
    order
}

/// The positions from `start` up to but not including `stop`.
pub open spec fn in_segment(start: usize, stop: usize) -> spec_fn(usize) -> bool {
    |j: usize| start <= j < stop
}

/// The positions from `split` on.
pub open spec fn from_split(split: usize) -> spec_fn(usize) -> bool {
    |j: usize| j >= split
}

/// The neighbours that vote for an observation with the given `ranking`: the
/// first `k` of its ranking that lie in `[start, stop)`, the first entry of
/// the ranking, which is the observation itself, left out.
pub open spec fn spec_neighbours(ranking: Seq<usize>, start: usize, stop: usize, k: int) -> Seq<
    usize,
> {
    if ranking.len() == 0 {
        Seq::empty()
    } else {
        let inside = ranking.skip(1).filter(in_segment(start, stop));
        if inside.len() <= k {
            inside
        } else {
            inside.take(k)
        }
    }
}

/// The number of voting neighbours that lie at or behind `split`.
pub open spec fn spec_votes(
    ranking: Seq<usize>,
    start: usize,
    stop: usize,
    split: usize,
    k: int,
) -> nat {
    spec_neighbours(ranking, start, stop, k).filter(from_split(split)).len()
}

/// `root` is the integer square root of `x`: the largest integer whose square
/// does not exceed `x`.
pub open spec fn is_integer_sqrt(x: int, root: int) -> bool {
    0 <= root && root * root <= x < (root + 1) * (root + 1)
}

/// A number has one integer square root.
pub proof fn lemma_integer_sqrt_unique(x: int, a: int, b: int)
    requires
        is_integer_sqrt(x, a),
        is_integer_sqrt(x, b),
    ensures
        a == b,
{
    if a < b {
        assert((a + 1) * (a + 1) <= b * b) by (nonlinear_arith)
            requires
                0 <= a + 1 <= b,
        ;
    }
    if b < a {
        assert((b + 1) * (b + 1) <= a * a) by (nonlinear_arith)
            requires
                0 <= b + 1 <= a,
        ;
    }
}

/// The integer square root of `x`.
pub fn integer_sqrt(x: usize) -> (root: usize)
    ensures
        is_integer_sqrt(x as int, root as int),
{
    let mut root: usize = 0;
    let mut done = false;
    while !done
        invariant
            root * root <= x,
            root <= x,
            root <= 0xFFFF_FFFF,
            done ==> x < (root + 1) * (root + 1),
        decreases
                x - root + if done {
                    0int
                } else {
                    1int
                },
    {
        let next: u128 = root as u128 + 1;
        assert(next * next <= 0x1_0000_0000 * 0x1_0000_0000) by (nonlinear_arith)
            requires
                0 <= next <= 0x1_0000_0000,
        ;
        if next * next <= x as u128 {
            assert(root < x && root + 1 <= 0xFFFF_FFFF) by (nonlinear_arith)
                requires
                    (root + 1) * (root + 1) <= x,
                    x <= 0xFFFF_FFFF_FFFF_FFFF,
                    0 <= root,
            ;
            root += 1;
        } else {
            done = true;
        }
    }
    root
}

/// The number of voting neighbours of one observation that lie at or behind
/// `split`.
pub fn votes(ranking: &Vec<usize>, start: usize, stop: usize, split: usize, k: usize) -> (count:
    usize)
    ensures
        count == spec_votes(ranking@, start, stop, split, k as int),
        count <= k,
{
    if ranking.len() == 0 {
        proof {
            reveal(Seq::filter);
        }
        return 0;
    }
    let mut taken: usize = 0;
    let mut count: usize = 0;
    let mut j: usize = 1;
    proof {
        reveal(Seq::filter);
        assert(ranking@.subrange(1, 1).len() == 0);
    }
    while j < ranking.len() && taken < k
        invariant
            1 <= j <= ranking.len(),
            taken <= k,
            count <= taken,
            taken == ranking@.subrange(1, j as int).filter(in_segment(start, stop)).len(),
            count == ranking@.subrange(1, j as int).filter(in_segment(start, stop)).filter(
                from_split(split),
            ).len(),
        decreases ranking.len() - j,
    {
        let neighbour = ranking[j];
        proof {
            reveal(Seq::filter);
            let seen = ranking@.subrange(1, j as int);
            let next = ranking@.subrange(1, j + 1);
            assert(next.drop_last() =~= seen);
            assert(next.last() == neighbour);
            let inside = seen.filter(in_segment(start, stop));
            if in_segment(start, stop)(neighbour) {
                assert(next.filter(in_segment(start, stop)) == inside.push(neighbour));
                assert(inside.push(neighbour).drop_last() =~= inside);
            } else {
                assert(next.filter(in_segment(start, stop)) == inside);
            }
        }
        if start <= neighbour && neighbour < stop {
            taken += 1;
            if neighbour >= split {
                count += 1;
            }
        }
        j += 1;
    }
    proof {
        let seen = ranking@.subrange(1, j as int);
        let rest = ranking@.subrange(j as int, ranking.len() as int);
        let all = ranking@.skip(1);
        assert(all =~= seen + rest);
        Seq::filter_distributes_over_add(seen, rest, in_segment(start, stop));
        let inside_seen = seen.filter(in_segment(start, stop));
        let inside_rest = rest.filter(in_segment(start, stop));
        let inside = all.filter(in_segment(start, stop));
        assert(inside == inside_seen + inside_rest);
        if j == ranking.len() {
            assert(rest.len() == 0);
            reveal(Seq::filter);
            assert(inside_rest.len() == 0);
            assert(inside =~= inside_seen);
        } else {
            assert(taken == k);
            if inside.len() <= k {
                assert(inside =~= inside_seen);
            } else {
                assert(inside.take(k as int) =~= inside_seen);
            }
        }
        assert(spec_neighbours(ranking@, start, stop, k as int) == inside_seen);
    }
    count
}

impl kNN {
    /// Every row ranks the observations by the distances of the same row.
    pub open spec fn ranks(&self, distances: Seq<Seq<i64>>) -> bool {
        &&& self.ordering.len() == distances.len()
        &&& forall|i: int|
            0 <= i < distances.len() ==> is_ranking(
                (#[trigger] self.ordering.deep_view()[i]),
                distances[i],
            )
    }

    /// The classifier for the observations with the pairwise `distances`:
    /// `distances[i][j]` is the distance between observations `i` and `j`.
    pub fn new(distances: &Vec<Vec<i64>>) -> (knn: kNN)
        ensures
            knn.ranks(distances.deep_view()),
    {
        kNN { ordering: kNN::calculate_ordering(distances) }
    }

    /// For each observation, all observations by ascending distance from it.
    pub fn calculate_ordering(distances: &Vec<Vec<i64>>) -> (ordering: Vec<Vec<usize>>)
        ensures
            ordering.len() == distances.len(),
            forall|i: int|
                0 <= i < distances.len() ==> is_ranking(
                    (#[trigger] ordering.deep_view()[i]),
                    distances.deep_view()[i],
                ),
    {
        let mut ordering: Vec<Vec<usize>> = Vec::new();
        let mut i: usize = 0;
        while i < distances.len()
            invariant
                i <= distances.len(),
                ordering.len() == i,
                forall|r: int| 0 <= r < i ==> is_ranking((#[trigger] ordering@[r])@, distances@[r]@),
            decreases distances.len() - i,
        {
            ordering.push(ranking(&distances[i]));
            i += 1;
        }
        assert forall|r: int| 0 <= r < distances.len() implies is_ranking(
            (#[trigger] ordering.deep_view()[r]),
            distances.deep_view()[r],
        ) by {
            assert(ordering.deep_view()[r] =~= ordering@[r]@);
            assert(distances.deep_view()[r] =~= distances@[r]@);
            assert(is_ranking(ordering@[r]@, distances@[r]@));
        }
        ordering
    }

    /// Total number of observations.
    pub fn n(&self) -> (n: usize)
        ensures
            n == self.ordering.len(),
    {
        self.ordering.len()
    }

    /// The number of neighbours that vote on a segment of the given length:
    /// the integer square root of the length.
    pub fn k(segment_length: usize) -> (k: usize)
        ensures
            is_integer_sqrt(segment_length as int, k as int),
    {
        integer_sqrt(segment_length)
    }

    /// For each observation of `[start, stop)`, how many of its `k` nearest
    /// neighbours within the segment lie at or behind `split`, with `k` the
    /// integer square root of the segment's length.
    ///
    /// The share of these votes among `k` is the predicted probability that
    /// the observation belongs behind the split.
    pub fn predict(&self, start: usize, stop: usize, split: usize) -> (predictions: Vec<usize>)
        requires
            start <= stop <= self.ordering.len(),
        ensures
            predictions.len() == stop - start,
            forall|k: int, i: int|
                is_integer_sqrt(stop - start, k) && start <= i < stop ==> predictions[i - start]
                    == #[trigger] spec_votes(self.ordering.deep_view()[i], start, stop, split, k),
    {
        let k = integer_sqrt(stop - start);
        let ghost length = (stop - start) as int;
        assert forall|other: int| #[trigger] is_integer_sqrt(length, other) implies other == k by {
            lemma_integer_sqrt_unique(length, k as int, other);
        }
        let mut predictions: Vec<usize> = Vec::new();
        let mut i: usize = start;
        while i < stop
            invariant
                start <= i <= stop <= self.ordering.len(),
                predictions.len() == i - start,
                forall|r: int|
                    start <= r < i ==> predictions[r - start] == #[trigger] spec_votes(
                        self.ordering.deep_view()[r],
                        start,
                        stop,
                        split,
                        k as int,
                    ),
            decreases stop - i,
        {
            assert(self.ordering.deep_view()[i as int] =~= self.ordering@[i as int]@);
            predictions.push(votes(&self.ordering[i], start, stop, split, k));
            i += 1;
        }
        predictions
    }
}

} // verus!
