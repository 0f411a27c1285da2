//! Clustering the colours of a tile around a few representatives.

use vstd::prelude::*;
use crate::color::ColorModel;
use crate::bounds::{all_bounded, reassign, shift, survey_all};
use crate::select::{first_min, nearest};

verus! {

/// The number of refinement rounds after which the clustering stops even
/// if the assignment of the samples still changes.
pub const ROUNDS: usize = 32;

/// The outcome of a clustering: the representative of each cluster, the
/// number of samples in it, and for each sample the cluster it belongs to.
pub struct Clusters<C> {
    pub centres: Vec<C>,
    pub weights: Vec<usize>,
    pub labels: Vec<usize>,
}

/// The distances from `x` to each of the centres.
pub open spec fn gaps<M: ColorModel>(model: &M, x: M::Color, centres: Seq<M::Color>) -> Seq<u128> {
    Seq::new(centres.len(), |j: int| model.gap(x, centres[j]) as u128)
}

/// For each sample the nearest centre, the first one among equally near.
pub open spec fn assignment<M: ColorModel>(
    model: &M,
    samples: Seq<M::Color>,
    centres: Seq<M::Color>,
) -> Seq<usize> {
    Seq::new(samples.len(), |i: int| first_min(gaps(model, samples[i], centres)) as usize)
}

/// The samples labelled `j`, in the order of the samples.
pub open spec fn members<C>(samples: Seq<C>, labels: Seq<usize>, j: int) -> Seq<C>
    decreases samples.len(),
{
    if samples.len() == 0 || labels.len() == 0 {
        Seq::empty()
    } else {
        let rest = members(samples.drop_last(), labels.drop_last(), j);
        if labels.last() == j {
            rest.push(samples.last())
        } else {
            rest
        }
    }
}

/// The centres after an update: each moves to the centre of its members,
/// and one without members stays where it was.
pub open spec fn moved<M: ColorModel>(
    model: &M,
    samples: Seq<M::Color>,
    labels: Seq<usize>,
    centres: Seq<M::Color>,
) -> Seq<M::Color> {
    Seq::new(
        centres.len(),
        |j: int|
            if members(samples, labels, j).len() == 0 {
                centres[j]
            } else {
                model.centre(members(samples, labels, j))
            },
    )
}

/// Refinement: move the centres, assign the samples anew, and stop when no
/// sample changes its cluster or when the rounds are used up.
pub open spec fn refined<M: ColorModel>(
    model: &M,
    samples: Seq<M::Color>,
    centres: Seq<M::Color>,
    labels: Seq<usize>,
    rounds: nat,
) -> (Seq<M::Color>, Seq<usize>)
    decreases rounds,
{
    if rounds == 0 {
        (centres, labels)
    } else {
        let next_centres = moved(model, samples, labels, centres);
        let next_labels = assignment(model, samples, next_centres);
        if next_labels == labels {
            (next_centres, labels)
        } else {
            refined(model, samples, next_centres, next_labels, (rounds - 1) as nat)
        }
    }
}

/// The number of clusters made of `n` samples when `k` are asked for.
pub open spec fn cluster_count(n: nat, k: nat) -> nat {
    if k < n {
        k
    } else {
        n
    }
}

/// The clustering of `samples` into `k` clusters: the first samples seed
/// the centres, every sample joins its nearest centre, and the result is
/// refined for at most `ROUNDS` rounds.
pub open spec fn clustered<M: ColorModel>(model: &M, samples: Seq<M::Color>, k: nat) -> (
    Seq<M::Color>,
    Seq<usize>,
) {
    let seeds = samples.take(cluster_count(samples.len(), k) as int);
    refined(model, samples, seeds, assignment(model, samples, seeds), ROUNDS as nat)
}

/// Whether `out` is the clustering of `samples` into `k` clusters: the
/// centres and the labels are those of `clustered`, and the weight of a
/// cluster is the number of its members.
pub open spec fn is_clustering<M: ColorModel>(
    model: &M,
    samples: Seq<M::Color>,
    k: nat,
    out: Clusters<M::Color>,
) -> bool {
    &&& out.centres@ == clustered(model, samples, k).0
    &&& out.centres@.len() == cluster_count(samples.len(), k)
    &&& out.weights@.len() == out.centres@.len()
    &&& out.centres@.len() == 0 ==> out.labels@.len() == 0
    &&& out.centres@.len() > 0 ==> out.labels@ == clustered(model, samples, k).1
        && out.labels@.len() == samples.len()
    &&& forall|i: int| 0 <= i < out.labels@.len() ==> #[trigger] out.labels@[i] < out.centres@.len()
    &&& forall|j: int|
        0 <= j < out.weights@.len() ==> #[trigger] out.weights@[j] == members(
            samples,
            out.labels@,
            j,
        ).len()
}

/// Clustering is a function of the samples and of the number of clusters:
/// two outcomes for the same samples hold the same centres, weights and
/// labels, whether or not either was computed with acceleration.
pub proof fn lemma_clustering_unique<M: ColorModel>(
    model: &M,
    samples: Seq<M::Color>,
    k: nat,
    a: Clusters<M::Color>,
    b: Clusters<M::Color>,
)
    requires
        is_clustering(model, samples, k, a),
        is_clustering(model, samples, k, b),
    ensures
        a.centres@ == b.centres@,
        a.labels@ == b.labels@,
        a.weights@ == b.weights@,
{
    assert(a.labels@ =~= b.labels@);
    assert(a.weights@ =~= b.weights@);
}

/// Refinement neither adds nor removes a centre.
pub proof fn lemma_refined_count<M: ColorModel>(
    model: &M,
    samples: Seq<M::Color>,
    centres: Seq<M::Color>,
    labels: Seq<usize>,
    rounds: nat,
)
    ensures
        refined(model, samples, centres, labels, rounds).0.len() == centres.len(),
    decreases rounds,
{
    if rounds > 0 {
        let next_centres = moved(model, samples, labels, centres);
        let next_labels = assignment(model, samples, next_centres);
        if next_labels != labels {
            lemma_refined_count(model, samples, next_centres, next_labels, (rounds - 1) as nat);
        }
    }
}

/// The nearest centre to `x`, the first one among equally near.
fn nearest_centre<M: ColorModel>(model: &M, x: &M::Color, centres: &Vec<M::Color>) -> (j: usize)
    requires
        centres@.len() > 0,
    ensures
        j == first_min(gaps(model, *x, centres@)),
        j < centres@.len(),
{
    let mut row: Vec<u128> = Vec::new();
    let mut j: usize = 0;
    while j < centres.len()
        invariant
            0 <= j <= centres@.len(),
            row@.len() == j,
            forall|t: int| 0 <= t < j ==> row@[t] == model.gap(*x, centres@[t]) as u128,
        decreases centres.len() - j,
    {
        let d = model.distance(x, &centres[j]);
        row.push(d as u128);
        j = j + 1;
    }
    assert(row@ =~= gaps(model, *x, centres@));
    match nearest(&row) {
        Some(best) => best,
        None => 0,
    }
}

/// Assigns every sample to its nearest centre.
fn assign<M: ColorModel>(model: &M, samples: &Vec<M::Color>, centres: &Vec<M::Color>) -> (labels:
    Vec<usize>)
    requires
        centres@.len() > 0,
    ensures
        labels@ == assignment(model, samples@, centres@),
        forall|i: int| 0 <= i < labels@.len() ==> labels@[i] < centres@.len(),
{
    let mut labels: Vec<usize> = Vec::new();
    let mut i: usize = 0;
    while i < samples.len()
        invariant
            centres@.len() > 0,
            0 <= i <= samples@.len(),
            labels@.len() == i,
            forall|t: int|
                0 <= t < i ==> labels@[t] == first_min(gaps(model, samples@[t], centres@)) as usize,
            forall|t: int| 0 <= t < i ==> labels@[t] < centres@.len(),
        decreases samples.len() - i,
    {
        let x = samples[i];
        let j = nearest_centre(model, &x, centres);
        labels.push(j);
        i = i + 1;
    }
    assert(labels@ =~= assignment(model, samples@, centres@));
    labels
}

/// Collects the samples labelled `j`.
fn collect<C: Copy>(samples: &Vec<C>, labels: &Vec<usize>, j: usize) -> (group: Vec<C>)
    requires
        samples@.len() == labels@.len(),
    ensures
        group@ == members(samples@, labels@, j as int),
{
    let mut group: Vec<C> = Vec::new();
    let mut i: usize = 0;
    while i < samples.len()
        invariant
            samples@.len() == labels@.len(),
            0 <= i <= samples@.len(),
            group@ == members(samples@.subrange(0, i as int), labels@.subrange(0, i as int), j as int),
        decreases samples.len() - i,
    {
        proof {
            assert(samples@.subrange(0, i + 1).drop_last() =~= samples@.subrange(0, i as int));
            assert(labels@.subrange(0, i + 1).drop_last() =~= labels@.subrange(0, i as int));
        }
        if labels[i] == j {
            group.push(samples[i]);
        }
        i = i + 1;
    }
    proof {
        assert(samples@.subrange(0, i as int) =~= samples@);
        assert(labels@.subrange(0, i as int) =~= labels@);
    }
    group
}

/// Moves every centre to the centre of its members.
fn update<M: ColorModel>(
    model: &M,
    samples: &Vec<M::Color>,
    labels: &Vec<usize>,
    centres: &Vec<M::Color>,
) -> (next: Vec<M::Color>)
    requires
        samples@.len() == labels@.len(),
    ensures
        next@ == moved(model, samples@, labels@, centres@),
{
    let mut next: Vec<M::Color> = Vec::new();
    let mut j: usize = 0;
    while j < centres.len()
        invariant
            samples@.len() == labels@.len(),
            0 <= j <= centres@.len(),
            next@.len() == j,
            forall|t: int| 0 <= t < j ==> next@[t] == moved(model, samples@, labels@, centres@)[t],
        decreases centres.len() - j,
    {
        let group = collect(samples, labels, j);
        if group.len() == 0 {
            next.push(centres[j]);
        } else {
            let c = model.mean(&group);
            next.push(c);
        }
        j = j + 1;
    }
    assert(next@ =~= moved(model, samples@, labels@, centres@));
    next
}

/// Whether two lists of labels are the same.
fn same_labels(a: &Vec<usize>, b: &Vec<usize>) -> (same: bool)
    ensures
        same <==> a@ == b@,
{
    if a.len() != b.len() {
        return false;
    }
    let mut i: usize = 0;
    while i < a.len()
        invariant
            a@.len() == b@.len(),
            0 <= i <= a@.len(),
            forall|t: int| 0 <= t < i ==> a@[t] == b@[t],
        decreases a.len() - i,
    {
        if a[i] != b[i] {
            return false;
        }
        i = i + 1;
    }
    assert(a@ =~= b@);
    true
}

/// Clusters the samples around at most `k` representatives.
///
/// The centres start at the first samples, as many as there are clusters;
/// every sample joins the nearest centre; then the centres move to the
/// centres of their members and the samples are assigned anew, until no
/// sample changes its cluster or `ROUNDS` rounds have passed. There are
/// never more clusters than samples.
///
/// With `accelerate`, and a model whose distance is a metric, the search
/// keeps for every sample a bound on the distance to its centre and a
/// bound on the distance to every other centre, carries them along as the
/// centres move, and does not measure a sample against every centre where
/// the triangle inequality shows that it stays with the centre it has.
/// The outcome is the same with and without.
pub fn kmeans<M: ColorModel>(model: &M, samples: &Vec<M::Color>, k: usize, accelerate: bool) -> (out:
    Clusters<M::Color>)
    ensures
        is_clustering(model, samples@, k as nat, out),
{
    let n = samples.len();
    let count = if k < n { k } else { n };
    if count == 0 {
        proof {
            let seeds = samples@.take(0);
            lemma_refined_count(
                model,
                samples@,
                seeds,
                assignment(model, samples@, seeds),
                ROUNDS as nat,
            );
            assert(clustered(model, samples@, k as nat).0 =~= Seq::empty());
        }
        return Clusters { centres: Vec::new(), weights: Vec::new(), labels: Vec::new() };
    }
    let mut centres: Vec<M::Color> = Vec::new();
    let mut s: usize = 0;
    while s < count
        invariant
            0 <= s <= count <= samples@.len(),
            centres@ == samples@.take(s as int),
        decreases count - s,
    {
        centres.push(samples[s]);
        assert(samples@.take(s as int).push(samples@[s as int]) =~= samples@.take(s + 1));
        s = s + 1;
    }
    let prune = accelerate && model.is_metric();
    let mut labels: Vec<usize>;
    let mut upper: Vec<u32> = Vec::new();
    let mut lower: Vec<u32> = Vec::new();
    if prune {
        let found = survey_all(model, samples, &centres);
        labels = found.0;
        upper = found.1;
        lower = found.2;
    } else {
        labels = assign(model, samples, &centres);
    }
    let ghost goal = clustered(model, samples@, k as nat);
    let mut left: usize = ROUNDS;
    let mut settled = false;
    while left > 0 && !settled
        invariant
            prune ==> model.metric(),
            prune ==> all_bounded(model, samples@, centres@, labels@, upper@, lower@),
            centres@.len() == count > 0,
            labels@.len() == samples@.len(),
            forall|i: int| 0 <= i < labels@.len() ==> labels@[i] < centres@.len(),
            !settled ==> refined(model, samples@, centres@, labels@, left as nat) == goal,
            settled ==> (centres@, labels@) == goal,
        decreases left, if settled { 0int } else { 1int },
    {
        let next_centres = update(model, samples, &labels, &centres);
        let next_labels: Vec<usize>;
        if prune {
            let carried = shift(model, samples, &labels, &centres, &next_centres, &upper, &lower);
            let found = reassign(model, samples, &next_centres, &labels, &carried.0, &carried.1);
            next_labels = found.0;
            upper = found.1;
            lower = found.2;
        } else {
            next_labels = assign(model, samples, &next_centres);
        }
        if same_labels(&next_labels, &labels) {
            settled = true;
        } else {
            labels = next_labels;
            left = left - 1;
        }
        centres = next_centres;
    }
    let mut weights: Vec<usize> = Vec::new();
    let mut j: usize = 0;
    while j < centres.len()
        invariant
            labels@.len() == samples@.len(),
            0 <= j <= centres@.len(),
            weights@.len() == j,
            forall|t: int|
                0 <= t < j ==> weights@[t] == members(samples@, labels@, t).len(),
        decreases centres.len() - j,
    {
        let group = collect(samples, &labels, j);
        weights.push(group.len());
        j = j + 1;
    }
    Clusters { centres, weights, labels }
}

} // verus!
