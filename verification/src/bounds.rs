//! Bounds on distances, by which a search for the nearest centre is cut
//! short.
//!
//! Distances are given by their squares, so a bound `u` on a distance `d`
//! is kept as a whole number with `d <= u * u`, or `u * u <= d`.

use vstd::prelude::*;
use crate::color::{rooted_triangle, ColorModel};
use crate::kmeans::{assignment, gaps};
use crate::select::{first_min, is_first_min, lemma_first_min_is, nearest};

verus! {

/// The greatest bound that is ever needed: its square exceeds every distance.
pub const FAR: u32 = 0x1_0000;

proof fn lemma_squares_ordered(a: int, b: int)
    by (nonlinear_arith)
    requires
        0 <= a,
        0 <= b,
    ensures
        a < b <==> a * a < b * b,
        a <= b <==> a * a <= b * b,
{
}

/// The whole part of the square root.
pub fn root_floor(v: u32) -> (r: u32)
    ensures
        r * r <= v < (r + 1) * (r + 1),
        r < FAR,
{
    let mut lo: u32 = 0;
    let mut hi: u32 = FAR;
    while hi - lo > 1
        invariant
            0 <= lo < hi <= FAR,
            lo * lo <= v < hi * hi,
        decreases hi - lo,
    {
        let mid: u32 = lo + (hi - lo) / 2;
        proof {
            lemma_squares_ordered(mid as int, FAR as int);
        }
        if (mid as u64) * (mid as u64) <= v as u64 {
            lo = mid;
        } else {
            hi = mid;
        }
    }
    lo
}

/// The square root, rounded up.
pub fn root_ceil(v: u32) -> (r: u32)
    ensures
        v <= r * r,
        r > 0 ==> (r - 1) * (r - 1) < v,
        r <= FAR,
{
    let r = root_floor(v);
    proof {
        lemma_squares_ordered(r as int, FAR as int);
        if r > 0 {
            lemma_squares_ordered(r - 1, r as int);
        }
    }
    if (r as u64) * (r as u64) == v as u64 {
        r
    } else {
        r + 1
    }
}

/// If a point lies within `u` of a centre, and the centre moves by no more
/// than `p`, the point lies within `u + p` of where the centre is now.
proof fn lemma_upper_moves(far: int, near: int, moved: int, u: int, p: int)
    requires
        0 <= near <= u * u,
        0 <= moved <= p * p,
        0 <= u,
        0 <= p,
        0 <= far,
        rooted_triangle(far, near, moved),
    ensures
        far <= (u + p) * (u + p),
{
    assert((u + p) * (u + p) == u * u + p * p + 2 * (u * p)) by (nonlinear_arith);
    assert(u * p >= 0) by (nonlinear_arith)
        requires
            0 <= u,
            0 <= p,
    ;
    let t = far - near - moved;
    if t > 0 {
        assert(t * t <= 4 * near * moved);
        assert(4 * near * moved <= 4 * ((u * u) * (p * p))) by (nonlinear_arith)
            requires
                0 <= near <= u * u,
                0 <= moved <= p * p,
        ;
        assert(4 * ((u * u) * (p * p)) == (2 * (u * p)) * (2 * (u * p))) by (nonlinear_arith);
        lemma_squares_ordered(2 * (u * p), t);
    }
}

/// If a point lies at least `l` from a centre, and the centre moves by no
/// more than `p`, the point lies at least `l - p` from where the centre is
/// now.
proof fn lemma_lower_moves(was: int, now: int, moved: int, l: int, p: int)
    requires
        l * l <= was,
        0 <= moved <= p * p,
        0 <= p <= l,
        0 <= now,
        rooted_triangle(was, now, moved),
    ensures
        (l - p) * (l - p) <= now,
{
    let k = l - p;
    if now < k * k {
        assert(l * l == k * k + p * p + 2 * (k * p)) by (nonlinear_arith)
            requires
                k == l - p,
        ;
        assert(k * p >= 0) by (nonlinear_arith)
            requires
                0 <= k,
                0 <= p,
        ;
        let t = was - now - moved;
        if t > 0 {
            assert(t * t <= 4 * now * moved);
            assert(4 * now * moved <= 4 * ((k * k) * (p * p))) by (nonlinear_arith)
                requires
                    0 <= now <= k * k,
                    0 <= moved <= p * p,
            ;
            assert(4 * ((k * k) * (p * p)) == (2 * (k * p)) * (2 * (k * p))) by (nonlinear_arith);
            lemma_squares_ordered(2 * (k * p), t);
            assert(t <= 2 * (k * p));
        }
        assert(false);
    }
}

/// Whether `u` and `l` bound the distances from `x`: the centre `a` lies
/// within `u`, and every other centre at least `l` away.
pub open spec fn bounded<M: ColorModel>(
    model: &M,
    x: M::Color,
    centres: Seq<M::Color>,
    a: int,
    u: int,
    l: int,
) -> bool {
    &&& 0 <= a < centres.len()
    &&& 0 <= u
    &&& 0 <= l
    &&& model.gap(x, centres[a]) <= u * u
    &&& forall|j: int|
        0 <= j < centres.len() && j != a ==> l * l <= #[trigger] model.gap(x, centres[j])
}

/// Whether every sample is bounded, with its label as its centre.
pub open spec fn all_bounded<M: ColorModel>(
    model: &M,
    samples: Seq<M::Color>,
    centres: Seq<M::Color>,
    labels: Seq<usize>,
    upper: Seq<u32>,
    lower: Seq<u32>,
) -> bool {
    &&& labels.len() == samples.len()
    &&& upper.len() == samples.len()
    &&& lower.len() == samples.len()
    &&& forall|i: int|
        0 <= i < samples.len() ==> bounded(
            model,
            samples[i],
            centres,
            #[trigger] labels[i] as int,
            upper[i] as int,
            lower[i] as int,
        )
}

/// A centre that lies nearer than every other is the nearest one.
proof fn lemma_strictly_nearest<M: ColorModel>(
    model: &M,
    x: M::Color,
    centres: Seq<M::Color>,
    a: int,
)
    requires
        0 <= a < centres.len(),
        forall|j: int|
            0 <= j < centres.len() && j != a ==> model.gap(x, centres[a]) < #[trigger] model.gap(
                x,
                centres[j],
            ),
    ensures
        first_min(gaps(model, x, centres)) == a,
{
    let g = gaps(model, x, centres);
    model.lemma_gap_fits(x, centres[a]);
    assert forall|j: int| 0 <= j < g.len() && j != a implies g[a] < #[trigger] g[j] by {
        model.lemma_gap_fits(x, centres[j]);
    }
    assert(is_first_min(g, a));
    lemma_first_min_is(g, a);
}

/// A sample whose centre lies within `u`, while every other centre lies
/// at least `l > u` away, has that centre as its nearest.
proof fn lemma_bounds_keep<M: ColorModel>(
    model: &M,
    x: M::Color,
    centres: Seq<M::Color>,
    a: int,
    u: int,
    l: int,
)
    requires
        bounded(model, x, centres, a, u, l),
        u < l,
    ensures
        first_min(gaps(model, x, centres)) == a,
{
    lemma_squares_ordered(u, l);
    lemma_strictly_nearest(model, x, centres, a);
}

proof fn lemma_prune(far: int, near: int, other: int)
    by (nonlinear_arith)
    requires
        near >= 0,
        other >= 0,
        4 * near < far,
        far <= near + other || (far - near - other) * (far - near - other) <= 4 * near * other,
    ensures
        near < other,
{
}

/// A sample that lies nearer to a centre than half the way from that
/// centre to any other has that centre as its nearest. On squared
/// distances half the way is a quarter of the distance.
proof fn lemma_stays<M: ColorModel>(model: &M, x: M::Color, centres: Seq<M::Color>, a: int, sep: int)
    requires
        model.metric(),
        0 <= a < centres.len(),
        4 * model.gap(x, centres[a]) < sep,
        forall|j: int|
            0 <= j < centres.len() && j != a ==> sep <= #[trigger] model.gap(centres[a], centres[j]),
    ensures
        first_min(gaps(model, x, centres)) == a,
{
    assert forall|j: int| 0 <= j < centres.len() && j != a implies model.gap(x, centres[a])
        < #[trigger] model.gap(x, centres[j]) by {
        model.lemma_metric(centres[a], x, centres[j]);
        model.lemma_metric(x, centres[a], centres[j]);
        let far = model.gap(centres[a], centres[j]) as int;
        let near = model.gap(centres[a], x) as int;
        let other = model.gap(x, centres[j]) as int;
        lemma_prune(far, near, other);
    }
    lemma_strictly_nearest(model, x, centres, a);
}

/// The least distance from centre `a` to another centre, or the greatest
/// word where it is alone: no other centre lies nearer to it, and one of
/// them lies exactly so far.
fn separation<M: ColorModel>(model: &M, centres: &Vec<M::Color>, a: usize) -> (sep: u32)
    requires
        a < centres@.len(),
    ensures
        forall|j: int|
            0 <= j < centres@.len() && j != a ==> sep <= #[trigger] model.gap(
                centres@[a as int],
                centres@[j],
            ),
        sep == u32::MAX || exists|j: int|
            0 <= j < centres@.len() && j != a && sep == #[trigger] model.gap(
                centres@[a as int],
                centres@[j],
            ),
{
    let mut sep: u32 = u32::MAX;
    let mut j: usize = 0;
    let ghost mut at: int = 0;
    while j < centres.len()
        invariant
            a < centres@.len(),
            0 <= j <= centres@.len(),
            forall|t: int|
                0 <= t < j && t != a ==> sep <= #[trigger] model.gap(centres@[a as int], centres@[t]),
            sep == u32::MAX || (0 <= at < j && at != a && sep == model.gap(
                centres@[a as int],
                centres@[at],
            )),
        decreases centres.len() - j,
    {
        if j != a {
            let d = model.distance(&centres[a], &centres[j]);
            if d < sep {
                sep = d;
                proof {
                    at = j as int;
                }
            }
        }
        j = j + 1;
    }
    sep
}

/// Measures `x` against every centre: the nearest centre, a bound within
/// which it lies, and a bound beyond which every other centre lies.
fn survey<M: ColorModel>(model: &M, x: &M::Color, centres: &Vec<M::Color>) -> (found: (
    usize,
    u32,
    u32,
))
    requires
        centres@.len() > 0,
    ensures
        found.0 == first_min(gaps(model, *x, centres@)),
        bounded(model, *x, centres@, found.0 as int, found.1 as int, found.2 as int),
{
    let mut row: Vec<u128> = Vec::new();
    let mut j: usize = 0;
    while j < centres.len()
        invariant
            0 <= j <= centres@.len(),
            row@.len() == j,
            forall|t: int| 0 <= t < j ==> row@[t] == model.gap(*x, centres@[t]),
            forall|t: int| 0 <= t < j ==> row@[t] <= u32::MAX,
        decreases centres.len() - j,
    {
        let d = model.distance(x, &centres[j]);
        row.push(d as u128);
        j = j + 1;
    }
    assert(row@ =~= gaps(model, *x, centres@));
    let a = match nearest(&row) {
        Some(best) => best,
        None => 0,
    };
    let mut second: u32 = u32::MAX;
    let mut t: usize = 0;
    while t < row.len()
        invariant
            row@.len() == centres@.len(),
            0 <= t <= row@.len(),
            a < row@.len(),
            forall|s: int| 0 <= s < row@.len() ==> row@[s] == model.gap(*x, centres@[s]),
            forall|s: int| 0 <= s < row@.len() ==> row@[s] <= u32::MAX,
            forall|s: int| 0 <= s < t && s != a ==> second <= #[trigger] row@[s],
        decreases row.len() - t,
    {
        if t != a && row[t] < second as u128 {
            second = row[t] as u32;
        }
        t = t + 1;
    }
    let u = root_ceil(row[a] as u32);
    let l = root_floor(second);
    proof {
        assert forall|s: int| 0 <= s < centres@.len() && s != a implies l * l <= #[trigger] model.gap(
            *x,
            centres@[s],
        ) by {
            assert(second <= row@[s]);
        }
    }
    (a, u, l)
}

/// Measures every sample against every centre.
pub(crate) fn survey_all<M: ColorModel>(
    model: &M,
    samples: &Vec<M::Color>,
    centres: &Vec<M::Color>,
) -> (found: (Vec<usize>, Vec<u32>, Vec<u32>))
    requires
        centres@.len() > 0,
    ensures
        found.0@ == assignment(model, samples@, centres@),
        all_bounded(model, samples@, centres@, found.0@, found.1@, found.2@),
{
    let mut labels: Vec<usize> = Vec::new();
    let mut upper: Vec<u32> = Vec::new();
    let mut lower: Vec<u32> = Vec::new();
    let mut i: usize = 0;
    while i < samples.len()
        invariant
            centres@.len() > 0,
            0 <= i <= samples@.len(),
            labels@.len() == i,
            upper@.len() == i,
            lower@.len() == i,
            forall|t: int|
                0 <= t < i ==> labels@[t] == first_min(gaps(model, samples@[t], centres@)) as usize,
            forall|t: int|
                0 <= t < i ==> bounded(
                    model,
                    samples@[t],
                    centres@,
                    #[trigger] labels@[t] as int,
                    upper@[t] as int,
                    lower@[t] as int,
                ),
        decreases samples.len() - i,
    {
        let x = samples[i];
        let (a, u, l) = survey(model, &x, centres);
        labels.push(a);
        upper.push(u);
        lower.push(l);
        i = i + 1;
    }
    assert(labels@ =~= assignment(model, samples@, centres@));
    (labels, upper, lower)
}

/// How far each centre has moved, rounded up, and the farthest of these.
fn movement<M: ColorModel>(model: &M, old: &Vec<M::Color>, new: &Vec<M::Color>) -> (moved: (
    Vec<u32>,
    u32,
))
    requires
        old@.len() == new@.len(),
    ensures
        moved.0@.len() == old@.len(),
        forall|j: int|
            0 <= j < old@.len() ==> model.gap(old@[j], new@[j]) <= #[trigger] moved.0@[j]
                * moved.0@[j],
        forall|j: int| 0 <= j < old@.len() ==> #[trigger] moved.0@[j] <= moved.1,
        moved.1 <= FAR,
{
    let mut steps: Vec<u32> = Vec::new();
    let mut most: u32 = 0;
    let mut j: usize = 0;
    while j < old.len()
        invariant
            old@.len() == new@.len(),
            0 <= j <= old@.len(),
            steps@.len() == j,
            forall|t: int|
                0 <= t < j ==> model.gap(old@[t], new@[t]) <= #[trigger] steps@[t] * steps@[t],
            forall|t: int| 0 <= t < j ==> #[trigger] steps@[t] <= most,
            most <= FAR,
        decreases old.len() - j,
    {
        let p = root_ceil(model.distance(&old[j], &new[j]));
        if p > most {
            most = p;
        }
        steps.push(p);
        j = j + 1;
    }
    (steps, most)
}

/// Carries the bounds over a move of the centres: a sample's own centre
/// may have come nearer or gone farther by its step, and every other
/// centre may have come nearer by the longest step.
pub(crate) fn shift<M: ColorModel>(
    model: &M,
    samples: &Vec<M::Color>,
    labels: &Vec<usize>,
    old: &Vec<M::Color>,
    new: &Vec<M::Color>,
    upper: &Vec<u32>,
    lower: &Vec<u32>,
) -> (bounds: (Vec<u32>, Vec<u32>))
    requires
        model.metric(),
        old@.len() == new@.len(),
        all_bounded(model, samples@, old@, labels@, upper@, lower@),
    ensures
        all_bounded(model, samples@, new@, labels@, bounds.0@, bounds.1@),
{
    let (steps, most) = movement(model, old, new);
    let mut up: Vec<u32> = Vec::new();
    let mut low: Vec<u32> = Vec::new();
    let mut i: usize = 0;
    while i < samples.len()
        invariant
            model.metric(),
            old@.len() == new@.len(),
            all_bounded(model, samples@, old@, labels@, upper@, lower@),
            steps@.len() == old@.len(),
            forall|j: int|
                0 <= j < old@.len() ==> model.gap(old@[j], new@[j]) <= #[trigger] steps@[j] * steps@[j],
            forall|j: int| 0 <= j < old@.len() ==> #[trigger] steps@[j] <= most,
            most <= FAR,
            0 <= i <= samples@.len(),
            up@.len() == i,
            low@.len() == i,
            forall|t: int|
                0 <= t < i ==> bounded(
                    model,
                    samples@[t],
                    new@,
                    #[trigger] labels@[t] as int,
                    up@[t] as int,
                    low@[t] as int,
                ),
        decreases samples.len() - i,
    {
        let a = labels[i];
        let ghost x = samples@[i as int];
        proof {
            assert(bounded(model, x, old@, labels@[i as int] as int, upper@[i as int] as int, lower@[i as int] as int));
        }
        let p = steps[a];
        let u: u32 = if upper[i] >= FAR || p >= FAR - upper[i] {
            FAR
        } else {
            upper[i] + p
        };
        let l: u32 = if lower[i] > most { lower[i] - most } else { 0 };
        proof {
            model.lemma_gap_fits(x, new@[a as int]);
            model.lemma_metric(x, old@[a as int], new@[a as int]);
            if u < FAR {
                lemma_upper_moves(
                    model.gap(x, new@[a as int]) as int,
                    model.gap(x, old@[a as int]) as int,
                    model.gap(old@[a as int], new@[a as int]) as int,
                    upper@[i as int] as int,
                    p as int,
                );
            }
            assert forall|j: int| 0 <= j < new@.len() && j != a implies l * l <= #[trigger] model.gap(
                x,
                new@[j],
            ) by {
                if l > 0 {
                    model.lemma_metric(x, new@[j], old@[j]);
                    model.lemma_metric(old@[j], new@[j], x);
                    lemma_squares_ordered(steps@[j] as int, most as int);
                    lemma_lower_moves(
                        model.gap(x, old@[j]) as int,
                        model.gap(x, new@[j]) as int,
                        model.gap(new@[j], old@[j]) as int,
                        lower@[i as int] as int,
                        most as int,
                    );
                }
            }
        }
        up.push(u);
        low.push(l);
        i = i + 1;
    }
    (up, low)
}

/// Assigns every sample to its nearest centre, and measures no more than
/// the bounds leave open: a sample stays with the centre it had where its
/// bounds, or the distance to that centre alone, show that no other
/// centre can be nearer.
pub(crate) fn reassign<M: ColorModel>(
    model: &M,
    samples: &Vec<M::Color>,
    centres: &Vec<M::Color>,
    previous: &Vec<usize>,
    upper: &Vec<u32>,
    lower: &Vec<u32>,
) -> (found: (Vec<usize>, Vec<u32>, Vec<u32>))
    requires
        model.metric(),
        centres@.len() > 0,
        all_bounded(model, samples@, centres@, previous@, upper@, lower@),
    ensures
        found.0@ == assignment(model, samples@, centres@),
        all_bounded(model, samples@, centres@, found.0@, found.1@, found.2@),
{
    let mut seps: Vec<u32> = Vec::new();
    let mut c: usize = 0;
    while c < centres.len()
        invariant
            0 <= c <= centres@.len(),
            seps@.len() == c,
            forall|a: int, j: int|
                0 <= a < c && 0 <= j < centres@.len() && j != a ==> seps@[a] <= #[trigger] model.gap(
                    centres@[a],
                    centres@[j],
                ),
        decreases centres.len() - c,
    {
        let sep = separation(model, centres, c);
        seps.push(sep);
        c = c + 1;
    }
    let mut labels: Vec<usize> = Vec::new();
    let mut up: Vec<u32> = Vec::new();
    let mut low: Vec<u32> = Vec::new();
    let mut i: usize = 0;
    while i < samples.len()
        invariant
            model.metric(),
            centres@.len() > 0,
            all_bounded(model, samples@, centres@, previous@, upper@, lower@),
            seps@.len() == centres@.len(),
            forall|a: int, j: int|
                0 <= a < centres@.len() && 0 <= j < centres@.len() && j != a ==> seps@[a]
                    <= #[trigger] model.gap(centres@[a], centres@[j]),
            0 <= i <= samples@.len(),
            labels@.len() == i,
            up@.len() == i,
            low@.len() == i,
            forall|t: int|
                0 <= t < i ==> labels@[t] == first_min(gaps(model, samples@[t], centres@)) as usize,
            forall|t: int|
                0 <= t < i ==> bounded(
                    model,
                    samples@[t],
                    centres@,
                    #[trigger] labels@[t] as int,
                    up@[t] as int,
                    low@[t] as int,
                ),
        decreases samples.len() - i,
    {
        let x = samples[i];
        let a = previous[i];
        proof {
            assert(bounded(model, x, centres@, previous@[i as int] as int, upper@[i as int] as int, lower@[i as int] as int));
        }
        let mut found = (a, upper[i], lower[i]);
        if upper[i] < lower[i] {
            proof {
                lemma_bounds_keep(model, x, centres@, a as int, upper@[i as int] as int, lower@[i as int] as int);
            }
        } else {
            let d = model.distance(&x, &centres[a]);
            let u = root_ceil(d);
            if u < lower[i] {
                proof {
                    lemma_bounds_keep(model, x, centres@, a as int, u as int, lower@[i as int] as int);
                }
                found = (a, u, lower[i]);
            } else if 4 * (d as u64) < seps[a] as u64 {
                proof {
                    lemma_stays(model, x, centres@, a as int, seps@[a as int] as int);
                }
                found = (a, u, lower[i]);
            } else {
                found = survey(model, &x, centres);
            }
        }
        labels.push(found.0);
        up.push(found.1);
        low.push(found.2);
        i = i + 1;
    }
    assert(labels@ =~= assignment(model, samples@, centres@));
    (labels, up, low)
}

} // verus!
