//! How a region is summarised, and how far a summary lies from the
//! signature of a library image.

use vstd::prelude::*;
use crate::color::{lemma_gap_zero_iff_same, mean_of, mean_rgb, ColorModel, Rgb, RgbSquared};
use crate::kmeans::{cluster_count, clustered, kmeans, members};
use crate::options::CalculationUnit;

verus! {

/// A summary of some pixels: representative colours, each with the number
/// of pixels it stands for.
pub struct Signature<C> {
    pub colors: Vec<C>,
    pub weights: Vec<usize>,
}

/// The colours that the pixels stand for, one for one.
pub open spec fn converted_all<M: ColorModel>(model: &M, pixels: Seq<Rgb>) -> Seq<M::Color> {
    Seq::new(pixels.len(), |i: int| model.converted(pixels[i]))
}

/// The colours of a summary of `pixels`: their mean for the average unit,
/// every one of them for the pixel unit, and the representatives of `k`
/// clusters for the k-means unit.
pub open spec fn signature_of<M: ColorModel>(
    model: &M,
    unit: CalculationUnit,
    k: nat,
    pixels: Seq<Rgb>,
) -> Seq<M::Color> {
    match unit {
        CalculationUnit::Average => seq![model.converted(mean_rgb(pixels))],
        CalculationUnit::Pixel => converted_all(model, pixels),
        CalculationUnit::KMeans => clustered(model, converted_all(model, pixels), k).0,
    }
}

/// The weights of a summary of `pixels`: one for a mean and for a single
/// pixel, and the number of members for a cluster.
pub open spec fn weights_of<M: ColorModel>(
    model: &M,
    unit: CalculationUnit,
    k: nat,
    pixels: Seq<Rgb>,
) -> Seq<usize> {
    match unit {
        CalculationUnit::Average => seq![1usize],
        CalculationUnit::Pixel => Seq::new(pixels.len(), |i: int| 1usize),
        CalculationUnit::KMeans => Seq::new(
            cluster_count(pixels.len(), k),
            |j: int|
                members(
                    converted_all(model, pixels),
                    clustered(model, converted_all(model, pixels), k).1,
                    j,
                ).len() as usize,
        ),
    }
}

/// Takes each pixel to the colour it stands for.
pub fn convert_all<M: ColorModel>(model: &M, pixels: &Vec<Rgb>) -> (colors: Vec<M::Color>)
    ensures
        colors@ == converted_all(model, pixels@),
{
    let mut colors: Vec<M::Color> = Vec::new();
    let mut i: usize = 0;
    while i < pixels.len()
        invariant
            0 <= i <= pixels@.len(),
            colors@.len() == i,
            forall|t: int| 0 <= t < i ==> colors@[t] == model.converted(pixels@[t]),
        decreases pixels.len() - i,
    {
        let c = model.convert(&pixels[i]);
        colors.push(c);
        i = i + 1;
    }
    assert(colors@ =~= converted_all(model, pixels@));
    colors
}

/// Summarises `pixels` in the way of the calculation unit.
pub fn summarise<M: ColorModel>(
    model: &M,
    unit: CalculationUnit,
    k: u32,
    accelerate: bool,
    pixels: &Vec<Rgb>,
) -> (sig: Signature<M::Color>)
    ensures
        sig.colors@ == signature_of(model, unit, k as nat, pixels@),
        sig.weights@ == weights_of(model, unit, k as nat, pixels@),
        sig.weights@.len() == sig.colors@.len(),
        unit == CalculationUnit::KMeans ==> sig.colors@.len() <= k,
{
    match unit {
        CalculationUnit::Average => {
            let m = mean_of(pixels);
            let c = model.convert(&m);
            let mut colors: Vec<M::Color> = Vec::new();
            colors.push(c);
            let mut weights: Vec<usize> = Vec::new();
            weights.push(1);
            assert(colors@ =~= signature_of(model, unit, k as nat, pixels@));
            assert(weights@ =~= weights_of(model, unit, k as nat, pixels@));
            Signature { colors, weights }
        },
        CalculationUnit::Pixel => {
            let colors = convert_all(model, pixels);
            let mut weights: Vec<usize> = Vec::new();
            let mut i: usize = 0;
            while i < pixels.len()
                invariant
                    0 <= i <= pixels@.len(),
                    weights@.len() == i,
                    forall|t: int| 0 <= t < i ==> weights@[t] == 1usize,
                decreases pixels.len() - i,
            {
                weights.push(1);
                i = i + 1;
            }
            assert(weights@ =~= weights_of(model, unit, k as nat, pixels@));
            Signature { colors, weights }
        },
        CalculationUnit::KMeans => {
            let samples = convert_all(model, pixels);
            let out = kmeans(model, &samples, k as usize, accelerate);
            assert(out.weights@ =~= weights_of(model, unit, k as nat, pixels@));
            Signature { colors: out.centres, weights: out.weights }
        },
    }
}

/// The least distance from `x` to any of the colours `b`; zero where
/// there is none to measure against.
pub open spec fn least_gap<M: ColorModel>(model: &M, x: M::Color, b: Seq<M::Color>) -> nat
    decreases b.len(),
{
    if b.len() == 0 {
        0
    } else if b.len() == 1 {
        model.gap(x, b[0])
    } else {
        let rest = least_gap(model, x, b.drop_last());
        let last = model.gap(x, b.last());
        if last < rest {
            last
        } else {
            rest
        }
    }
}

/// The distance from a summary to a signature, each representative
/// matched with the nearest colour of the signature: the sum, over the
/// representatives, of the weight times the least distance.
pub open spec fn matched<M: ColorModel>(
    model: &M,
    colors: Seq<M::Color>,
    weights: Seq<usize>,
    b: Seq<M::Color>,
) -> nat
    decreases colors.len(),
{
    if colors.len() == 0 || weights.len() == 0 {
        0
    } else {
        matched(model, colors.drop_last(), weights.drop_last(), b) + (weights.last() as nat)
            * least_gap(model, colors.last(), b)
    }
}

/// The part that position `t` of a region adds to its paired distance: the
/// region is `across` pixels wide, the signature holds the rows of an image
/// `width` pixels wide, and the two are laid corner on corner. A position
/// that has no partner in the signature adds nothing.
pub open spec fn pair_gap<M: ColorModel>(
    model: &M,
    colors: Seq<M::Color>,
    across: int,
    b: Seq<M::Color>,
    width: int,
    t: int,
) -> nat {
    let partner = (t / across) * width + t % across;
    if across > 0 && t % across < width && partner < b.len() {
        model.gap(colors[t], b[partner])
    } else {
        0
    }
}

/// The distance from the colours of a region to a signature that holds
/// every pixel of an image, pixel by pixel: the sum of `pair_gap` over the
/// first `count` positions of the region.
pub open spec fn paired<M: ColorModel>(
    model: &M,
    colors: Seq<M::Color>,
    across: int,
    b: Seq<M::Color>,
    width: int,
    count: nat,
) -> nat
    decreases count,
{
    if count == 0 {
        0
    } else {
        paired(model, colors, across, b, width, (count - 1) as nat) + pair_gap(
            model,
            colors,
            across,
            b,
            width,
            count - 1,
        )
    }
}

/// The distance from a summary to the signature `b` of a library image of
/// the given width: pixel by pixel for the pixel unit, and by the nearest
/// colour for the other units.
pub open spec fn score<M: ColorModel>(
    model: &M,
    unit: CalculationUnit,
    colors: Seq<M::Color>,
    weights: Seq<usize>,
    across: int,
    b: Seq<M::Color>,
    width: int,
) -> nat {
    match unit {
        CalculationUnit::Pixel => paired(model, colors, across, b, width, colors.len()),
        _ => matched(model, colors, weights, b),
    }
}

proof fn lemma_term_bound(w: int, d: int)
    by (nonlinear_arith)
    requires
        0 <= w <= 0xffff_ffff_ffff_ffff,
        0 <= d <= 0xffff_ffff,
    ensures
        0 <= w * d <= 0xffff_fffe_ffff_ffff_0000_0001,
{
}

/// Under the squared distance on bytes, a region laid on a signature that
/// holds the very same pixels in rows of the same width lies at distance
/// zero from it.
pub proof fn lemma_paired_self_zero(pixels: Seq<Rgb>, across: int, count: nat)
    requires
        across > 0,
        count <= pixels.len(),
    ensures
        paired(
            &RgbSquared,
            converted_all(&RgbSquared, pixels),
            across,
            converted_all(&RgbSquared, pixels),
            across,
            count,
        ) == 0,
    decreases count,
{
    if count > 0 {
        let t = count - 1;
        lemma_paired_self_zero(pixels, across, t as nat);
        assert((t / across) * across + t % across == t) by (nonlinear_arith)
            requires
                across > 0,
        ;
        lemma_gap_zero_iff_same(pixels[t], pixels[t]);
    }
}

/// Measures the least distance from `x` to the colours `b`.
pub fn least_distance<M: ColorModel>(model: &M, x: &M::Color, b: &Vec<M::Color>) -> (d: u32)
    ensures
        d == least_gap(model, *x, b@),
{
    if b.len() == 0 {
        return 0;
    }
    let mut best = model.distance(x, &b[0]);
    let mut j: usize = 1;
    assert(b@.subrange(0, 1)[0] == b@[0]);
    while j < b.len()
        invariant
            1 <= j <= b@.len(),
            best == least_gap(model, *x, b@.subrange(0, j as int)),
        decreases b.len() - j,
    {
        let d = model.distance(x, &b[j]);
        proof {
            assert(b@.subrange(0, j + 1).drop_last() =~= b@.subrange(0, j as int));
            assert(b@.subrange(0, j + 1).last() == b@[j as int]);
        }
        if d < best {
            best = d;
        }
        j = j + 1;
    }
    assert(b@.subrange(0, j as int) =~= b@);
    best
}

/// Measures the distance from a summary to a signature by the nearest
/// colour.
pub fn matched_distance<M: ColorModel>(model: &M, sig: &Signature<M::Color>, b: &Vec<M::Color>) -> (total:
    u128)
    requires
        sig.colors@.len() == sig.weights@.len(),
        sig.colors@.len() <= u32::MAX,
    ensures
        total == matched(model, sig.colors@, sig.weights@, b@),
{
    let mut total: u128 = 0;
    let mut i: usize = 0;
    while i < sig.colors.len()
        invariant
            sig.colors@.len() == sig.weights@.len(),
            sig.colors@.len() <= u32::MAX,
            0 <= i <= sig.colors@.len(),
            total == matched(
                model,
                sig.colors@.subrange(0, i as int),
                sig.weights@.subrange(0, i as int),
                b@,
            ),
            total <= i * 0xffff_fffe_ffff_ffff_0000_0001,
        decreases sig.colors.len() - i,
    {
        let d = least_distance(model, &sig.colors[i], b);
        let w = sig.weights[i];
        proof {
            assert(sig.colors@.subrange(0, i + 1).drop_last() =~= sig.colors@.subrange(0, i as int));
            assert(sig.weights@.subrange(0, i + 1).drop_last() =~= sig.weights@.subrange(
                0,
                i as int,
            ));
            lemma_term_bound(w as int, d as int);
        }
        total = total + (w as u128) * (d as u128);
        i = i + 1;
    }
    proof {
        assert(sig.colors@.subrange(0, i as int) =~= sig.colors@);
        assert(sig.weights@.subrange(0, i as int) =~= sig.weights@);
    }
    total
}

/// Measures the distance from the colours of a region, `across` pixels
/// wide, to a signature that holds every pixel of an image `width` pixels
/// wide, pixel by pixel from the top left corner.
pub fn paired_distance<M: ColorModel>(
    model: &M,
    colors: &Vec<M::Color>,
    across: u32,
    b: &Vec<M::Color>,
    width: u32,
) -> (total: u128)
    ensures
        total == paired(model, colors@, across as int, b@, width as int, colors@.len()),
{
    let mut total: u128 = 0;
    let mut t: usize = 0;
    while t < colors.len()
        invariant
            0 <= t <= colors@.len(),
            total == paired(model, colors@, across as int, b@, width as int, t as nat),
            total <= t * 0xffff_ffff,
        decreases colors.len() - t,
    {
        if across > 0 {
            let i = t % (across as usize);
            let j = t / (across as usize);
            proof {
                lemma_term_bound(j as int, width as int);
            }
            let partner: u128 = (j as u128) * (width as u128) + (i as u128);
            if i < width as usize && partner < b.len() as u128 {
                let d = model.distance(&colors[t], &b[partner as usize]);
                total = total + d as u128;
            }
        }
        t = t + 1;
    }
    total
}

} // verus!
