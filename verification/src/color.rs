//! Colours, and the way a colour space measures them.

use vstd::prelude::*;

verus! {

/// A pixel as it is decoded: one byte for each of red, green and blue.
#[derive(Debug, Clone, Copy, Eq, PartialEq, Structural)]
pub struct Rgb {
    pub r: u8,
    pub g: u8,
    pub b: u8,
}

/// A working colour space with its distance: how a decoded pixel becomes a
/// colour of the space, how far two colours lie apart, and where the centre
/// of a group of colours lies.
///
/// The three `spec` functions say what the three operations compute; an
/// implementation is bound to them, so every operation is a pure function
/// of its arguments.
pub trait ColorModel {
    /// A colour of the working space.
    type Color: Copy;

    /// The colour that a decoded pixel stands for.
    spec fn converted(&self, px: Rgb) -> Self::Color;

    /// The distance between two colours.
    spec fn gap(&self, a: Self::Color, b: Self::Color) -> nat;

    /// The centre of a non-empty group of colours.
    spec fn centre(&self, colors: Seq<Self::Color>) -> Self::Color;

    fn convert(&self, px: &Rgb) -> (c: Self::Color)
        ensures
            c == self.converted(*px),
    ;

    fn distance(&self, a: &Self::Color, b: &Self::Color) -> (d: u32)
        ensures
            d == self.gap(*a, *b),
    ;

    fn mean(&self, colors: &Vec<Self::Color>) -> (c: Self::Color)
        requires
            colors@.len() > 0,
        ensures
            c == self.centre(colors@),
    ;

    /// Whether the distance is symmetric and obeys the triangle inequality
    /// in the form of `rooted_triangle`. Only then may a search for the
    /// nearest colour be cut short by what the triangle inequality implies.
    spec fn metric(&self) -> bool;

    fn is_metric(&self) -> (yes: bool)
        ensures
            yes == self.metric(),
    ;

    /// A distance fits the machine word that `distance` returns.
    proof fn lemma_gap_fits(&self, a: Self::Color, b: Self::Color)
        ensures
            self.gap(a, b) <= u32::MAX,
    ;

    /// What `metric` promises.
    proof fn lemma_metric(&self, a: Self::Color, b: Self::Color, c: Self::Color)
        ensures
            self.metric() ==> self.gap(a, b) == self.gap(b, a),
            self.metric() ==> rooted_triangle(
                self.gap(a, c) as int,
                self.gap(a, b) as int,
                self.gap(b, c) as int,
            ),
    ;
}

/// Converting is a function of the pixel: whatever two calls of `convert`
/// return for the same pixel is the same colour.
pub proof fn lemma_convert_repeats<M: ColorModel>(
    model: &M,
    px: &Rgb,
    first: M::Color,
    second: M::Color,
)
    requires
        call_ensures(M::convert, (model, px), first),
        call_ensures(M::convert, (model, px), second),
    ensures
        first == second,
{
}

/// Measuring is a function of the two colours: whatever two calls of
/// `distance` return for the same colours is the same distance.
pub proof fn lemma_distance_repeats<M: ColorModel>(
    model: &M,
    a: &M::Color,
    b: &M::Color,
    first: u32,
    second: u32,
)
    requires
        call_ensures(M::distance, (model, a, b), first),
        call_ensures(M::distance, (model, a, b), second),
    ensures
        first == second,
{
}

/// One channel of a pixel: 0 is red, 1 is green, anything else is blue.
pub open spec fn channel(px: Rgb, k: int) -> int {
    if k == 0 {
        px.r as int
    } else if k == 1 {
        px.g as int
    } else {
        px.b as int
    }
}

/// The sum of channel `k` over a sequence of pixels.
pub open spec fn channel_sum(pixels: Seq<Rgb>, k: int) -> int
    decreases pixels.len(),
{
    if pixels.len() == 0 {
        0
    } else {
        channel_sum(pixels.drop_last(), k) + channel(pixels.last(), k)
    }
}

/// The mean of a sequence of pixels, each channel rounded down to a whole
/// byte. The mean of no pixels is black.
pub open spec fn mean_rgb(pixels: Seq<Rgb>) -> Rgb {
    if pixels.len() == 0 {
        Rgb { r: 0, g: 0, b: 0 }
    } else {
        Rgb {
            r: (channel_sum(pixels, 0) / (pixels.len() as int)) as u8,
            g: (channel_sum(pixels, 1) / (pixels.len() as int)) as u8,
            b: (channel_sum(pixels, 2) / (pixels.len() as int)) as u8,
        }
    }
}

/// The squared Euclidean distance between two pixels, on the scale of the
/// bytes: the sum of the squared differences of the three channels.
pub open spec fn squared_gap(a: Rgb, b: Rgb) -> nat {
    ((a.r - b.r) * (a.r - b.r) + (a.g - b.g) * (a.g - b.g) + (a.b - b.b) * (a.b - b.b)) as nat
}

/// The triangle inequality for distances given by their squares: the root
/// of `far` is no more than the roots of `one` and `other` together. Said
/// without roots, `far` exceeds `one + other` by no more than twice the
/// root of their product.
pub open spec fn rooted_triangle(far: int, one: int, other: int) -> bool {
    far <= one + other || (far - one - other) * (far - one - other) <= 4 * one * other
}

proof fn lemma_swap(u: int, v: int, w: int, x: int)
    by (nonlinear_arith)
    ensures
        (u * x) * (v * w) == (u * w) * (v * x),
        (u * u) * (w * w) == (u * w) * (u * w),
{
}

proof fn lemma_square_sum(a: int, b: int, c: int)
    by (nonlinear_arith)
    ensures
        (a + b + c) * (a + b + c) == a * a + b * b + c * c + 2 * (a * b) + 2 * (a * c) + 2 * (b * c),
        (a - b) * (a - b) == a * a + b * b - 2 * (a * b),
        (a - b) * (a - b) >= 0,
{
}

proof fn lemma_spread(a: int, b: int, c: int, x: int, y: int, z: int)
    by (nonlinear_arith)
    ensures
        (a + b + c) * (x + y + z) == a * x + a * y + a * z + b * x + b * y + b * z + c * x + c * y
            + c * z,
{
}

/// The square of the inner product of two triples is at most the product
/// of their squared lengths.
proof fn lemma_cauchy(u1: int, u2: int, u3: int, w1: int, w2: int, w3: int)
    ensures
        (u1 * w1 + u2 * w2 + u3 * w3) * (u1 * w1 + u2 * w2 + u3 * w3) <= (u1 * u1 + u2 * u2 + u3
            * u3) * (w1 * w1 + w2 * w2 + w3 * w3),
{
    let a11 = u1 * w1;
    let a12 = u1 * w2;
    let a13 = u1 * w3;
    let a21 = u2 * w1;
    let a22 = u2 * w2;
    let a23 = u2 * w3;
    let a31 = u3 * w1;
    let a32 = u3 * w2;
    let a33 = u3 * w3;
    lemma_spread(u1 * u1, u2 * u2, u3 * u3, w1 * w1, w2 * w2, w3 * w3);
    lemma_swap(u1, u1, w1, w1);
    lemma_swap(u1, u1, w2, w2);
    lemma_swap(u1, u1, w3, w3);
    lemma_swap(u2, u2, w1, w1);
    lemma_swap(u2, u2, w2, w2);
    lemma_swap(u2, u2, w3, w3);
    lemma_swap(u3, u3, w1, w1);
    lemma_swap(u3, u3, w2, w2);
    lemma_swap(u3, u3, w3, w3);
    assert((u1 * u1 + u2 * u2 + u3 * u3) * (w1 * w1 + w2 * w2 + w3 * w3) == a11 * a11 + a12 * a12
        + a13 * a13 + a21 * a21 + a22 * a22 + a23 * a23 + a31 * a31 + a32 * a32 + a33 * a33);
    lemma_square_sum(a11, a22, a33);
    lemma_square_sum(a12, a21, 0);
    lemma_square_sum(a13, a31, 0);
    lemma_square_sum(a23, a32, 0);
    // a product of two cross terms is a product of two straight ones
    lemma_swap(u1, u2, w1, w2);
    lemma_swap(u1, u3, w1, w3);
    lemma_swap(u2, u3, w2, w3);
    assert(a12 * a21 == a11 * a22);
    assert(a13 * a31 == a11 * a33);
    assert(a23 * a32 == a22 * a33);
}

proof fn lemma_rooted_triangle(u1: int, u2: int, u3: int, w1: int, w2: int, w3: int)
    ensures
        rooted_triangle(
            (u1 + w1) * (u1 + w1) + (u2 + w2) * (u2 + w2) + (u3 + w3) * (u3 + w3),
            u1 * u1 + u2 * u2 + u3 * u3,
            w1 * w1 + w2 * w2 + w3 * w3,
        ),
{
    let dot = u1 * w1 + u2 * w2 + u3 * w3;
    let one = u1 * u1 + u2 * u2 + u3 * u3;
    let other = w1 * w1 + w2 * w2 + w3 * w3;
    let far = (u1 + w1) * (u1 + w1) + (u2 + w2) * (u2 + w2) + (u3 + w3) * (u3 + w3);
    assert(far == one + other + 2 * dot) by (nonlinear_arith)
        requires
            dot == u1 * w1 + u2 * w2 + u3 * w3,
            one == u1 * u1 + u2 * u2 + u3 * u3,
            other == w1 * w1 + w2 * w2 + w3 * w3,
            far == (u1 + w1) * (u1 + w1) + (u2 + w2) * (u2 + w2) + (u3 + w3) * (u3 + w3),
    ;
    lemma_cauchy(u1, u2, u3, w1, w2, w3);
    assert(dot * dot <= one * other);
    assert((2 * dot) * (2 * dot) == 4 * (dot * dot)) by (nonlinear_arith);
    assert(4 * one * other == 4 * (one * other)) by (nonlinear_arith);
}

proof fn lemma_channel_sum_bounds(pixels: Seq<Rgb>, k: int)
    ensures
        0 <= channel_sum(pixels, k) <= 255 * pixels.len(),
    decreases pixels.len(),
{
    if pixels.len() > 0 {
        lemma_channel_sum_bounds(pixels.drop_last(), k);
    }
}

proof fn lemma_mean_is_byte(sum: int, n: int)
    by (nonlinear_arith)
    requires
        n > 0,
        0 <= sum <= 255 * n,
    ensures
        0 <= sum / n <= 255,
{
}

proof fn lemma_square(d: int)
    by (nonlinear_arith)
    requires
        -255 <= d <= 255,
    ensures
        0 <= d * d <= 65025,
        d * d == 0 <==> d == 0,
        d * d == (-d) * (-d),
{
}

/// The mean of a list of pixels.
pub fn mean_of(pixels: &Vec<Rgb>) -> (m: Rgb)
    ensures
        m == mean_rgb(pixels@),
{
    let n = pixels.len();
    if n == 0 {
        return Rgb { r: 0, g: 0, b: 0 };
    }
    let mut r: u128 = 0;
    let mut g: u128 = 0;
    let mut b: u128 = 0;
    let mut i: usize = 0;
    while i < n
        invariant
            n == pixels@.len(),
            0 <= i <= n,
            r == channel_sum(pixels@.subrange(0, i as int), 0),
            g == channel_sum(pixels@.subrange(0, i as int), 1),
            b == channel_sum(pixels@.subrange(0, i as int), 2),
        decreases n - i,
    {
        proof {
            let before = pixels@.subrange(0, i as int);
            let after = pixels@.subrange(0, i + 1);
            assert(after.drop_last() =~= before);
            lemma_channel_sum_bounds(before, 0);
            lemma_channel_sum_bounds(before, 1);
            lemma_channel_sum_bounds(before, 2);
        }
        let px = pixels[i];
        r = r + px.r as u128;
        g = g + px.g as u128;
        b = b + px.b as u128;
        i = i + 1;
    }
    proof {
        assert(pixels@.subrange(0, n as int) =~= pixels@);
        lemma_channel_sum_bounds(pixels@, 0);
        lemma_channel_sum_bounds(pixels@, 1);
        lemma_channel_sum_bounds(pixels@, 2);
        lemma_mean_is_byte(r as int, n as int);
        lemma_mean_is_byte(g as int, n as int);
        lemma_mean_is_byte(b as int, n as int);
    }
    let len = n as u128;
    Rgb { r: (r / len) as u8, g: (g / len) as u8, b: (b / len) as u8 }
}

/// The squared Euclidean distance between two pixels.
pub fn squared_distance(a: &Rgb, b: &Rgb) -> (d: u32)
    ensures
        d == squared_gap(*a, *b),
{
    let dr: u32 = if a.r < b.r { (b.r - a.r) as u32 } else { (a.r - b.r) as u32 };
    let dg: u32 = if a.g < b.g { (b.g - a.g) as u32 } else { (a.g - b.g) as u32 };
    let db: u32 = if a.b < b.b { (b.b - a.b) as u32 } else { (a.b - b.b) as u32 };
    proof {
        lemma_square(a.r - b.r);
        lemma_square(a.g - b.g);
        lemma_square(a.b - b.b);
        lemma_square(dr as int);
        lemma_square(dg as int);
        lemma_square(db as int);
    }
    dr * dr + dg * dg + db * db
}

/// The RGB colour space on the scale of the bytes, measured by the squared
/// Euclidean distance. Its arithmetic is exact.
#[derive(Debug, Clone, Copy)]
pub struct RgbSquared;

impl ColorModel for RgbSquared {
    type Color = Rgb;

    open spec fn converted(&self, px: Rgb) -> Rgb {
        px
    }

    open spec fn gap(&self, a: Rgb, b: Rgb) -> nat {
        squared_gap(a, b)
    }

    open spec fn centre(&self, colors: Seq<Rgb>) -> Rgb {
        mean_rgb(colors)
    }

    fn convert(&self, px: &Rgb) -> (c: Rgb) {
        *px
    }

    fn distance(&self, a: &Rgb, b: &Rgb) -> (d: u32) {
        squared_distance(a, b)
    }

    fn mean(&self, colors: &Vec<Rgb>) -> (c: Rgb) {
        mean_of(colors)
    }

    open spec fn metric(&self) -> bool {
        true
    }

    fn is_metric(&self) -> (yes: bool) {
        true
    }

    proof fn lemma_gap_fits(&self, a: Rgb, b: Rgb) {
        lemma_square(a.r - b.r);
        lemma_square(a.g - b.g);
        lemma_square(a.b - b.b);
    }

    proof fn lemma_metric(&self, a: Rgb, b: Rgb, c: Rgb) {
        lemma_gap_symmetric(a, b);
        lemma_gap_triangle(a, b, c);
    }
}

/// The squared distance is zero between a colour and itself, and between no
/// two different colours.
pub proof fn lemma_gap_zero_iff_same(a: Rgb, b: Rgb)
    ensures
        squared_gap(a, b) == 0 <==> a == b,
{
    lemma_square(a.r - b.r);
    lemma_square(a.g - b.g);
    lemma_square(a.b - b.b);
}

/// The roots of the squared distances obey the triangle inequality: the
/// way from `a` to `c` is no longer than the way over `b`.
pub proof fn lemma_gap_triangle(a: Rgb, b: Rgb, c: Rgb)
    ensures
        rooted_triangle(squared_gap(a, c) as int, squared_gap(a, b) as int, squared_gap(b, c) as int),
{
    lemma_rooted_triangle(a.r - b.r, a.g - b.g, a.b - b.b, b.r - c.r, b.g - c.g, b.b - c.b);
    lemma_square(a.r - b.r);
    lemma_square(a.g - b.g);
    lemma_square(a.b - b.b);
    lemma_square(b.r - c.r);
    lemma_square(b.g - c.g);
    lemma_square(b.b - c.b);
    lemma_square(a.r - c.r);
    lemma_square(a.g - c.g);
    lemma_square(a.b - c.b);
    assert((a.r - b.r) + (b.r - c.r) == a.r - c.r);
    assert((a.g - b.g) + (b.g - c.g) == a.g - c.g);
    assert((a.b - b.b) + (b.b - c.b) == a.b - c.b);
}

/// The squared distance does not depend on the order of the two colours.
pub proof fn lemma_gap_symmetric(a: Rgb, b: Rgb)
    ensures
        squared_gap(a, b) == squared_gap(b, a),
{
    lemma_square(a.r - b.r);
    lemma_square(a.g - b.g);
    lemma_square(a.b - b.b);
}

} // verus!
