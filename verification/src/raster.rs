//! Decoded images: rows of pixels, three bytes each.

use vstd::prelude::*;
use crate::color::Rgb;
use crate::mask::{covers, lemma_cell_index, lemma_index_cell, Mask};

verus! {

/// A decoded image: `width * height` pixels, row by row from the top, each
/// pixel three bytes in the order red, green, blue.
#[derive(Debug)]
pub struct RawImage {
    width: u32,
    height: u32,
    data: Vec<u8>,
}

/// Whether `len` bytes are exactly the pixels of a `width` by `height` image.
pub open spec fn fits(len: nat, width: u32, height: u32) -> bool {
    len == 3 * (width * height)
}

/// The pixel that starts at byte `3 * k` of `bytes`.
pub open spec fn pixel_at(bytes: Seq<u8>, k: int) -> Rgb {
    Rgb { r: bytes[3 * k], g: bytes[3 * k + 1], b: bytes[3 * k + 2] }
}

/// Whether the mask lies within an image of the given size.
pub open spec fn within(m: Mask, width: u32, height: u32) -> bool {
    m.0 + m.2 <= width && m.1 + m.3 <= height
}

/// The bytes that the `image` crate's `DynamicImage::resize_to_fill` makes,
/// with the nearest-neighbour filter, of an 8-bit RGB image with the given
/// bytes, width and height when it is asked for a square of side `size`.
pub uninterp spec fn resized_to_fill(bytes: Seq<u8>, width: u32, height: u32, size: u32) -> Seq<u8>;

/// Whether an image of the given size can be scaled to a square of side
/// `size`: nothing is empty, and the buffers used on the way, the largest
/// of which holds sixteen bytes for each pixel of the image stretched by
/// `size`, can be allocated on this machine.
pub open spec fn scalable(width: u32, height: u32, size: u32) -> bool {
    &&& 0 < width
    &&& 0 < height
    &&& 0 < size
    &&& width * size <= u32::MAX
    &&& height * size <= u32::MAX
    &&& 32 * ((width * size) * (height * size)) <= usize::MAX
}

/// Calls `image::DynamicImage::resize_to_fill(size, size, FilterType::Nearest)`
/// on the image and takes the result back as 8-bit RGB.
///
/// Trusted: the result is a square of side `size`; its bytes are what the
/// `image` crate computes from the bytes and the size of the input; and an
/// input that already is such a square comes back unchanged, since the crate
/// then copies the image in place of resampling it and crops nothing.
#[verifier::external_body]
fn resize_to_fill(img: &RawImage, size: u32) -> (out: RawImage)
    requires
        scalable(img.wd(), img.ht(), size),
    ensures
        out.wd() == size,
        out.ht() == size,
        out.bytes() == resized_to_fill(img.bytes(), img.wd(), img.ht(), size),
        img.wd() == size && img.ht() == size ==> out.bytes() == img.bytes(),
{
    let src = image::RgbImage::from_raw(img.width, img.height, img.data.clone()).unwrap();
    let scaled = image::DynamicImage::ImageRgb8(src)
        .resize_to_fill(size, size, image::imageops::FilterType::Nearest)
        .into_rgb8();
    RawImage { width: scaled.width(), height: scaled.height(), data: scaled.into_raw() }
}

/// The pixel in column `x` of row `y` of a frame whose rows are `stride`
/// bytes long and hold four bytes for each pixel, blue first.
pub open spec fn frame_pixel(frame: Seq<u8>, stride: int, x: int, y: int) -> Rgb {
    Rgb {
        r: frame[y * stride + 4 * x + 2],
        g: frame[y * stride + 4 * x + 1],
        b: frame[y * stride + 4 * x],
    }
}

/// The pixels of a frame of `height` rows of equal length, row by row.
pub open spec fn frame_pixels(frame: Seq<u8>, width: u32, height: u32) -> Seq<Rgb> {
    Seq::new(
        (width * height) as nat,
        |k: int|
            frame_pixel(
                frame,
                frame.len() as int / (height as int),
                k % (width as int),
                k / (width as int),
            ),
    )
}

proof fn lemma_row_in_frame(len: int, height: int, stride: int, y: int)
    by (nonlinear_arith)
    requires
        height > 0,
        len >= 0,
        stride == len / height,
        0 <= y < height,
    ensures
        0 <= y * stride,
        y * stride + stride <= len,
{
}

/// Whether the pixel with number `p` of an image `wide` pixels wide lies
/// under the mask in a row above row `j` of the mask, or in that row left
/// of column `i`.
spec fn pasted(m: Mask, wide: int, p: int, j: int, i: int) -> bool {
    &&& covers(m, p % wide, p / wide)
    &&& (p / wide - m.1 < j || (p / wide - m.1 == j && p % wide - m.0 < i))
}

proof fn lemma_product_bound(a: int, b: int)
    by (nonlinear_arith)
    requires
        0 <= a <= 0xffff_ffff,
        0 <= b <= 0xffff_ffff,
    ensures
        0 <= a * b <= 0xffff_fffe_0000_0001,
{
}

proof fn lemma_pixel_index(x: int, y: int, width: int, height: int)
    by (nonlinear_arith)
    requires
        0 <= x < width,
        0 <= y < height,
    ensures
        0 <= y * width + x < width * height,
        3 * (y * width + x) + 2 < 3 * (width * height),
        y * width >= 0,
{
}

impl RawImage {
    #[verifier::type_invariant]
    pub closed spec fn well_formed(&self) -> bool {
        fits(self.data@.len(), self.width, self.height)
    }

    /// The width in pixels.
    pub closed spec fn wd(&self) -> u32 {
        self.width
    }

    /// The height in pixels.
    pub closed spec fn ht(&self) -> u32 {
        self.height
    }

    /// The bytes of the image.
    pub closed spec fn bytes(&self) -> Seq<u8> {
        self.data@
    }

    /// The pixel in column `x` of row `y`.
    pub open spec fn at(&self, x: int, y: int) -> Rgb {
        pixel_at(self.bytes(), y * self.wd() + x)
    }

    /// The pixels under a mask, row by row.
    pub open spec fn window(&self, m: Mask) -> Seq<Rgb> {
        Seq::new(
            (m.2 * m.3) as nat,
            |i: int| self.at(m.0 + i % (m.2 as int), m.1 + i / (m.2 as int)),
        )
    }

    /// All pixels of the image, row by row.
    pub open spec fn all(&self) -> Seq<Rgb> {
        self.window((0, 0, self.wd(), self.ht()))
    }

    /// Takes `data` as the pixels of a `width` by `height` image, if it holds
    /// exactly three bytes for each pixel.
    pub fn new(width: u32, height: u32, data: Vec<u8>) -> (img: Option<RawImage>)
        ensures
            img is Some <==> fits(data@.len(), width, height),
            img matches Some(i) ==> i.wd() == width && i.ht() == height && i.bytes() == data@,
    {
        assert(0 <= width * height <= 0xffff_ffff * 0xffff_ffff) by (nonlinear_arith)
            requires
                0 <= width <= 0xffff_ffff,
                0 <= height <= 0xffff_ffff,
        ;
        let area: u128 = (width as u128) * (height as u128);
        let needed: u128 = 3 * area;
        if data.len() as u128 == needed {
            Some(RawImage { width, height, data })
        } else {
            None
        }
    }

    pub fn width(&self) -> (w: u32)
        ensures
            w == self.wd(),
    {
        self.width
    }

    pub fn height(&self) -> (h: u32)
        ensures
            h == self.ht(),
    {
        self.height
    }

    /// The bytes of the image, three for each pixel.
    pub fn data(&self) -> (bytes: &Vec<u8>)
        ensures
            bytes@ == self.bytes(),
            fits(bytes@.len(), self.wd(), self.ht()),
    {
        proof {
            use_type_invariant(self);
        }
        &self.data
    }

    /// Reads the pixel in column `x` of row `y`.
    pub fn pixel(&self, x: u32, y: u32) -> (px: Rgb)
        requires
            x < self.wd(),
            y < self.ht(),
        ensures
            px == self.at(x as int, y as int),
    {
        proof {
            use_type_invariant(self);
            lemma_pixel_index(x as int, y as int, self.width as int, self.height as int);
            assert(self.data@.len() == self.data.len());
        }
        let row: usize = (y as usize) * (self.width as usize);
        let k: usize = 3 * (row + (x as usize));
        Rgb { r: self.data[k], g: self.data[k + 1], b: self.data[k + 2] }
    }

    /// Copies the pixels under a mask, row by row.
    pub fn region(&self, m: Mask) -> (pixels: Vec<Rgb>)
        requires
            within(m, self.wd(), self.ht()),
        ensures
            pixels@ == self.window(m),
    {
        let (x0, y0, w, h) = m;
        let mut pixels: Vec<Rgb> = Vec::new();
        let mut j: u32 = 0;
        while j < h
            invariant
                m == (x0, y0, w, h),
                within(m, self.wd(), self.ht()),
                0 <= j <= h,
                pixels@.len() == j * w,
                forall|k: int|
                    0 <= k < pixels@.len() ==> pixels@[k] == self.at(x0 + k % (w as int), y0 + k / (w as int)),
            decreases h - j,
        {
            let mut i: u32 = 0;
            while i < w
                invariant
                    m == (x0, y0, w, h),
                    within(m, self.wd(), self.ht()),
                    0 <= j < h,
                    0 <= i <= w,
                    pixels@.len() == j * w + i,
                    forall|k: int|
                        0 <= k < pixels@.len() ==> pixels@[k] == self.at(
                            x0 + k % (w as int),
                            y0 + k / (w as int),
                        ),
                decreases w - i,
            {
                proof {
                    lemma_cell_index(w as int, j as int, i as int);
                }
                let px = self.pixel(x0 + i, y0 + j);
                pixels.push(px);
                i = i + 1;
            }
            proof {
                assert((j + 1) * w == j * w + w) by (nonlinear_arith);
            }
            j = j + 1;
        }
        proof {
            assert(j * w == w * h) by (nonlinear_arith)
                requires
                    j == h,
            ;
            assert(pixels@ =~= self.window(m));
        }
        pixels
    }

    /// Copies all pixels of the image, row by row.
    pub fn pixels(&self) -> (pixels: Vec<Rgb>)
        ensures
            pixels@ == self.all(),
    {
        self.region((0, 0, self.width, self.height))
    }

    /// Lays `pixels` out as the rows of a `width` by `height` image, if
    /// there is exactly one for each position.
    pub fn from_pixels(width: u32, height: u32, pixels: &Vec<Rgb>) -> (img: Option<RawImage>)
        ensures
            img is Some <==> pixels@.len() == width * height,
            img matches Some(i) ==> i.wd() == width && i.ht() == height && i.all() == pixels@,
    {
        assert(0 <= width * height <= 0xffff_ffff * 0xffff_ffff) by (nonlinear_arith)
            requires
                0 <= width <= 0xffff_ffff,
                0 <= height <= 0xffff_ffff,
        ;
        let area: u128 = (width as u128) * (height as u128);
        if pixels.len() as u128 != area {
            return None;
        }
        let mut data: Vec<u8> = Vec::new();
        let mut i: usize = 0;
        while i < pixels.len()
            invariant
                0 <= i <= pixels@.len(),
                data@.len() == 3 * i,
                forall|k: int| 0 <= k < i ==> pixel_at(data@, k) == pixels@[k],
            decreases pixels.len() - i,
        {
            let px = pixels[i];
            let ghost before = data@;
            data.push(px.r);
            data.push(px.g);
            data.push(px.b);
            proof {
                assert forall|k: int| 0 <= k < i + 1 implies pixel_at(data@, k) == pixels@[k] by {
                    if k < i {
                        assert(pixel_at(before, k) == pixels@[k]);
                        assert(data@[3 * k] == before[3 * k]);
                        assert(data@[3 * k + 1] == before[3 * k + 1]);
                        assert(data@[3 * k + 2] == before[3 * k + 2]);
                    }
                }
            }
            i = i + 1;
        }
        let img = RawImage { width, height, data };
        proof {
            assert forall|k: int| 0 <= k < width * height implies #[trigger] img.all()[k] == pixels@[k] by {
                assert(width > 0 && k < height * width) by (nonlinear_arith)
                    requires
                        0 <= k < width * height,
                        0 <= width,
                        0 <= height,
                ;
                lemma_index_cell(width as int, height as int, k);
            }
            assert(img.all() =~= pixels@);
        }
        Some(img)
    }

    /// Scales the image to a square of side `size`, keeping its proportions
    /// and cutting off what then hangs over, with the nearest-neighbour
    /// filter. An image that cannot be scaled so yields nothing.
    pub fn scaled_to_fill(&self, size: u32) -> (tile: Option<RawImage>)
        ensures
            tile is Some <==> scalable(self.wd(), self.ht(), size),
            tile matches Some(t) ==> {
                &&& t.wd() == size
                &&& t.ht() == size
                &&& t.bytes() == resized_to_fill(self.bytes(), self.wd(), self.ht(), size)
                &&& (self.wd() == size && self.ht() == size ==> t.bytes() == self.bytes())
            },
    {
        if self.width == 0 || self.height == 0 || size == 0 {
            return None;
        }
        proof {
            lemma_product_bound(self.width as int, size as int);
            lemma_product_bound(self.height as int, size as int);
        }
        let across: u64 = (self.width as u64) * (size as u64);
        let down: u64 = (self.height as u64) * (size as u64);
        if across > u32::MAX as u64 || down > u32::MAX as u64 {
            return None;
        }
        proof {
            lemma_product_bound(across as int, down as int);
        }
        let area: u128 = (across as u128) * (down as u128);
        if 32 * area > usize::MAX as u128 {
            return None;
        }
        Some(resize_to_fill(self, size))
    }

    /// Takes a video frame to an image. The frame holds `height` rows of
    /// equal length, each row at least four bytes for each of `width`
    /// pixels in the order blue, green, red and a fourth byte, which is
    /// dropped, as is what a row holds beyond its pixels. A frame whose
    /// rows are too short for `width` pixels is no image.
    pub fn from_bgra(width: u32, height: u32, frame: &Vec<u8>) -> (img: Option<RawImage>)
        ensures
            img is Some <==> width == 0 || height == 0 || frame@.len() / (height as nat) >= 4 * width,
            img matches Some(i) ==> i.wd() == width && i.ht() == height && i.all() == frame_pixels(
                frame@,
                width,
                height,
            ),
    {
        let mut pixels: Vec<Rgb> = Vec::new();
        if width == 0 || height == 0 {
            proof {
                assert(width * height == 0) by (nonlinear_arith)
                    requires
                        width == 0 || height == 0,
                ;
                assert(pixels@ =~= frame_pixels(frame@, width, height));
            }
            return RawImage::from_pixels(width, height, &pixels);
        }
        let stride: usize = frame.len() / (height as usize);
        assert(frame@.len() == frame.len());
        if stride / 4 < width as usize {
            return None;
        }
        let mut y: u32 = 0;
        while y < height
            invariant
                width > 0,
                height > 0,
                stride == frame@.len() / (height as nat),
                stride >= 4 * width,
                frame@.len() <= usize::MAX,
                0 <= y <= height,
                pixels@.len() == y * width,
                forall|k: int|
                    0 <= k < pixels@.len() ==> pixels@[k] == frame_pixel(
                        frame@,
                        stride as int,
                        k % (width as int),
                        k / (width as int),
                    ),
            decreases height - y,
        {
            let mut x: u32 = 0;
            proof {
                lemma_row_in_frame(frame@.len() as int, height as int, stride as int, y as int);
            }
            let row: usize = (y as usize) * stride;
            while x < width
                invariant
                    width > 0,
                    stride >= 4 * width,
                    0 <= y < height,
                    0 <= x <= width,
                    row == y * stride,
                    row + stride <= frame@.len(),
                    frame@.len() <= usize::MAX,
                    pixels@.len() == y * width + x,
                    forall|k: int|
                        0 <= k < pixels@.len() ==> pixels@[k] == frame_pixel(
                            frame@,
                            stride as int,
                            k % (width as int),
                            k / (width as int),
                        ),
                decreases width - x,
            {
                proof {
                    lemma_cell_index(width as int, y as int, x as int);
                }
                let at: usize = row + 4 * (x as usize);
                pixels.push(Rgb { r: frame[at + 2], g: frame[at + 1], b: frame[at] });
                x = x + 1;
            }
            proof {
                assert((y + 1) * width == y * width + width) by (nonlinear_arith);
            }
            y = y + 1;
        }
        proof {
            assert(y * width == width * height) by (nonlinear_arith)
                requires
                    y == height,
            ;
            assert(pixels@ =~= frame_pixels(frame@, width, height));
        }
        RawImage::from_pixels(width, height, &pixels)
    }

    /// An image of the given size, all black, if so many bytes can be
    /// addressed.
    pub fn blank(width: u32, height: u32) -> (img: Option<RawImage>)
        ensures
            img is Some <==> 3 * (width * height) <= usize::MAX,
            img matches Some(i) ==> {
                &&& i.wd() == width
                &&& i.ht() == height
                &&& forall|k: int| 0 <= k < i.bytes().len() ==> i.bytes()[k] == 0
            },
    {
        assert(0 <= width * height <= 0xffff_ffff * 0xffff_ffff) by (nonlinear_arith)
            requires
                0 <= width <= 0xffff_ffff,
                0 <= height <= 0xffff_ffff,
        ;
        let needed: u128 = 3 * ((width as u128) * (height as u128));
        if needed > usize::MAX as u128 {
            return None;
        }
        let n = needed as usize;
        let mut data: Vec<u8> = Vec::new();
        let mut k: usize = 0;
        while k < n
            invariant
                0 <= k <= n,
                data@.len() == k,
                forall|t: int| 0 <= t < k ==> data@[t] == 0,
            decreases n - k,
        {
            data.push(0);
            k = k + 1;
        }
        Some(RawImage { width, height, data })
    }

    /// The image with the top left part of `tile` laid over the part under
    /// the mask, and the rest as it was.
    pub fn paste(self, m: Mask, tile: &RawImage) -> (out: RawImage)
        requires
            within(m, self.wd(), self.ht()),
            m.2 <= tile.wd(),
            m.3 <= tile.ht(),
        ensures
            out.wd() == self.wd(),
            out.ht() == self.ht(),
            forall|x: int, y: int|
                0 <= x < self.wd() && 0 <= y < self.ht() ==> #[trigger] out.at(x, y) == if covers(
                    m,
                    x,
                    y,
                ) {
                    tile.at(x - m.0, y - m.1)
                } else {
                    self.at(x, y)
                },
    {
        let (x0, y0, w, h) = m;
        let ghost before = self.data@;
        let ghost wide = self.width as int;
        let ghost high = self.height as int;
        proof {
            use_type_invariant(&self);
        }
        let width = self.width;
        let height = self.height;
        let mut data = self.data;
        let mut j: u32 = 0;
        while j < h
            invariant
                m == (x0, y0, w, h),
                within(m, width, height),
                w <= tile.wd(),
                h <= tile.ht(),
                width == wide,
                height == high,
                data@.len() == before.len(),
                fits(before.len(), width, height),
                0 <= j <= h,
                forall|p: int|
                    0 <= p < wide * high ==> #[trigger] pixel_at(data@, p) == if pasted(
                        m,
                        wide,
                        p,
                        j as int,
                        0,
                    ) {
                        tile.at(p % wide - x0, p / wide - y0)
                    } else {
                        pixel_at(before, p)
                    },
            decreases h - j,
        {
            let mut i: u32 = 0;
            while i < w
                invariant
                    m == (x0, y0, w, h),
                    within(m, width, height),
                    w <= tile.wd(),
                    h <= tile.ht(),
                    width == wide,
                    height == high,
                    data@.len() == before.len(),
                    fits(before.len(), width, height),
                    0 <= j < h,
                    0 <= i <= w,
                    forall|p: int|
                        0 <= p < wide * high ==> #[trigger] pixel_at(data@, p) == if pasted(
                            m,
                            wide,
                            p,
                            j as int,
                            i as int,
                        ) {
                            tile.at(p % wide - x0, p / wide - y0)
                        } else {
                            pixel_at(before, p)
                        },
                decreases w - i,
            {
                let px = tile.pixel(i, j);
                proof {
                    lemma_pixel_index(x0 + i, y0 + j, wide, high);
                    lemma_cell_index(wide, y0 + j, x0 + i);
                    assert(data@.len() == data.len());
                }
                let row: usize = ((y0 + j) as usize) * (width as usize);
                let at: usize = row + ((x0 + i) as usize);
                let ghost earlier = data@;
                data.set(3 * at, px.r);
                data.set(3 * at + 1, px.g);
                data.set(3 * at + 2, px.b);
                proof {
                    assert forall|p: int| 0 <= p < wide * high implies #[trigger] pixel_at(
                        data@,
                        p,
                    ) == if pasted(m, wide, p, j as int, i + 1) {
                        tile.at(p % wide - x0, p / wide - y0)
                    } else {
                        pixel_at(before, p)
                    } by {
                        assert(wide * high == high * wide) by (nonlinear_arith);
                        lemma_index_cell(wide, high, p);
                        if p != at {
                            assert(pixel_at(data@, p) == pixel_at(earlier, p));
                            assert(pasted(m, wide, p, j as int, i + 1) == pasted(
                                m,
                                wide,
                                p,
                                j as int,
                                i as int,
                            ));
                        } else {
                            assert(pixel_at(data@, p) == px);
                            assert(pasted(m, wide, p, j as int, i + 1));
                        }
                    }
                }
                i = i + 1;
            }
            j = j + 1;
        }
        let out = RawImage { width, height, data };
        proof {
            assert forall|x: int, y: int| 0 <= x < wide && 0 <= y < high implies #[trigger] out.at(
                x,
                y,
            ) == if covers(m, x, y) {
                tile.at(x - x0, y - y0)
            } else {
                pixel_at(before, y * wide + x)
            } by {
                lemma_pixel_index(x, y, wide, high);
                lemma_cell_index(wide, y, x);
            }
        }
        out
    }

    /// Cuts the part under a mask out of the image.
    pub fn crop(&self, m: Mask) -> (part: RawImage)
        requires
            within(m, self.wd(), self.ht()),
        ensures
            part.wd() == m.2,
            part.ht() == m.3,
            part.all() == self.window(m),
    {
        let pixels = self.region(m);
        match RawImage::from_pixels(m.2, m.3, &pixels) {
            Some(part) => part,
            None => {
                proof {
                    assert(false);
                }
                RawImage { width: 0, height: 0, data: Vec::new() }
            },
        }
    }
}

} // verus!
