//! RGBA images as the rest of the library sees them, and alpha blending.

use vstd::prelude::*;

use image::Pixel;

verus! {

/// One pixel: red, green, blue and alpha, each `0..=255`.
#[derive(Debug, Clone, Copy, PartialEq, Eq, Structural)]
pub struct Rgba {
    pub r: u8,
    pub g: u8,
    pub b: u8,
    pub a: u8,
}

impl Rgba {
    /// The same colour at alpha `a`.
    pub open spec fn with_alpha(self, a: u8) -> Rgba {
        Rgba { a, ..self }
    }

    /// The same colour at alpha `a`.
    pub fn at_alpha(self, a: u8) -> (r: Rgba)
        ensures
            r == self.with_alpha(a),
    {
        Rgba { r: self.r, g: self.g, b: self.b, a }
    }

    /// The pixel with channels in red, green, blue, alpha order.
    pub fn new(r: u8, g: u8, b: u8, a: u8) -> (p: Rgba)
        ensures
            p == (Rgba { r, g, b, a }),
    {
        Rgba { r, g, b, a }
    }
}

/// `above` composited over `below` by source-over alpha blending, as
/// `image::Pixel::blend` computes it for `Rgba<u8>` when `above` is neither
/// fully transparent nor fully opaque.
pub uninterp spec fn rgba_blend(below: Rgba, above: Rgba) -> Rgba;

/// `above` composited over `below`: a fully transparent `above` leaves `below`
/// as it was, a fully opaque one replaces it, and any other is blended.
pub open spec fn blended(below: Rgba, above: Rgba) -> Rgba {
    if above.a == 0 {
        below
    } else if above.a == 255 {
        above
    } else {
        rgba_blend(below, above)
    }
}

/// `image::Pixel::blend` on `Rgba<u8>`: `above` composited over `below`.
///
/// The contract states the two cases the source settles before any
/// arithmetic (a fully transparent `above` leaves `below`, a fully opaque one
/// replaces it) and names the floating-point blend of every other case
/// `rgba_blend`.
#[verifier::external_body]
fn blend(below: Rgba, above: Rgba) -> (r: Rgba)
    ensures
        above.a == 0 ==> r == below,
        above.a == 255 ==> r == above,
        above.a != 0 && above.a != 255 ==> r == rgba_blend(below, above),
{
    let mut out = image::Rgba([below.r, below.g, below.b, below.a]);
    out.blend(&image::Rgba([above.r, above.g, above.b, above.a]));
    Rgba { r: out.0[0], g: out.0[1], b: out.0[2], a: out.0[3] }
}

/// `above` composited over `below`, by source-over alpha blending.
pub fn blend_over(below: Rgba, above: Rgba) -> (r: Rgba)
    ensures
        r == blended(below, above),
{
    blend(below, above)
}

/// Where the pixel at column `x` of row `y` sits in a row-major image `width` wide.
pub open spec fn pixel_index(width: nat, x: nat, y: nat) -> int {
    (y * width + x) as int
}

proof fn lemma_index_in_bounds(width: nat, height: nat, x: nat, y: nat)
    requires
        x < width,
        y < height,
    ensures
        0 <= pixel_index(width, x, y) < width * height,
{
    assert(y * width + x < width * height) by (nonlinear_arith)
        requires
            x < width,
            y < height,
    ;
}

/// Distinct pixels of an image have distinct places in it.
pub proof fn lemma_index_injective(width: nat, x1: nat, y1: nat, x2: nat, y2: nat)
    requires
        x1 < width,
        x2 < width,
    ensures
        (pixel_index(width, x1, y1) == pixel_index(width, x2, y2)) <==> (x1 == x2 && y1 == y2),
{
    if y1 < y2 {
        assert(y1 * width + x1 < y2 * width + x2) by (nonlinear_arith)
            requires
                y1 < y2,
                x1 < width,
        ;
    } else if y2 < y1 {
        assert(y2 * width + x2 < y1 * width + x1) by (nonlinear_arith)
            requires
                y2 < y1,
                x2 < width,
        ;
    }
}

/// An RGBA image: `width` by `height` pixels, stored row by row.
pub struct RgbaImage {
    width: u32,
    height: u32,
    pixels: Vec<Rgba>,
}

impl RgbaImage {
    /// The image's width in pixels.
    pub closed spec fn spec_width(&self) -> nat {
        self.width as nat
    }

    /// The image's height in pixels.
    pub closed spec fn spec_height(&self) -> nat {
        self.height as nat
    }

    /// The pixels, row by row.
    pub closed spec fn spec_pixels(&self) -> Seq<Rgba> {
        self.pixels@
    }

    /// Exactly `width * height` pixels, a count that fits in memory four bytes each.
    pub closed spec fn wf(&self) -> bool {
        &&& self.pixels@.len() == self.width as nat * self.height as nat
        &&& 4 * (self.width as nat * self.height as nat) <= usize::MAX
    }

    /// The pixel at column `x` of row `y`.
    pub open spec fn at(&self, x: nat, y: nat) -> Rgba {
        self.spec_pixels()[pixel_index(self.spec_width(), x, y)]
    }

    /// Whether `(x, y)` is inside the image.
    pub open spec fn contains(&self, x: nat, y: nat) -> bool {
        x < self.spec_width() && y < self.spec_height()
    }

    /// The image's width in pixels.
    pub fn width(&self) -> (r: u32)
        ensures
            r == self.spec_width(),
    {
        self.width
    }

    /// The image's height in pixels.
    pub fn height(&self) -> (r: u32)
        ensures
            r == self.spec_height(),
    {
        self.height
    }

    /// Every pixel of the image lies within its `width * height` count.
    pub proof fn lemma_at(&self, x: nat, y: nat)
        requires
            self.wf(),
            self.contains(x, y),
        ensures
            0 <= pixel_index(self.spec_width(), x, y) < self.spec_pixels().len(),
    {
        lemma_index_in_bounds(self.spec_width(), self.spec_height(), x, y);
    }

    /// A `width` by `height` image with every pixel `pixel`.
    pub fn from_pixel(width: u32, height: u32, pixel: Rgba) -> (r: RgbaImage)
        requires
            4 * (width as nat * height as nat) <= usize::MAX,
        ensures
            r.wf(),
            r.spec_width() == width,
            r.spec_height() == height,
            forall|i: int| 0 <= i < r.spec_pixels().len() ==> r.spec_pixels()[i] == pixel,
    {
        let count: usize = (width as usize) * (height as usize);
        let mut pixels: Vec<Rgba> = Vec::new();
        let mut i: usize = 0;
        while i < count
            invariant
                i <= count,
                pixels@.len() == i,
                forall|j: int| 0 <= j < i ==> pixels@[j] == pixel,
            decreases count - i,
        {
            pixels.push(pixel);
            i = i + 1;
        }
        RgbaImage { width, height, pixels }
    }

    /// The image whose pixels are `data`, four bytes each in red, green, blue,
    /// alpha order, row by row; `None` unless there are exactly `width * height` pixels.
    pub fn from_raw(width: u32, height: u32, data: &Vec<u8>) -> (r: Option<RgbaImage>)
        ensures
            r is Some <==> data@.len() == 4 * (width as nat * height as nat),
            r matches Some(img) ==> {
                &&& img.wf()
                &&& img.spec_width() == width
                &&& img.spec_height() == height
                &&& forall|i: int| 0 <= i < img.spec_pixels().len() ==> #[trigger] img.spec_pixels()[i]
                    == (Rgba { r: data@[4 * i], g: data@[4 * i + 1], b: data@[4 * i + 2], a: data@[4 * i + 3] })
            },
    {
        let w = width as usize;
        let h = height as usize;
        let n = data.len();
        if h != 0 && w > n / 4 / h {
            assert(w * h > n / 4) by (nonlinear_arith)
                requires
                    h != 0,
                    w > n / 4 / h,
            ;
            return None;
        }
        if h == 0 {
            assert(w * h == 0) by (nonlinear_arith)
                requires
                    h == 0,
            ;
        } else {
            assert(w * h <= n / 4) by (nonlinear_arith)
                requires
                    h != 0,
                    w <= n / 4 / h,
            ;
        }
        let count: usize = w * h;
        if n != 4 * count {
            return None;
        }
        let mut pixels: Vec<Rgba> = Vec::new();
        let mut i: usize = 0;
        while i < count
            invariant
                n == data@.len(),
                n == 4 * count,
                i <= count,
                pixels@.len() == i,
                forall|j: int| 0 <= j < i ==> #[trigger] pixels@[j]
                    == (Rgba { r: data@[4 * j], g: data@[4 * j + 1], b: data@[4 * j + 2], a: data@[4 * j + 3] }),
            decreases count - i,
        {
            let k = 4 * i;
            pixels.push(Rgba { r: data[k], g: data[k + 1], b: data[k + 2], a: data[k + 3] });
            i = i + 1;
        }
        Some(RgbaImage { width, height, pixels })
    }

    /// The pixels as bytes, four per pixel in red, green, blue, alpha order, row by row.
    pub fn to_raw(&self) -> (r: Vec<u8>)
        requires
            self.wf(),
        ensures
            r@.len() == 4 * self.spec_pixels().len(),
            forall|i: int| 0 <= i < self.spec_pixels().len() ==>
                (Rgba { r: r@[4 * i], g: r@[4 * i + 1], b: r@[4 * i + 2], a: r@[4 * i + 3] }) == #[trigger] self.spec_pixels()[i],
    {
        let n = self.pixels.len();
        let mut out: Vec<u8> = Vec::new();
        let mut i: usize = 0;
        while i < n
            invariant
                n == self.pixels@.len(),
                4 * n <= usize::MAX,
                i <= n,
                out@.len() == 4 * i,
                forall|j: int| 0 <= j < i ==>
                    (Rgba { r: out@[4 * j], g: out@[4 * j + 1], b: out@[4 * j + 2], a: out@[4 * j + 3] }) == #[trigger] self.pixels@[j],
            decreases n - i,
        {
            let p = self.pixels[i];
            out.push(p.r);
            out.push(p.g);
            out.push(p.b);
            out.push(p.a);
            i = i + 1;
        }
        out
    }

    /// The pixel at column `x` of row `y`.
    pub fn get_pixel(&self, x: u32, y: u32) -> (r: Rgba)
        requires
            self.wf(),
            self.contains(x as nat, y as nat),
        ensures
            r == self.at(x as nat, y as nat),
    {
        proof {
            self.lemma_at(x as nat, y as nat);
        }
        self.pixels[(y as usize) * (self.width as usize) + (x as usize)]
    }

    /// Replaces the pixel at column `x` of row `y` and nothing else.
    pub fn put_pixel(&mut self, x: u32, y: u32, pixel: Rgba)
        requires
            old(self).wf(),
            old(self).contains(x as nat, y as nat),
        ensures
            final(self).wf(),
            final(self).spec_width() == old(self).spec_width(),
            final(self).spec_height() == old(self).spec_height(),
            final(self).spec_pixels() == old(self).spec_pixels().update(
                pixel_index(old(self).spec_width(), x as nat, y as nat),
                pixel,
            ),
    {
        proof {
            self.lemma_at(x as nat, y as nat);
        }
        let i = (y as usize) * (self.width as usize) + (x as usize);
        self.pixels.set(i, pixel);
    }
}

} // verus!
