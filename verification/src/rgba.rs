//! The pixel buffer model: straight 8-bit RGBA, row-major, one pixel per
//! cell of a `width` by `height` grid.

use vstd::prelude::*;

verus! {

/// One straight-alpha RGBA pixel.
#[derive(Debug, Clone, Copy, PartialEq, Eq, Structural)]
pub struct Rgba {
    pub r: u8,
    pub g: u8,
    pub b: u8,
    pub a: u8,
}

/// The fully transparent pixel.
pub open spec fn spec_transparent() -> Rgba {
    Rgba { r: 0, g: 0, b: 0, a: 0 }
}

impl Rgba {
    pub fn new(r: u8, g: u8, b: u8, a: u8) -> (p: Rgba)
        ensures
            p == (Rgba { r, g, b, a }),
    {
        Rgba { r, g, b, a }
    }

    pub fn transparent() -> (p: Rgba)
        ensures
            p == spec_transparent(),
    {
        Rgba { r: 0, g: 0, b: 0, a: 0 }
    }
}

/// The mathematical shape of an image: its size and its pixels, row by row.
pub struct ImageView {
    pub width: nat,
    pub height: nat,
    pub pixels: Seq<Rgba>,
}

/// The pixel of an image at column `x` of row `y`.
pub open spec fn spec_pixel(v: ImageView, x: int, y: int) -> Rgba {
    v.pixels[y * v.width + x]
}

/// An owned RGBA image. The pixel row of index `y` starts at `y * width`;
/// the buffer always holds exactly `width * height` pixels.
#[derive(Debug, PartialEq)]
pub struct RgbaImage {
    width: u32,
    height: u32,
    pixels: Vec<Rgba>,
}

impl View for RgbaImage {
    type V = ImageView;

    closed spec fn view(&self) -> ImageView {
        ImageView { width: self.width as nat, height: self.height as nat, pixels: self.pixels@ }
    }
}

impl RgbaImage {
    #[verifier::type_invariant]
    pub closed spec fn inv(&self) -> bool {
        self.pixels@.len() == self.width as int * self.height as int
    }

    /// A fully transparent image of the given size.
    pub fn new(width: u32, height: u32) -> (r: RgbaImage)
        requires
            width as int * height as int <= usize::MAX,
        ensures
            r@.width == width,
            r@.height == height,
            r@.pixels.len() == width as int * height as int,
            forall|i: int| 0 <= i < r@.pixels.len() ==> r@.pixels[i] == spec_transparent(),
    {
        let total: usize = (width as usize) * (height as usize);
        let mut pixels: Vec<Rgba> = Vec::new();
        let mut i: usize = 0;
        while i < total
            invariant
                i <= total,
                pixels@.len() == i,
                forall|k: int| 0 <= k < i ==> pixels@[k] == spec_transparent(),
            decreases total - i,
        {
            pixels.push(Rgba { r: 0, g: 0, b: 0, a: 0 });
            i = i + 1;
        }
        RgbaImage { width, height, pixels }
    }

    /// The width; also a witness that the buffer length is the grid size.
    pub fn width(&self) -> (r: u32)
        ensures
            r == self@.width,
            self@.pixels.len() == self@.width * self@.height,
    {
        proof {
            use_type_invariant(self);
        }
        self.width
    }

    /// The height; also a witness that the buffer length is the grid size.
    pub fn height(&self) -> (r: u32)
        ensures
            r == self@.height,
            self@.pixels.len() == self@.width * self@.height,
    {
        proof {
            use_type_invariant(self);
        }
        self.height
    }

    /// The pixel at column `x` of row `y`.
    pub fn get_pixel(&self, x: u32, y: u32) -> (p: Rgba)
        requires
            x < self@.width,
            y < self@.height,
        ensures
            p == spec_pixel(self@, x as int, y as int),
    {
        proof {
            use_type_invariant(self);
            lemma_pixel_index_bound(
                self@.width as int,
                self@.height as int,
                x as int,
                y as int,
            );
        }
        let n = self.pixels.len();
        let idx: usize = (y as usize) * (self.width as usize) + (x as usize);
        self.pixels[idx]
    }

    /// Replaces the pixel at column `x` of row `y`.
    pub fn put_pixel(&mut self, x: u32, y: u32, p: Rgba)
        requires
            x < old(self)@.width,
            y < old(self)@.height,
        ensures
            final(self)@.width == old(self)@.width,
            final(self)@.height == old(self)@.height,
            final(self)@.pixels == old(self)@.pixels.update(
                y as int * old(self)@.width as int + x as int,
                p,
            ),
    {
        proof {
            use_type_invariant(&*self);
            lemma_pixel_index_bound(
                self@.width as int,
                self@.height as int,
                x as int,
                y as int,
            );
        }
        let n = self.pixels.len();
        let idx: usize = (y as usize) * (self.width as usize) + (x as usize);
        self.pixels[idx] = p;
    }

    /// Resets every pixel to fully transparent, keeping the size.
    pub fn clear(&mut self)
        ensures
            final(self)@.width == old(self)@.width,
            final(self)@.height == old(self)@.height,
            final(self)@.pixels.len() == old(self)@.pixels.len(),
            forall|i: int|
                0 <= i < final(self)@.pixels.len() ==> final(self)@.pixels[i]
                    == spec_transparent(),
    {
        proof {
            use_type_invariant(&*self);
        }
        let n = self.pixels.len();
        let mut i: usize = 0;
        while i < n
            invariant
                i <= n,
                n == self.pixels@.len(),
                self.pixels@.len() == self.width as int * self.height as int,
                self.width == old(self).width,
                self.height == old(self).height,
                forall|k: int| 0 <= k < i ==> self.pixels@[k] == spec_transparent(),
            decreases n - i,
        {
            self.pixels[i] = Rgba { r: 0, g: 0, b: 0, a: 0 };
            i = i + 1;
        }
    }

    /// A copy of the `w` by `h` rectangle whose top-left corner is `(x, y)`.
    #[verifier::loop_isolation(false)]
    pub fn crop(&self, x: u32, y: u32, w: u32, h: u32) -> (r: RgbaImage)
        requires
            x + w <= self@.width,
            y + h <= self@.height,
        ensures
            r@.width == w,
            r@.height == h,
            r@.pixels.len() == w as int * h as int,
            forall|cx: int, cy: int|
                0 <= cx < w && 0 <= cy < h ==> #[trigger] spec_pixel(r@, cx, cy) == spec_pixel(
                    self@,
                    x + cx,
                    y + cy,
                ),
    {
        proof {
            use_type_invariant(self);
            assert(w as int * h as int <= self@.width as int * self@.height as int)
                by (nonlinear_arith)
                requires
                    0 <= w as int <= self@.width as int,
                    0 <= h as int <= self@.height as int,
            ;
        }
        let n = self.pixels.len();
        let mut out = RgbaImage::new(w, h);
        let mut cy: u32 = 0;
        while cy < h
            invariant
                0 <= cy <= h,
                out@.width == w,
                out@.height == h,
                out@.pixels.len() == w as int * h as int,
                forall|px: int, py: int|
                    0 <= px < w && 0 <= py < cy ==> #[trigger] spec_pixel(out@, px, py)
                        == spec_pixel(self@, x + px, y + py),
            decreases h - cy,
        {
            let mut cx: u32 = 0;
            while cx < w
                invariant
                    0 <= cx <= w,
                    0 <= cy < h,
                    out@.width == w,
                    out@.height == h,
                    out@.pixels.len() == w as int * h as int,
                    forall|px: int, py: int|
                        0 <= px < w && 0 <= py < h && (py < cy || (py == cy && px < cx))
                            ==> #[trigger] spec_pixel(out@, px, py) == spec_pixel(
                            self@,
                            x + px,
                            y + py,
                        ),
                decreases w - cx,
            {
                let p = self.get_pixel(x + cx, y + cy);
                let ghost before = out@;
                proof {
                    lemma_pixel_index_bound(w as int, h as int, cx as int, cy as int);
                }
                out.put_pixel(cx, cy, p);
                proof {
                    assert forall|px: int, py: int|
                        0 <= px < w && 0 <= py < h && (py < cy || (py == cy && px < cx
                            + 1)) implies #[trigger] spec_pixel(out@, px, py) == spec_pixel(
                        self@,
                        x + px,
                        y + py,
                    ) by {
                        lemma_pixel_index_bound(w as int, h as int, px, py);
                        lemma_pixel_index_bound(w as int, h as int, cx as int, cy as int);
                        if px == cx as int && py == cy as int {
                            assert(spec_pixel(out@, px, py) == p);
                        } else {
                            lemma_pixel_index_injective(w as int, px, py, cx as int, cy as int);
                            assert(spec_pixel(out@, px, py) == spec_pixel(before, px, py));
                        }
                    }
                }
                cx = cx + 1;
            }
            cy = cy + 1;
        }
        out
    }

    /// Builds an image of the given size from a flat row-major pixel run.
    pub fn from_pixels(width: u32, height: u32, pixels: Vec<Rgba>) -> (r: Option<RgbaImage>)
        ensures
            match r {
                Some(im) => pixels@.len() == width as int * height as int && im@.width == width
                    && im@.height == height && im@.pixels == pixels@,
                None => pixels@.len() != width as int * height as int,
            },
    {
        proof {
            assert(width as int * height as int <= u32::MAX as int * u32::MAX as int)
                by (nonlinear_arith)
                requires
                    width as int <= u32::MAX as int,
                    height as int <= u32::MAX as int,
            ;
        }
        let expect: u128 = (width as u128) * (height as u128);
        if pixels.len() as u128 != expect {
            return None;
        }
        Some(RgbaImage { width, height, pixels })
    }
}

/// A pixel coordinate inside the grid indexes inside the buffer.
pub proof fn lemma_pixel_index_bound(w: int, h: int, x: int, y: int)
    requires
        0 <= x < w,
        0 <= y < h,
    ensures
        0 <= y * w + x < w * h,
    decreases h,
{
    assert(y * w + x < w * h) by (nonlinear_arith)
        requires
            0 <= x < w,
            0 <= y < h,
    ;
    assert(y * w >= 0) by (nonlinear_arith)
        requires
            y >= 0,
            w > 0,
    ;
}

/// Distinct coordinates inside the grid index distinct buffer cells.
pub proof fn lemma_pixel_index_injective(w: int, x1: int, y1: int, x2: int, y2: int)
    requires
        0 <= x1 < w,
        0 <= x2 < w,
        0 <= y1,
        0 <= y2,
        x1 != x2 || y1 != y2,
    ensures
        y1 * w + x1 != y2 * w + x2,
{
    assert(y1 * w + x1 != y2 * w + x2) by (nonlinear_arith)
        requires
            0 <= x1 < w,
            0 <= x2 < w,
            0 <= y1,
            0 <= y2,
            x1 != x2 || y1 != y2,
    ;
}

} // verus!
