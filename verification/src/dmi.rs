//! The sheet coupled with its metadata, cell-rectangle addressing, and the
//! alpha compositor.
//!
//! The sheet is a grid of equally sized cells. The cell of absolute index
//! `i` sits at column `i % columns`, row `i / columns`, where `columns` is
//! the sheet width divided by the cell width. The compositor copies a
//! cropped region onto a destination canvas, multiplying each source
//! channel by a tint channel in 0..=255 fixed point and blending with the
//! standard alpha-over formula under truncating integer division.

use vstd::prelude::*;

use crate::error::{BoundsError, FormatError};
use crate::metadata::{
    spec_dir_slot, spec_find_occurrence, IconIndex, IconLocation, Metadata,
};
use crate::dir::Dir;
use crate::rgba::{
    lemma_pixel_index_injective, spec_pixel, spec_transparent, ImageView, Rgba, RgbaImage,
};
use crate::state::State;

verus! {

/// An axis-aligned pixel rectangle: top-left corner, width and height.
#[derive(Clone, Copy, Debug, PartialEq, Eq, Structural)]
pub struct Rect {
    pub x: u32,
    pub y: u32,
    pub width: u32,
    pub height: u32,
}

impl Rect {
    pub fn bottom_right_x(&self) -> (r: u32)
        requires
            self.x + self.width <= u32::MAX,
        ensures
            r == self.x + self.width,
    {
        self.x + self.width
    }

    pub fn bottom_right_y(&self) -> (r: u32)
        requires
            self.y + self.height <= u32::MAX,
        ensures
            r == self.y + self.height,
    {
        self.y + self.height
    }
}

/// Fixed-point channel product: `x * y / 255`, truncating.
pub open spec fn spec_mul255(x: int, y: int) -> int {
    (x * y) / 255
}

/// A pixel with each channel, alpha included, scaled by the tint.
pub open spec fn spec_tinted(p: Rgba, t: Rgba) -> Rgba {
    Rgba {
        r: spec_mul255(p.r as int, t.r as int) as u8,
        g: spec_mul255(p.g as int, t.g as int) as u8,
        b: spec_mul255(p.b as int, t.b as int) as u8,
        a: spec_mul255(p.a as int, t.a as int) as u8,
    }
}

/// The alpha-over output alpha: `sa + da * (255 - sa) / 255`.
pub open spec fn spec_out_alpha(sa: int, da: int) -> int {
    sa + spec_mul255(da, 255 - sa)
}

/// One color channel of the blend: the alpha-weighted sum divided by the
/// output alpha, truncating.
pub open spec fn spec_blend_channel(sc: int, sa: int, dc: int, da: int, oa: int) -> int {
    (sc * sa + (dc * da) * (255 - sa) / 255) / oa
}

/// The blend of one source pixel over one destination pixel under a tint:
/// the source is tinted first; when the output alpha is zero the
/// destination pixel is left untouched; otherwise each color channel is the
/// alpha-weighted blend and the alpha is the output alpha.
pub open spec fn spec_blend(src: Rgba, dst: Rgba, tint: Rgba) -> Rgba {
    let s = spec_tinted(src, tint);
    let oa = spec_out_alpha(s.a as int, dst.a as int);
    if oa == 0 {
        dst
    } else {
        Rgba {
            r: spec_blend_channel(s.r as int, s.a as int, dst.r as int, dst.a as int, oa) as u8,
            g: spec_blend_channel(s.g as int, s.a as int, dst.g as int, dst.a as int, oa) as u8,
            b: spec_blend_channel(s.b as int, s.a as int, dst.b as int, dst.a as int, oa) as u8,
            a: oa as u8,
        }
    }
}

/// Computes the fixed-point channel product.
fn mul255(x: u8, y: u8) -> (r: u8)
    ensures
        r as int == spec_mul255(x as int, y as int),
        r as int <= 255,
{
    proof {
        assert(x as int * y as int <= 255 * 255) by (nonlinear_arith)
            requires
                x as int <= 255,
                y as int <= 255,
        ;
        assert(x as int * y as int >= 0) by (nonlinear_arith)
            requires
                x as int >= 0,
                y as int >= 0,
        ;
    }
    ((x as u32 * y as u32) / 255) as u8
}

/// Blends one source pixel over one destination pixel under a tint.
pub fn blend_pixel(src: Rgba, dst: Rgba, tint: Rgba) -> (r: Rgba)
    ensures
        r == spec_blend(src, dst, tint),
{
    let s = Rgba {
        r: mul255(src.r, tint.r),
        g: mul255(src.g, tint.g),
        b: mul255(src.b, tint.b),
        a: mul255(src.a, tint.a),
    };
    let q = mul255(dst.a, 255 - s.a);
    proof {
        assert(dst.a as int * (255 - s.a as int) <= 255 * (255 - s.a as int)) by (nonlinear_arith)
            requires
                dst.a as int <= 255,
                s.a as int <= 255,
        ;
        assert((dst.a as int * (255 - s.a as int)) / 255 <= (255 * (255 - s.a as int)) / 255)
            by (nonlinear_arith)
            requires
                dst.a as int * (255 - s.a as int) <= 255 * (255 - s.a as int),
        ;
        assert((255 * (255 - s.a as int)) / 255 == 255 - s.a as int) by (nonlinear_arith);
    }
    let oa: u32 = s.a as u32 + q as u32;
    if oa == 0 {
        return dst;
    }
    let c_r = blend_channel(s.r, s.a, dst.r, dst.a, oa);
    let c_g = blend_channel(s.g, s.a, dst.g, dst.a, oa);
    let c_b = blend_channel(s.b, s.a, dst.b, dst.a, oa);
    Rgba { r: c_r, g: c_g, b: c_b, a: oa as u8 }
}

/// Computes one blended color channel.
fn blend_channel(sc: u8, sa: u8, dc: u8, da: u8, oa: u32) -> (r: u8)
    requires
        0 < oa <= 255,
    ensures
        r as int == spec_blend_channel(sc as int, sa as int, dc as int, da as int, oa as int) as u8,
{
    proof {
        assert(sc as int * sa as int <= 255 * 255) by (nonlinear_arith)
            requires
                sc as int <= 255,
                sa as int <= 255,
        ;
        assert(sc as int * sa as int >= 0) by (nonlinear_arith)
            requires
                sc as int >= 0,
                sa as int >= 0,
        ;
        assert(dc as int * da as int <= 255 * 255) by (nonlinear_arith)
            requires
                dc as int <= 255,
                da as int <= 255,
                dc as int >= 0,
                da as int >= 0,
        ;
        assert((dc as int * da as int) * (255 - sa as int) <= 255 * 255 * 255) by (nonlinear_arith)
            requires
                dc as int <= 255,
                da as int <= 255,
                dc as int >= 0,
                da as int >= 0,
                0 <= sa as int <= 255,
        ;
        assert(((dc as int * da as int) * (255 - sa as int)) / 255 <= 255 * 255 * 255)
            by (nonlinear_arith)
            requires
                0 <= (dc as int * da as int) * (255 - sa as int) <= 255 * 255 * 255,
        ;
        assert((dc as int * da as int) * (255 - sa as int) >= 0) by (nonlinear_arith)
            requires
                dc as int >= 0,
                da as int >= 0,
                sa as int <= 255,
        ;
    }
    let num: u32 = sc as u32 * sa as u32 + (dc as u32 * da as u32) * (255 - sa as u32) / 255;
    let out = #[verifier::truncate] ((num / oa) as u8);
    out
}

/// Compositing a fully opaque source with the identity tint onto a
/// destination holding the same content leaves that content unchanged.
pub proof fn lemma_opaque_identity(src: Rgba, dst: Rgba, tint: Rgba)
    requires
        src.a == 255,
        tint == (Rgba { r: 255, g: 255, b: 255, a: 255 }),
        dst == src,
    ensures
        spec_blend(src, dst, tint) == dst,
{
    lemma_mul255_identity(src.r as int);
    lemma_mul255_identity(src.g as int);
    lemma_mul255_identity(src.b as int);
    lemma_mul255_identity(src.a as int);
    let s = spec_tinted(src, tint);
    assert(s == src);
    let oa = spec_out_alpha(255, dst.a as int);
    assert(spec_mul255(dst.a as int, 0) == 0) by (nonlinear_arith);
    assert(oa == 255);
    assert(spec_blend_channel(src.r as int, 255, dst.r as int, dst.a as int, 255) == src.r as int)
        by (nonlinear_arith)
        requires
            0 <= src.r as int <= 255,
            0 <= dst.r as int <= 255,
            0 <= dst.a as int <= 255,
            dst.r == src.r,
    ;
    assert(spec_blend_channel(src.g as int, 255, dst.g as int, dst.a as int, 255) == src.g as int)
        by (nonlinear_arith)
        requires
            0 <= src.g as int <= 255,
            0 <= dst.g as int <= 255,
            0 <= dst.a as int <= 255,
            dst.g == src.g,
    ;
    assert(spec_blend_channel(src.b as int, 255, dst.b as int, dst.a as int, 255) == src.b as int)
        by (nonlinear_arith)
        requires
            0 <= src.b as int <= 255,
            0 <= dst.b as int <= 255,
            0 <= dst.a as int <= 255,
            dst.b == src.b,
    ;
}

/// Scaling a channel by the identity tint keeps it.
pub proof fn lemma_mul255_identity(c: int)
    requires
        0 <= c <= 255,
    ensures
        spec_mul255(c, 255) == c,
{
    assert((c * 255) / 255 == c) by (nonlinear_arith)
        requires
            0 <= c,
    ;
}

/// Blending any pixel over a fully transparent destination under the
/// identity tint keeps the pixel when its alpha is nonzero and keeps the
/// destination transparent otherwise.
pub proof fn lemma_blend_onto_transparent(src: Rgba)
    ensures
        spec_blend(
            src,
            spec_transparent(),
            Rgba { r: 255, g: 255, b: 255, a: 255 },
        ) == (if src.a == 0 {
            spec_transparent()
        } else {
            src
        }),
{
    lemma_mul255_identity(src.r as int);
    lemma_mul255_identity(src.g as int);
    lemma_mul255_identity(src.b as int);
    lemma_mul255_identity(src.a as int);
    let s = spec_tinted(src, Rgba { r: 255, g: 255, b: 255, a: 255 });
    assert(s == src);
    assert(spec_mul255(0, 255 - src.a as int) == 0) by (nonlinear_arith);
    let oa = spec_out_alpha(src.a as int, 0);
    assert(oa == src.a as int);
    if src.a != 0 {
        assert(spec_blend_channel(src.r as int, src.a as int, 0, 0, oa) == src.r as int)
            by (nonlinear_arith)
            requires
                oa == src.a as int,
                0 < src.a as int <= 255,
                0 <= src.r as int <= 255,
        ;
        assert(spec_blend_channel(src.g as int, src.a as int, 0, 0, oa) == src.g as int)
            by (nonlinear_arith)
            requires
                oa == src.a as int,
                0 < src.a as int <= 255,
                0 <= src.g as int <= 255,
        ;
        assert(spec_blend_channel(src.b as int, src.a as int, 0, 0, oa) == src.b as int)
            by (nonlinear_arith)
            requires
                oa == src.a as int,
                0 < src.a as int <= 255,
                0 <= src.b as int <= 255,
        ;
    }
}

/// Whether a destination pixel lies under the pasted crop region.
pub open spec fn spec_in_patch(to_loc: (u32, u32), crop: Rect, x: int, y: int) -> bool {
    to_loc.0 <= x < to_loc.0 + crop.width && to_loc.1 <= y < to_loc.1 + crop.height
}

/// What a destination pixel holds after compositing: pixels under the crop
/// region are blends of the matching source pixel over the old content;
/// every other pixel is untouched.
pub open spec fn spec_composite_pixel(
    from: ImageView,
    to_old: ImageView,
    to_loc: (u32, u32),
    crop: Rect,
    tint: Rgba,
    x: int,
    y: int,
) -> Rgba {
    if spec_in_patch(to_loc, crop, x, y) {
        spec_blend(
            spec_pixel(from, crop.x + (x - to_loc.0), crop.y + (y - to_loc.1)),
            spec_pixel(to_old, x, y),
            tint,
        )
    } else {
        spec_pixel(to_old, x, y)
    }
}

/// Pixels already walked by the compositing loops: whole rows below `yy`,
/// and the first `xx` columns of row `yy`, in crop-relative coordinates.
pub open spec fn spec_done(to_loc: (u32, u32), crop: Rect, x: int, y: int, yy: int, xx: int) -> bool {
    spec_in_patch(to_loc, crop, x, y) && (y - to_loc.1 < yy || (y - to_loc.1 == yy && x - to_loc.0
        < xx))
}

/// Alpha-blends the `crop_from` region of `from` onto `to` at `to_loc`
/// under a per-channel tint. A crop that leaves the source is rejected
/// before any write; destination pixels that would fall outside `to` are
/// skipped; every other destination pixel under the region becomes the
/// blend of its source pixel over its old content.
#[verifier::loop_isolation(false)]
pub fn composite(
    from: &RgbaImage,
    to: &mut RgbaImage,
    to_loc: (u32, u32),
    crop_from: Rect,
    tint: Rgba,
) -> (r: Result<(), BoundsError>)
    ensures
        r is Err <==> (crop_from.x + crop_from.width > from@.width || crop_from.y
            + crop_from.height > from@.height),
        r is Err ==> final(to)@ == old(to)@,
        r is Ok ==> {
            &&& final(to)@.width == old(to)@.width
            &&& final(to)@.height == old(to)@.height
            &&& final(to)@.pixels.len() == old(to)@.pixels.len()
            &&& forall|x: int, y: int|
                0 <= x < old(to)@.width && 0 <= y < old(to)@.height ==> spec_pixel(
                    final(to)@,
                    x,
                    y,
                ) == spec_composite_pixel(from@, old(to)@, to_loc, crop_from, tint, x, y)
        },
{
    let fw = from.width();
    let fh = from.height();
    if crop_from.x as u64 + crop_from.width as u64 > fw as u64 || crop_from.y as u64
        + crop_from.height as u64 > fh as u64 {
        return Err(BoundsError);
    }
    let tw = to.width();
    let th = to.height();
    let mut yy: u32 = 0;
    while yy < crop_from.height
        invariant
            0 <= yy <= crop_from.height,
            to@.width == old(to)@.width,
            to@.height == old(to)@.height,
            to@.pixels.len() == old(to)@.pixels.len(),
            forall|x: int, y: int|
                0 <= x < old(to)@.width && 0 <= y < old(to)@.height ==> #[trigger] spec_pixel(
                    to@,
                    x,
                    y,
                ) == (if spec_done(to_loc, crop_from, x, y, yy as int, 0) {
                    spec_composite_pixel(from@, old(to)@, to_loc, crop_from, tint, x, y)
                } else {
                    spec_pixel(old(to)@, x, y)
                }),
        decreases crop_from.height - yy,
    {
        let mut xx: u32 = 0;
        while xx < crop_from.width
            invariant
                0 <= xx <= crop_from.width,
                0 <= yy < crop_from.height,
                to@.width == old(to)@.width,
                to@.height == old(to)@.height,
                to@.pixels.len() == old(to)@.pixels.len(),
                forall|x: int, y: int|
                    0 <= x < old(to)@.width && 0 <= y < old(to)@.height ==> #[trigger] spec_pixel(
                        to@,
                        x,
                        y,
                    ) == (if spec_done(to_loc, crop_from, x, y, yy as int, xx as int) {
                        spec_composite_pixel(from@, old(to)@, to_loc, crop_from, tint, x, y)
                    } else {
                        spec_pixel(old(to)@, x, y)
                    }),
            decreases crop_from.width - xx,
        {
            let dx64: u64 = to_loc.0 as u64 + xx as u64;
            let dy64: u64 = to_loc.1 as u64 + yy as u64;
            if dx64 < tw as u64 && dy64 < th as u64 {
                let dx: u32 = to_loc.0 + xx;
                let dy: u32 = to_loc.1 + yy;
                let sp = from.get_pixel(crop_from.x + xx, crop_from.y + yy);
                let dp = to.get_pixel(dx, dy);
                proof {
                    assert(!spec_done(to_loc, crop_from, dx as int, dy as int, yy as int, xx as int));
                    assert(dp == spec_pixel(old(to)@, dx as int, dy as int));
                }
                let np = blend_pixel(sp, dp, tint);
                let ghost before = to@;
                proof {
                    crate::rgba::lemma_pixel_index_bound(
                        to@.width as int,
                        to@.height as int,
                        dx as int,
                        dy as int,
                    );
                }
                to.put_pixel(dx, dy, np);
                proof {
                    assert forall|x: int, y: int|
                        0 <= x < old(to)@.width && 0 <= y < old(to)@.height implies #[trigger] spec_pixel(
                        to@,
                        x,
                        y,
                    ) == (if spec_done(to_loc, crop_from, x, y, yy as int, xx + 1) {
                        spec_composite_pixel(from@, old(to)@, to_loc, crop_from, tint, x, y)
                    } else {
                        spec_pixel(old(to)@, x, y)
                    }) by {
                        crate::rgba::lemma_pixel_index_bound(
                            to@.width as int,
                            to@.height as int,
                            x,
                            y,
                        );
                        crate::rgba::lemma_pixel_index_bound(
                            to@.width as int,
                            to@.height as int,
                            dx as int,
                            dy as int,
                        );
                        if x == dx as int && y == dy as int {
                            assert(spec_pixel(to@, x, y) == np);
                        } else {
                            lemma_pixel_index_injective(
                                old(to)@.width as int,
                                x,
                                y,
                                dx as int,
                                dy as int,
                            );
                            assert(spec_pixel(to@, x, y) == spec_pixel(before, x, y));
                            assert(spec_done(to_loc, crop_from, x, y, yy as int, xx + 1)
                                == spec_done(to_loc, crop_from, x, y, yy as int, xx as int));
                        }
                    }
                }
            } else {
                proof {
                    assert forall|x: int, y: int|
                        0 <= x < old(to)@.width && 0 <= y < old(to)@.height implies (spec_done(
                        to_loc,
                        crop_from,
                        x,
                        y,
                        yy as int,
                        xx + 1,
                    ) == spec_done(to_loc, crop_from, x, y, yy as int, xx as int)) by {
                        if spec_in_patch(to_loc, crop_from, x, y) && y - to_loc.1 == yy as int && x
                            - to_loc.0 == xx as int {
                            assert(false);
                        }
                    }
                }
            }
            xx = xx + 1;
        }
        proof {
            assert forall|x: int, y: int|
                0 <= x < old(to)@.width && 0 <= y < old(to)@.height implies (spec_done(
                to_loc,
                crop_from,
                x,
                y,
                yy + 1,
                0,
            ) == spec_done(to_loc, crop_from, x, y, yy as int, crop_from.width as int)) by {}
        }
        yy = yy + 1;
    }
    proof {
        assert forall|x: int, y: int|
            0 <= x < old(to)@.width && 0 <= y < old(to)@.height implies #[trigger] spec_pixel(
            to@,
            x,
            y,
        ) == spec_composite_pixel(from@, old(to)@, to_loc, crop_from, tint, x, y) by {
            if !spec_done(to_loc, crop_from, x, y, crop_from.height as int, 0) {
                assert(!spec_in_patch(to_loc, crop_from, x, y));
            }
        }
    }
    Ok(())
}

/// A decoded sheet with its parsed metadata.
#[derive(Debug)]
pub struct IconFile {
    /// The icon's metadata.
    pub metadata: Metadata,
    /// The icon's image.
    pub image: RgbaImage,
}

impl IconFile {
    /// A sheet is well formed when its metadata offsets are, the declared
    /// cell size is nonzero, and the image width is a whole number of
    /// cells.
    pub open spec fn wf(&self) -> bool {
        &&& self.metadata.wf()
        &&& self.metadata.header.width > 0
        &&& self.metadata.header.height > 0
        &&& self.image@.width % (self.metadata.header.width as nat) == 0
    }

    /// The number of cell columns in the sheet.
    pub open spec fn spec_columns(&self) -> int {
        self.image@.width as int / self.metadata.header.width as int
    }

    /// The number of whole cell rows in the sheet.
    pub open spec fn spec_rows(&self) -> int {
        self.image@.height as int / self.metadata.header.height as int
    }

    /// The number of cells the sheet holds.
    pub open spec fn spec_sheet_cells(&self) -> int {
        self.spec_columns() * self.spec_rows()
    }

    /// Couples parsed metadata with a decoded sheet, rejecting a sheet
    /// whose size is not a grid of the declared cells.
    pub fn new(metadata: Metadata, image: RgbaImage) -> (r: Result<IconFile, FormatError>)
        requires
            metadata.wf(),
        ensures
            match r {
                Ok(f) => metadata.header.width > 0 && metadata.header.height > 0 && image@.width % (
                metadata.header.width as nat) == 0 && f.metadata == metadata && f.image == image
                    && f.wf(),
                Err(e) => e == FormatError::BadSheetGrid && (metadata.header.width == 0
                    || metadata.header.height == 0 || image@.width % (
                metadata.header.width as nat) != 0),
            },
    {
        if metadata.header.width == 0 || metadata.header.height == 0 {
            return Err(FormatError::BadSheetGrid);
        }
        if image.width() % metadata.header.width != 0 {
            return Err(FormatError::BadSheetGrid);
        }
        Ok(IconFile { metadata, image })
    }

    /// The number of cells the sheet holds.
    pub fn sheet_cells(&self) -> (r: u64)
        requires
            self.wf(),
        ensures
            r == self.spec_sheet_cells(),
    {
        let cols = self.image.width() / self.metadata.header.width;
        let rows = self.image.height() / self.metadata.header.height;
        proof {
            assert(cols as int * rows as int <= u32::MAX as int * u32::MAX as int)
                by (nonlinear_arith)
                requires
                    cols as int <= u32::MAX as int,
                    rows as int <= u32::MAX as int,
            ;
        }
        cols as u64 * rows as u64
    }

    /// The cell rectangle of an absolute cell index inside the sheet.
    pub fn rect_of_index(&self, icon_index: u32) -> (r: Rect)
        requires
            self.wf(),
            icon_index < self.spec_sheet_cells(),
        ensures
            r.x == (icon_index as int % self.spec_columns()) * self.metadata.header.width,
            r.y == (icon_index as int / self.spec_columns()) * self.metadata.header.height,
            r.width == self.metadata.header.width,
            r.height == self.metadata.header.height,
            r.x + r.width <= self.image@.width,
            r.y + r.height <= self.image@.height,
    {
        let cw = self.metadata.header.width;
        let ch = self.metadata.header.height;
        let cols = self.image.width() / cw;
        let rows = self.image.height() / ch;
        proof {
            assert(cols > 0 && rows > 0) by (nonlinear_arith)
                requires
                    icon_index < cols as int * rows as int,
                    icon_index >= 0,
                    cols >= 0,
                    rows >= 0,
            ;
        }
        let icon_x = icon_index % cols;
        let icon_y = icon_index / cols;
        proof {
            assert(icon_y < rows) by (nonlinear_arith)
                requires
                    icon_index < cols as int * rows as int,
                    cols > 0,
                    rows > 0,
                    icon_y == icon_index as int / cols as int,
            ;
            assert(icon_x as int * cw as int + cw <= cols as int * cw as int) by (nonlinear_arith)
                requires
                    icon_x < cols,
                    cw >= 0,
            ;
            assert(cols as int * cw as int <= self.image@.width) by (nonlinear_arith)
                requires
                    cols as int == self.image@.width as int / cw as int,
                    cw > 0,
                    self.image@.width >= 0,
            ;
            assert(icon_y as int * ch as int + ch <= rows as int * ch as int) by (nonlinear_arith)
                requires
                    icon_y < rows,
                    ch >= 0,
            ;
            assert(rows as int * ch as int <= self.image@.height) by (nonlinear_arith)
                requires
                    rows as int == self.image@.height as int / ch as int,
                    ch > 0,
                    self.image@.height >= 0,
            ;
        }
        Rect { x: icon_x * cw, y: icon_y * ch, width: cw, height: ch }
    }

    /// The cell rectangle of a (state, direction) request: the cell of its
    /// first frame. An empty catalog addresses the whole sheet as one
    /// implicit cell at the origin; a reference that does not resolve, or
    /// resolves outside the sheet, gives nothing.
    pub fn rect_of(&self, icon_state: IconIndex<'_>, dir: Dir) -> (r: Option<Rect>)
        requires
            self.wf(),
        ensures
            self.metadata.states@.len() == 0 ==> r == Some(
                Rect {
                    x: 0u32,
                    y: 0u32,
                    width: self.metadata.header.width,
                    height: self.metadata.header.height,
                },
            ),
            self.metadata.states@.len() > 0 ==> match spec_find_occurrence(
                self.metadata@.states,
                icon_state@.1,
                icon_state@.0,
                0,
            ) {
                None => r is None,
                Some(ix) => {
                    let idx = self.metadata.states@[ix].0@ + spec_dir_slot(
                        self.metadata@.states[ix].dirs,
                        dir,
                    );
                    if idx <= u32::MAX && idx < self.spec_sheet_cells() {
                        r matches Some(rect) && rect.x == (idx % self.spec_columns())
                            * self.metadata.header.width && rect.y == (idx
                            / self.spec_columns()) * self.metadata.header.height && rect.width
                            == self.metadata.header.width && rect.height
                            == self.metadata.header.height
                    } else {
                        r is None
                    }
                },
            },
    {
        if self.metadata.states.len() == 0 {
            return Some(
                Rect {
                    x: 0,
                    y: 0,
                    width: self.metadata.header.width,
                    height: self.metadata.header.height,
                },
            );
        }
        let icon_index = match self.metadata.get_index_of_frame(icon_state, dir, 0) {
            Some(i) => i,
            None => {
                return None;
            },
        };
        let cells = self.sheet_cells();
        if (icon_index as u64) < cells {
            Some(self.rect_of_index(icon_index))
        } else {
            None
        }
    }

    /// The cell image of an absolute location in the sheet, or nothing when
    /// the location lies outside it.
    pub fn get_icon(&self, index: IconLocation) -> (r: Option<RgbaImage>)
        requires
            self.wf(),
        ensures
            match r {
                Some(im) => index@ < self.spec_sheet_cells() && index@ <= u32::MAX && im@.width
                    == self.metadata.header.width && im@.height == self.metadata.header.height
                    && forall|x: int, y: int|
                    0 <= x < im@.width && 0 <= y < im@.height ==> #[trigger] spec_pixel(im@, x, y)
                        == spec_pixel(
                        self.image@,
                        (index@ as int % self.spec_columns()) * self.metadata.header.width + x,
                        (index@ as int / self.spec_columns()) * self.metadata.header.height + y,
                    ),
                None => index@ >= self.spec_sheet_cells() || index@ > u32::MAX,
            },
    {
        let cells = self.sheet_cells();
        let pos = index.into_inner();
        if pos as u64 >= cells || pos as u64 > u32::MAX as u64 {
            return None;
        }
        let rect = self.rect_of_index(pos as u32);
        Some(self.image.crop(rect.x, rect.y, rect.width, rect.height))
    }

    /// The state an occurrence-addressed reference resolves to.
    pub fn get_icon_state(&self, icon_state: IconIndex<'_>) -> (r: Option<&State>)
        ensures
            match spec_find_occurrence(self.metadata@.states, icon_state@.1, icon_state@.0, 0) {
                Some(ix) => r matches Some(st) && st == &self.metadata.states@[ix].1,
                None => r is None,
            },
    {
        match self.metadata.get_icon_state(icon_state) {
            Some((_, state)) => Some(state),
            None => None,
        }
    }
}

} // verus!
