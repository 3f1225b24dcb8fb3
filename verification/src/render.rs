//! The renderer: maps a chosen state to its sheet cells and assembles one
//! canvas per logical frame, all drawn directions tiled side by side in
//! the canonical order.
//!
//! A state with one logical frame renders to a single still image; an
//! animated state renders to one canvas per frame, played forward, and
//! when the state's rewind flag is set, forward then backward. Each output
//! frame's duration is the state's per-frame delay, a unit delay when no
//! explicit list exists, scaled from the format's tenth-of-a-second unit
//! to milliseconds.

use vstd::prelude::*;

use crate::dir::Dir;
use crate::dmi::{composite, IconFile};
use crate::error::RenderError;
use crate::key_value::{spec_dirs_num, Dirs};
use crate::metadata::{spec_dir_slot, spec_find_occurrence, IconIndex};
use crate::rgba::{spec_pixel, spec_transparent, Rgba, RgbaImage};
use crate::state::{spec_frame_count, FramesView, State, StateView};
use crate::values::{lemma_pow10_increases, lemma_pow10_positive, pow10, Decimal};

verus! {

/// Which encoder a prepared render calls for: a still image or an
/// animation.
#[derive(Debug, Clone, Copy, PartialEq, Eq, Structural)]
pub enum RenderType {
    Png,
    Gif,
}

/// Renders states of one sheet.
#[derive(Debug)]
pub struct IconRenderer<'a> {
    /// The sheet rendered from.
    pub source: &'a IconFile,
}

/// A resolved render request: the state, its occurrence index, and the
/// output shape its frame count selects.
#[derive(Debug)]
pub struct RenderStateGuard<'a> {
    pub render_type: RenderType,
    pub renderer: &'a IconRenderer<'a>,
    pub state: &'a State,
    pub index: usize,
}

/// The directions a state draws, in the canonical order they are tiled.
pub open spec fn spec_ordered_dirs(dirs: Dirs) -> Seq<Dir> {
    match dirs {
        Dirs::One => seq![Dir::South],
        Dirs::Four => seq![Dir::South, Dir::North, Dir::East, Dir::West],
        Dirs::Eight => seq![
            Dir::South,
            Dir::North,
            Dir::East,
            Dir::West,
            Dir::Southeast,
            Dir::Southwest,
            Dir::Northeast,
            Dir::Northwest,
        ],
    }
}

/// Lists the directions a state draws, in tiling order.
pub fn ordered_dirs(dirs: Dirs) -> (r: Vec<Dir>)
    ensures
        r@ == spec_ordered_dirs(dirs),
{
    match dirs {
        Dirs::One => {
            let mut v: Vec<Dir> = Vec::new();
            v.push(Dir::South);
            proof {
                assert(v@ =~= spec_ordered_dirs(dirs));
            }
            v
        },
        Dirs::Four => {
            let mut v: Vec<Dir> = Vec::new();
            v.push(Dir::South);
            v.push(Dir::North);
            v.push(Dir::East);
            v.push(Dir::West);
            proof {
                assert(v@ =~= spec_ordered_dirs(dirs));
            }
            v
        },
        Dirs::Eight => {
            let mut v: Vec<Dir> = Vec::new();
            v.push(Dir::South);
            v.push(Dir::North);
            v.push(Dir::East);
            v.push(Dir::West);
            v.push(Dir::Southeast);
            v.push(Dir::Southwest);
            v.push(Dir::Northeast);
            v.push(Dir::Northwest);
            proof {
                assert(v@ =~= spec_ordered_dirs(dirs));
            }
            v
        },
    }
}

/// The logical frame numbers emitted in order: the forward run, followed
/// by the same run reversed when the state rewinds.
pub open spec fn spec_frame_sequence(frames: int, rewind: bool) -> Seq<int> {
    Seq::new(frames as nat, |i: int| i) + (if rewind {
        Seq::new(frames as nat, |i: int| frames - 1 - i)
    } else {
        Seq::empty()
    })
}

/// The delay of a logical frame, in the format's tenth-of-a-second unit: an
/// entry of the state's delay list, or one unit where the list is missing
/// or shorter than the frame number.
pub open spec fn spec_frame_delay(st: StateView, frame: int) -> Decimal {
    match st.frames {
        FramesView::Delays(l) => if 0 <= frame < l.len() {
            l[frame]
        } else {
            Decimal { mantissa: 1, scale: 0 }
        },
        _ => Decimal { mantissa: 1, scale: 0 },
    }
}

/// A delay in tenths of a second, as whole milliseconds, truncating.
pub open spec fn spec_delay_millis(d: Decimal) -> int {
    (d.mantissa * 100) / pow10(d.scale as nat) as int
}

/// Converts a delay to milliseconds, saturating at the largest value the
/// machine holds.
#[verifier::loop_isolation(false)]
pub fn delay_millis(d: Decimal) -> (r: u64)
    ensures
        r == (if spec_delay_millis(d) <= u64::MAX {
            spec_delay_millis(d)
        } else {
            u64::MAX as int
        }),
{
    let num: u128 = d.mantissa as u128 * 100;
    let mut p: u128 = 1;
    let mut k: u32 = 0;
    while k < d.scale
        invariant
            k <= d.scale,
            p == pow10(k as nat),
            p <= num || k == 0,
        decreases d.scale - k,
    {
        if p > num {
            proof {
                lemma_pow10_increases(k as nat, d.scale as nat);
                lemma_pow10_positive(d.scale as nat);
                assert(num < pow10(d.scale as nat));
                assert((d.mantissa * 100) / pow10(d.scale as nat) as int == 0) by (nonlinear_arith)
                    requires
                        0 <= d.mantissa * 100 < pow10(d.scale as nat),
                ;
            }
            return 0;
        }
        p = p * 10;
        k = k + 1;
        if p > num {
            proof {
                lemma_pow10_increases(k as nat, d.scale as nat);
                lemma_pow10_positive(d.scale as nat);
                assert(num < pow10(d.scale as nat));
                assert((d.mantissa * 100) / pow10(d.scale as nat) as int == 0) by (nonlinear_arith)
                    requires
                        0 <= d.mantissa * 100 < pow10(d.scale as nat),
                ;
            }
            return 0;
        }
    }
    proof {
        lemma_pow10_positive(d.scale as nat);
    }
    let q: u128 = num / p;
    if q > u64::MAX as u128 {
        u64::MAX
    } else {
        q as u64
    }
}

/// The absolute cell index a (state, direction, frame) request addresses.
pub open spec fn spec_cell_index(loc: nat, dirs: Dirs, dir: Dir, frame: int) -> int {
    loc + spec_dir_slot(dirs, dir) + frame * spec_dirs_num(dirs)
}

/// What a canvas pixel holds after a frame is assembled. The pixel's slot
/// is its column divided by the cell width; the slot's direction addresses
/// a sheet cell; the pixel copies the matching cell pixel, with fully
/// transparent source pixels leaving the canvas fully transparent. A cell
/// the sheet cannot hold leaves its whole slot transparent.
pub open spec fn spec_rendered_pixel(
    source: &IconFile,
    loc: nat,
    st: StateView,
    frame: int,
    x: int,
    y: int,
) -> Rgba {
    let cw = source.metadata.header.width as int;
    let ch = source.metadata.header.height as int;
    let j = x / cw;
    let dir = spec_ordered_dirs(st.dirs)[j];
    let cell = spec_cell_index(loc, st.dirs, dir, frame);
    if cell <= u32::MAX && cell < source.spec_sheet_cells() {
        let sx = (cell % source.spec_columns()) * cw + (x % cw);
        let sy = (cell / source.spec_columns()) * ch + y;
        let p = spec_pixel(source.image@, sx, sy);
        if p.a == 0 {
            spec_transparent()
        } else {
            p
        }
    } else {
        spec_transparent()
    }
}

impl<'a> IconRenderer<'a> {
    pub fn new(source: &'a IconFile) -> (r: Self)
        ensures
            r.source == source,
    {
        Self { source }
    }

    /// Resolves a reference and selects the output shape from the state's
    /// animation flag: a still image for one frame, an animation for more.
    pub fn prepare_render(&self, icon_state: IconIndex<'_>) -> (r: Result<
        RenderStateGuard,
        RenderError,
    >)
        ensures
            match spec_find_occurrence(
                self.source.metadata@.states,
                icon_state@.1,
                icon_state@.0,
                0,
            ) {
                Some(ix) => r matches Ok(g) && g.state == &self.source.metadata.states@[ix].1
                    && g.index == icon_state@.0 && g.renderer == self && g.render_type == (
                if spec_frame_count(self.source.metadata@.states[ix].frames) > 1 {
                    RenderType::Gif
                } else {
                    RenderType::Png
                }),
                None => r == Err::<RenderStateGuard, RenderError>(RenderError::NotFound),
            },
    {
        let state = match self.source.get_icon_state(icon_state) {
            Some(st) => st,
            None => {
                return Err(RenderError::NotFound);
            },
        };
        proof {
            match spec_find_occurrence(
                self.source.metadata@.states,
                icon_state@.1,
                icon_state@.0,
                0,
            ) {
                Some(ix) => {
                    crate::metadata::lemma_find_occurrence_in_range(
                        self.source.metadata@.states,
                        icon_state@.1,
                        icon_state@.0,
                        0,
                    );
                    assert(self.source.metadata@.states[ix] == self.source.metadata.states@[ix].1@);
                },
                None => {},
            }
        }
        self.prepare_render_state(state, icon_state.index())
    }

    /// Selects the output shape for an already-resolved state.
    pub fn prepare_render_state(&'a self, icon_state: &'a State, index: usize) -> (r: Result<
        RenderStateGuard,
        RenderError,
    >)
        ensures
            r matches Ok(g) && g.state == icon_state && g.index == index && g.renderer == self
                && g.render_type == (if spec_frame_count(icon_state@.frames) > 1 {
                RenderType::Gif
            } else {
                RenderType::Png
            }),
    {
        if icon_state.is_animated() {
            Ok(
                RenderStateGuard {
                    renderer: self,
                    state: icon_state,
                    render_type: RenderType::Gif,
                    index,
                },
            )
        } else {
            Ok(
                RenderStateGuard {
                    renderer: self,
                    state: icon_state,
                    render_type: RenderType::Png,
                    index,
                },
            )
        }
    }

    /// Whether a resolved state's canvases and frame count fit what the
    /// machine can address.
    pub open spec fn spec_render_fits(&self, st: StateView) -> bool {
        let cw = self.source.metadata.header.width as int;
        let ch = self.source.metadata.header.height as int;
        let card = spec_dirs_num(st.dirs) as int;
        &&& spec_frame_count(st.frames) <= u32::MAX
        &&& cw * card <= u32::MAX
        &&& (cw * card) * ch <= usize::MAX
    }

    /// One canvas per emitted frame, each holding its logical frame's
    /// directions tiled in canonical order.
    pub open spec fn spec_frames_ok(
        &self,
        loc: nat,
        st: StateView,
        r: Seq<RgbaImage>,
    ) -> bool {
        let cw = self.source.metadata.header.width as int;
        let ch = self.source.metadata.header.height as int;
        let card = spec_dirs_num(st.dirs) as int;
        let fseq = spec_frame_sequence(spec_frame_count(st.frames) as int, st.rewind);
        &&& r.len() == fseq.len()
        &&& forall|k: int|
            0 <= k < fseq.len() ==> {
                let im = #[trigger] r[k];
                im@.width == cw * card && im@.height == ch && forall|x: int, y: int|
                    0 <= x < im@.width && 0 <= y < im@.height ==> #[trigger] spec_pixel(im@, x, y)
                        == spec_rendered_pixel(self.source, loc, st, fseq[k], x, y)
            }
    }

    /// Assembles one logical frame onto a transparent canvas: each drawn
    /// direction's cell copied to its slot, left to right in canonical
    /// order.
    #[verifier::loop_isolation(false)]
    fn render_dirs(
        &self,
        icon_state: &State,
        icon_index: IconIndex<'_>,
        canvas: &mut RgbaImage,
        frame: u32,
    )
        requires
            self.source.wf(),
            spec_find_occurrence(
                self.source.metadata@.states,
                icon_index@.1,
                icon_index@.0,
                0,
            ) matches Some(ix) && self.source.metadata.states@[ix].1 == *icon_state,
            old(canvas)@.width == self.source.metadata.header.width as int * spec_dirs_num(
                icon_state@.dirs,
            ),
            old(canvas)@.height == self.source.metadata.header.height,
            old(canvas)@.pixels.len() == old(canvas)@.width * old(canvas)@.height,
            forall|i: int|
                0 <= i < old(canvas)@.pixels.len() ==> old(canvas)@.pixels[i]
                    == spec_transparent(),
        ensures
            final(canvas)@.width == old(canvas)@.width,
            final(canvas)@.height == old(canvas)@.height,
            ({
                let found = spec_find_occurrence(
                    self.source.metadata@.states,
                    icon_index@.1,
                    icon_index@.0,
                    0,
                );
                found matches Some(ix) && forall|x: int, y: int|
                    0 <= x < final(canvas)@.width && 0 <= y < final(canvas)@.height
                        ==> #[trigger] spec_pixel(final(canvas)@, x, y) == spec_rendered_pixel(
                        self.source,
                        self.source.metadata.states@[ix].0@,
                        icon_state@,
                        frame as int,
                        x,
                        y,
                    )
            }),
    {
        let ghost ix = spec_find_occurrence(
            self.source.metadata@.states,
            icon_index@.1,
            icon_index@.0,
            0,
        )->Some_0;
        let ghost loc = self.source.metadata.states@[ix].0@;
        proof {
            crate::metadata::lemma_find_occurrence_in_range(
                self.source.metadata@.states,
                icon_index@.1,
                icon_index@.0,
                0,
            );
            assert(self.source.metadata@.states[ix] == self.source.metadata.states@[ix].1@);
        }
        let dirs_list = ordered_dirs(icon_state.dirs);
        let cw = self.source.metadata.header.width;
        let ch = self.source.metadata.header.height;
        let card = icon_state.dirs.get_num();
        let cells = self.source.sheet_cells();
        let canvas_w = canvas.width();
        proof {
            assert forall|x: int, y: int|
                0 <= x < canvas@.width && 0 <= y < canvas@.height implies #[trigger] spec_pixel(
                canvas@,
                x,
                y,
            ) == spec_transparent() by {
                crate::rgba::lemma_pixel_index_bound(
                    canvas@.width as int,
                    canvas@.height as int,
                    x,
                    y,
                );
            }
        }
        let mut j: usize = 0;
        while j < dirs_list.len()
            invariant
                0 <= j <= dirs_list@.len(),
                canvas@.width == old(canvas)@.width,
                canvas@.height == old(canvas)@.height,
                canvas@.pixels.len() == old(canvas)@.pixels.len(),
                forall|x: int, y: int|
                    0 <= x < canvas@.width && 0 <= y < canvas@.height ==> #[trigger] spec_pixel(
                        canvas@,
                        x,
                        y,
                    ) == (if x < j * cw {
                        spec_rendered_pixel(self.source, loc, icon_state@, frame as int, x, y)
                    } else {
                        spec_transparent()
                    }),
            decreases dirs_list@.len() - j,
        {
            let dir = dirs_list[j];
            proof {
                assert(j * cw >= 0) by (nonlinear_arith)
                    requires
                        j >= 0,
                        cw >= 0,
                ;
                assert((j + 1) * cw <= card * cw) by (nonlinear_arith)
                    requires
                        j + 1 <= card,
                        cw >= 0,
                ;
                assert(card * cw == cw * card) by (nonlinear_arith);
                assert(j * cw + cw == (j + 1) * cw) by (nonlinear_arith);
                assert(cw as int * card as int == canvas@.width);
                assert(j as int * cw as int <= u32::MAX as int);
            }
            let xoff: u32 = (j as u32) * cw;
            let ghost before = canvas@;
            let cell_opt = self.source.metadata.get_index_of_frame(icon_index, dir, frame);
            let mut done: bool = false;
            match cell_opt {
                Some(cell_idx) => {
                    if (cell_idx as u64) < cells {
                        let rect = self.source.rect_of_index(cell_idx);
                        let res = composite(
                            &self.source.image,
                            canvas,
                            (xoff, 0),
                            rect,
                            Rgba { r: 255, g: 255, b: 255, a: 255 },
                        );
                        proof {
                            assert(res is Ok);
                        }
                        done = true;
                        proof {
                            let cols = self.source.spec_columns();
                            assert forall|x: int, y: int|
                                0 <= x < canvas@.width && 0 <= y < canvas@.height
                                    implies #[trigger] spec_pixel(canvas@, x, y) == (if x < (j + 1)
                                * cw {
                                spec_rendered_pixel(
                                    self.source,
                                    loc,
                                    icon_state@,
                                    frame as int,
                                    x,
                                    y,
                                )
                            } else {
                                spec_transparent()
                            }) by {
                                if xoff <= x < xoff + cw {
                                    vstd::arithmetic::div_mod::lemma_fundamental_div_mod_converse(
                                        x,
                                        cw as int,
                                        j as int,
                                        x - j * cw,
                                    );
                                    assert(x / cw as int == j as int);
                                    assert(x % cw as int == x - j * cw);
                                    let p = spec_pixel(
                                        self.source.image@,
                                        rect.x + (x - xoff),
                                        rect.y + y,
                                    );
                                    crate::dmi::lemma_blend_onto_transparent(p);
                                    assert(spec_pixel(before, x, y) == spec_transparent());
                                    assert(spec_pixel(canvas@, x, y) == crate::dmi::spec_blend(
                                        p,
                                        spec_transparent(),
                                        Rgba { r: 255, g: 255, b: 255, a: 255 },
                                    ));
                                } else {
                                    assert(spec_pixel(canvas@, x, y) == spec_pixel(before, x, y));
                                    if x < j * cw || x >= (j + 1) * cw {
                                    } else {
                                        assert(false);
                                    }
                                }
                            }
                        }
                    }
                },
                None => {},
            }
            if !done {
                proof {
                    assert forall|x: int, y: int|
                        0 <= x < canvas@.width && 0 <= y < canvas@.height implies #[trigger] spec_pixel(
                        canvas@,
                        x,
                        y,
                    ) == (if x < (j + 1) * cw {
                        spec_rendered_pixel(self.source, loc, icon_state@, frame as int, x, y)
                    } else {
                        spec_transparent()
                    }) by {
                        if j * cw <= x < (j + 1) * cw {
                            vstd::arithmetic::div_mod::lemma_fundamental_div_mod_converse(
                                x,
                                cw as int,
                                j as int,
                                x - j * cw,
                            );
                            assert(x / cw as int == j as int);
                        }
                    }
                }
            }
            j = j + 1;
        }
        proof {
            assert(dirs_list@.len() * cw as int == canvas@.width) by (nonlinear_arith)
                requires
                    dirs_list@.len() == spec_dirs_num(icon_state@.dirs) as int,
                    canvas@.width == cw as int * spec_dirs_num(icon_state@.dirs) as int,
            ;
        }
    }

    /// The frame numbers emitted in order.
    #[verifier::loop_isolation(false)]
    fn frame_order(fc: u32, rewind: bool) -> (r: Vec<u32>)
        ensures
            ({
                let fseq = spec_frame_sequence(fc as int, rewind);
                r@.len() == fseq.len() && forall|k: int|
                    0 <= k < fseq.len() ==> (#[trigger] r@[k]) as int == fseq[k]
            }),
    {
        let mut order: Vec<u32> = Vec::new();
        let mut i: u32 = 0;
        while i < fc
            invariant
                0 <= i <= fc,
                order@.len() == i,
                forall|k: int| 0 <= k < i ==> (#[trigger] order@[k]) as int == k,
            decreases fc - i,
        {
            order.push(i);
            i = i + 1;
        }
        if rewind {
            let mut left: u32 = fc;
            while left > 0
                invariant
                    0 <= left <= fc,
                    order@.len() == fc + (fc - left),
                    forall|k: int| 0 <= k < fc ==> (#[trigger] order@[k]) as int == k,
                    forall|k: int|
                        fc <= k < order@.len() ==> (#[trigger] order@[k]) as int == 2 * fc - 1 - k,
                decreases left,
            {
                left = left - 1;
                order.push(left);
            }
        }
        proof {
            let fseq = spec_frame_sequence(fc as int, rewind);
            assert(order@.len() == fseq.len());
            assert forall|k: int| 0 <= k < fseq.len() implies (#[trigger] order@[k]) as int
                == fseq[k] by {
                if k < fc {
                    assert(fseq[k] == k);
                } else {
                    assert(fseq[k] == fc - 1 - (k - fc));
                }
            }
        }
        order
    }

    /// Renders every emitted frame of a resolved state to its own canvas.
    #[verifier::loop_isolation(false)]
    pub fn render_frames(&self, icon_state: &State, icon_index: IconIndex<'_>) -> (r: Vec<
        RgbaImage,
    >)
        requires
            self.source.wf(),
            spec_find_occurrence(
                self.source.metadata@.states,
                icon_index@.1,
                icon_index@.0,
                0,
            ) matches Some(ix) && self.source.metadata.states@[ix].1 == *icon_state,
            self.spec_render_fits(icon_state@),
        ensures
            ({
                let found = spec_find_occurrence(
                    self.source.metadata@.states,
                    icon_index@.1,
                    icon_index@.0,
                    0,
                );
                found matches Some(ix) && self.spec_frames_ok(
                    self.source.metadata.states@[ix].0@,
                    icon_state@,
                    r@,
                )
            }),
    {
        let ghost ix = spec_find_occurrence(
            self.source.metadata@.states,
            icon_index@.1,
            icon_index@.0,
            0,
        )->Some_0;
        let ghost loc = self.source.metadata.states@[ix].0@;
        let cw = self.source.metadata.header.width;
        let ch = self.source.metadata.header.height;
        let card = icon_state.dirs.get_num();
        let fc = icon_state.frame_count();
        let order = Self::frame_order(fc as u32, icon_state.rewind);
        let ghost fseq = spec_frame_sequence(
            spec_frame_count(icon_state@.frames) as int,
            icon_state@.rewind,
        );
        let mut out: Vec<RgbaImage> = Vec::new();
        let mut k: usize = 0;
        while k < order.len()
            invariant
                0 <= k <= order@.len(),
                out@.len() == k,
                forall|m: int|
                    0 <= m < k ==> {
                        let im = #[trigger] out@[m];
                        im@.width == cw as int * card as int && im@.height == ch as int && forall|
                            x: int,
                            y: int,
                        |
                            0 <= x < im@.width && 0 <= y < im@.height ==> #[trigger] spec_pixel(
                                im@,
                                x,
                                y,
                            ) == spec_rendered_pixel(
                                self.source,
                                loc,
                                icon_state@,
                                fseq[m],
                                x,
                                y,
                            )
                    },
            decreases order@.len() - k,
        {
            let mut canvas = RgbaImage::new(cw * card, ch);
            self.render_dirs(icon_state, icon_index, &mut canvas, order[k]);
            out.push(canvas);
            k = k + 1;
        }
        out
    }

    /// Renders every emitted frame of a referenced state: one canvas per
    /// frame, as they would be encoded into a file.
    pub fn render_to_images(&self, icon_index: IconIndex<'_>) -> (r: Result<
        Vec<RgbaImage>,
        RenderError,
    >)
        requires
            self.source.wf(),
        ensures
            ({
                let found = spec_find_occurrence(
                    self.source.metadata@.states,
                    icon_index@.1,
                    icon_index@.0,
                    0,
                );
                match found {
                    None => r == Err::<Vec<RgbaImage>, RenderError>(RenderError::NotFound),
                    Some(ix) => {
                        let st = self.source.metadata@.states[ix];
                        if self.spec_render_fits(st) {
                            r matches Ok(v) && self.spec_frames_ok(
                                self.source.metadata.states@[ix].0@,
                                st,
                                v@,
                            )
                        } else {
                            r == Err::<Vec<RgbaImage>, RenderError>(RenderError::CanvasTooLarge)
                        }
                    },
                }
            }),
    {
        let state = match self.source.get_icon_state(icon_index) {
            Some(st) => st,
            None => {
                return Err(RenderError::NotFound);
            },
        };
        proof {
            crate::metadata::lemma_find_occurrence_in_range(
                self.source.metadata@.states,
                icon_index@.1,
                icon_index@.0,
                0,
            );
            let ix = spec_find_occurrence(
                self.source.metadata@.states,
                icon_index@.1,
                icon_index@.0,
                0,
            )->Some_0;
            assert(self.source.metadata@.states[ix] == self.source.metadata.states@[ix].1@);
        }
        if !self.render_fits(state) {
            return Err(RenderError::CanvasTooLarge);
        }
        Ok(self.render_frames(state, icon_index))
    }

    /// Decides whether a state's canvases fit what the machine can
    /// address.
    fn render_fits(&self, state: &State) -> (r: bool)
        ensures
            r == self.spec_render_fits(state@),
    {
        let cw = self.source.metadata.header.width;
        let ch = self.source.metadata.header.height;
        let card = state.dirs.get_num();
        let fc = state.frame_count();
        if fc as u64 > u32::MAX as u64 {
            return false;
        }
        let w: u64 = cw as u64 * card as u64;
        if w > u32::MAX as u64 {
            return false;
        }
        proof {
            assert(cw as int * card as int * ch as int <= u32::MAX as int * u32::MAX as int)
                by (nonlinear_arith)
                requires
                    0 <= cw as int * card as int <= u32::MAX as int,
                    0 <= ch as int <= u32::MAX as int,
            ;
        }
        let area: u128 = (w as u128) * (ch as u128);
        area <= usize::MAX as u128
    }

    /// Renders an animated state's emitted frames, each with its display
    /// duration in milliseconds; a state with a single logical frame is a
    /// usage error for this path.
    pub fn animation_frames(&self, icon_index: IconIndex<'_>) -> (r: Result<
        Vec<(RgbaImage, u64)>,
        RenderError,
    >)
        requires
            self.source.wf(),
        ensures
            ({
                let found = spec_find_occurrence(
                    self.source.metadata@.states,
                    icon_index@.1,
                    icon_index@.0,
                    0,
                );
                match found {
                    None => r == Err::<Vec<(RgbaImage, u64)>, RenderError>(RenderError::NotFound),
                    Some(ix) => {
                        let st = self.source.metadata@.states[ix];
                        let fseq = spec_frame_sequence(
                            spec_frame_count(st.frames) as int,
                            st.rewind,
                        );
                        if spec_frame_count(st.frames) <= 1 {
                            r == Err::<Vec<(RgbaImage, u64)>, RenderError>(
                                RenderError::NotAnimated,
                            )
                        } else if self.spec_render_fits(st) {
                            r matches Ok(v) && self.spec_frames_ok(
                                self.source.metadata.states@[ix].0@,
                                st,
                                v@.map_values(|p: (RgbaImage, u64)| p.0),
                            ) && v@.len() == fseq.len() && forall|k: int|
                                0 <= k < fseq.len() ==> ({
                                    let ms = spec_delay_millis(spec_frame_delay(st, fseq[k]));
                                    (#[trigger] v@[k]).1 == (if ms <= u64::MAX {
                                        ms
                                    } else {
                                        u64::MAX as int
                                    })
                                })
                        } else {
                            r == Err::<Vec<(RgbaImage, u64)>, RenderError>(
                                RenderError::CanvasTooLarge,
                            )
                        }
                    },
                }
            }),
    {
        let state = match self.source.get_icon_state(icon_index) {
            Some(st) => st,
            None => {
                return Err(RenderError::NotFound);
            },
        };
        proof {
            crate::metadata::lemma_find_occurrence_in_range(
                self.source.metadata@.states,
                icon_index@.1,
                icon_index@.0,
                0,
            );
            let ix = spec_find_occurrence(
                self.source.metadata@.states,
                icon_index@.1,
                icon_index@.0,
                0,
            )->Some_0;
            assert(self.source.metadata@.states[ix] == self.source.metadata.states@[ix].1@);
        }
        if !state.is_animated() {
            return Err(RenderError::NotAnimated);
        }
        if !self.render_fits(state) {
            return Err(RenderError::CanvasTooLarge);
        }
        let frames = self.render_frames(state, icon_index);
        let fc = state.frame_count();
        let order = Self::frame_order(fc as u32, state.rewind);
        let ghost st = state@;
        let ghost fseq = spec_frame_sequence(spec_frame_count(st.frames) as int, st.rewind);
        let mut out: Vec<(RgbaImage, u64)> = Vec::new();
        let mut rest = frames;
        let ghost all_frames = rest@;
        let total = order.len();
        let mut k: usize = 0;
        while rest.len() > 0
            invariant
                total == order@.len(),
                out@.len() == k,
                k + rest@.len() == all_frames.len(),
                rest@ == all_frames.skip(k as int),
                k <= order@.len(),
                all_frames.len() == order@.len(),
                order@.len() == fseq.len(),
                forall|m: int| 0 <= m < fseq.len() ==> (#[trigger] order@[m]) as int == fseq[m],
                st == state@,
                forall|m: int|
                    0 <= m < k ==> (#[trigger] out@[m]).0 == all_frames[m] && out@[m].1 == ({
                        let ms = spec_delay_millis(spec_frame_delay(st, fseq[m]));
                        if ms <= u64::MAX {
                            ms
                        } else {
                            u64::MAX as int
                        }
                    }),
            decreases rest@.len(),
        {
            let ghost rest_before = rest@;
            let im = rest.remove(0);
            proof {
                assert(rest@ =~= rest_before.drop_first());
                assert(rest_before.drop_first() =~= all_frames.skip(k + 1));
            }
            let frame_no = order[k];
            let d = match &state.frames {
                crate::state::Frames::Delays(l) => {
                    if (frame_no as usize) < l.len() {
                        l[frame_no as usize]
                    } else {
                        Decimal { mantissa: 1, scale: 0 }
                    }
                },
                _ => Decimal { mantissa: 1, scale: 0 },
            };
            proof {
                assert(d == spec_frame_delay(st, fseq[k as int]));
            }
            let ms = delay_millis(d);
            out.push((im, ms));
            k = k + 1;
        }
        proof {
            assert(out@.len() == all_frames.len());
            assert forall|m: int| 0 <= m < fseq.len() implies (#[trigger] out@[m]).0
                == all_frames[m] by {}
            assert(out@.map_values(|p: (RgbaImage, u64)| p.0) =~= all_frames);
        }
        Ok(out)
    }
}

} // verus!
