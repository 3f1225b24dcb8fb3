//! Error values. Every failure of this library is a returned value; no
//! verified function panics.

use vstd::prelude::*;

verus! {

/// A malformed description: the grammar was violated or a field rule broken.
/// Always fatal to the parse; nothing is recovered.
#[derive(Debug, Clone, Copy, PartialEq, Eq, Structural)]
pub enum FormatError {
    /// The text does not match the grammar at the given character position.
    BadSyntax { at: usize },
    /// A `version` other than the single supported one.
    UnsupportedVersion,
    /// A state block without the required `dirs` field.
    MissingDirs,
    /// A header without the required `width` field.
    MissingWidth,
    /// A header without the required `height` field.
    MissingHeight,
    /// A second `frames` field in one state block.
    DuplicateFrames,
    /// A second `delay` field in one state block.
    DuplicateDelay,
    /// A `delay` field in a state block that never declares `frames`.
    DelayWithoutFrames,
    /// A `hotspot` list whose length is not exactly three.
    BadHotspot,
    /// A recognized key in a context it does not belong to.
    MisplacedKey,
    /// A `dirs` count other than one, four or eight.
    InvalidDirs,
    /// The catalog's cells outgrow the sheet index range the machine holds.
    TooManyCells,
    /// A sheet whose pixel size is not a whole grid of the declared cells.
    BadSheetGrid,
}

/// A compositing request whose crop rectangle leaves the source image.
#[derive(Debug, Clone, Copy, PartialEq, Eq, Structural)]
pub struct BoundsError;

/// A failed render request.
#[derive(Debug, Clone, Copy, PartialEq, Eq, Structural)]
pub enum RenderError {
    /// No state with the requested name and occurrence exists.
    NotFound,
    /// An animation render of a state that is not animated.
    NotAnimated,
    /// The canvas would outgrow what the machine can address.
    CanvasTooLarge,
}

} // verus!
