//! Decoder for the DMI sprite-sheet format: a grid-organized RGBA sheet with an
//! embedded textual description of named animation states, plus a compositor
//! and renderer that reassemble a chosen state into standalone frames.

pub mod dir;
pub mod dmi;
pub mod error;
pub mod key_value;
pub mod metadata;
pub mod render;
pub mod rgba;
pub mod state;
pub mod values;

use vstd::prelude::*;

use crate::error::FormatError;
use crate::metadata::{spec_metadata, Metadata};

verus! {

/// Parses a description text into metadata with assigned offsets.
pub fn parse(input: &str) -> (r: Result<Metadata, FormatError>)
    ensures
        match (r, spec_metadata(input@)) {
            (Ok(m), Some(mv)) => m@ == mv && m.wf(),
            (Err(_), None) => true,
            _ => false,
        },
{
    Metadata::load(input)
}

} // verus!
