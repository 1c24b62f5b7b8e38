//! The configuration surface the carver consumes.

use vstd::prelude::*;

use crate::CarverMode;

verus! {

/// Everything a run of the carver needs: where to read the image, where to
/// write the result, the carving orientation, how many seams to remove, and
/// whether to emit per-pass diagnostic visualizations.
pub struct Args {
    /// Path to the input image.
    pub input: String,
    /// Path to the output image.
    pub output: String,
    /// Carver mode (vertical, horizontal).
    pub mode: CarverMode,
    /// Number of passes (seams to carve).
    pub passes: u8,
    /// Debug mode.
    pub debug: bool,
}

} // verus!
