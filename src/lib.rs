//! Turning a grayscale raster into text or Braille art: the sample buffer,
//! the block segmentation of a source image, the error-diffusion stencils,
//! the on/off and interpolating ditherers (generic over the sample type) and
//! the text and Braille rendering, each with a checked contract.

pub mod matrix;
pub mod segment;
pub mod keyword;
pub mod kernel;
pub mod options;
pub mod render;
pub mod dither;

pub use matrix::{Matrix, OutOfRange};
pub use segment::{block_totals, block_total, SegmentInfo};
pub use kernel::{diffusion_target, get_kernels, grid_offsets, Kernel, KernelKind, Weight};
pub use keyword::same_text;
pub use render::{
    default_glyphs, glyph_list, glyphs_from_trimmed, render_braille, render_text, DEFAULT_CHARS_LEN,
};
pub use dither::{check_points, InterpolatingKernelDitherer, OnOffKernelDitherer, PointsError};
pub use options::{
    advisories, braille_dims, check_combination, Advisory, DithType, OptionConflict, ProgType, SegType,
};
