//! Panel and pan-buffer geometry, shared by every other module.
use vstd::prelude::*;

verus! {

/// Visible panel width, in panel columns (the "wide" axis).
pub const SCREEN_WIDTH: usize = 1404;

/// Visible panel height, in panel rows (the "tall" axis).
pub const SCREEN_HEIGHT: usize = 1872;

/// Number of pan-buffer slots in the framebuffer ring. The vsync side rotates
/// through these; the generator fills them ahead.
pub const PAN_BUFFERS_COUNT: usize = 16;

/// Number of rows in one pan-buffer slot: 4 preamble rows and one row per
/// panel column.
pub const PAN_BUFFER_SIZE: usize = 1408;

/// Bytes per row of a pan-buffer slot: 260 cells of 4 bytes. The panel reads a
/// cell as a little-endian word with control bits in the high half and pixel
/// commands in the low half.
pub const PAN_LINE_SIZE: usize = 1040;

/// 4 bits per pixel (16 gray levels).
pub const PAN_BITS_PER_PIXEL: usize = 4;

} // verus!
