//! Pan-buffer scaffolding and framebuffer geometry.
//!
//! The strip encoder writes only the low 16 bits of a cell; the high 16 bits are
//! static panel control flags that are set here once. The framebuffer is one
//! mapping of `pan_buffers + 1` slots; the extra slot is a spare that the panel
//! rotates to while idle.
use vstd::prelude::*;

#[allow(unused_imports)]
use crate::bytes::{law_word_bytes_add_up, word_byte};
use crate::constants::{PAN_BUFFERS_COUNT, PAN_BUFFER_SIZE, PAN_LINE_SIZE};

verus! {

/// Number of cells per row.
pub const CELLS_PER_LINE: usize = 260;

/// Number of preamble rows at the top of each slot, before the row of panel
/// column 0.
pub const PREAMBLE_ROWS: usize = 4;

/// Bytes per slot.
pub const SLOT_BYTES: usize = 1464320;

// ---------------------------------------------------------------------------
// What a pan buffer holds
// ---------------------------------------------------------------------------

/// Cell `i` of the very first row.
pub open spec fn first_line_cell(i: int) -> int {
    if 40 <= i < 103 {
        0x45_0000
    } else if 20 <= i < 143 {
        0x47_0000
    } else {
        0x43_0000
    }
}

/// Cell `i` of any other row: the control flags and, in a content row, the low
/// half of the pixel word.
pub open spec fn line_cell(value: Option<u32>, i: int) -> int {
    let flags = 0x41_0000 + (if 8 <= i < 19 {
        0x20_0000
    } else {
        0int
    }) + (if 55 <= i < 255 {
        0x2_0000
    } else {
        0int
    });
    match value {
        Some(v) => if 26 <= i < 260 {
            flags + 0x10_0000 + v as int % 0x1_0000
        } else {
            flags
        },
        None => flags,
    }
}

/// Cell `i` of row `row` of a pan buffer: the special first row, two secondary
/// preamble rows, then content rows.
pub open spec fn pan_cell(value: u32, row: int, i: int) -> int {
    if row == 0 {
        first_line_cell(i)
    } else if row < 3 {
        line_cell(None, i)
    } else {
        line_cell(Some(value), i)
    }
}

/// A whole pan buffer, byte by byte.
pub open spec fn pan_buffer(value: u32) -> Seq<u8> {
    Seq::new(
        SLOT_BYTES as nat,
        |b: int| word_byte(pan_cell(value, b / 1040, (b % 1040) / 4), b % 4),
    )
}

/// A content row with no pixel driven, byte by byte.
pub open spec fn zero_line() -> Seq<u8> {
    Seq::new(
        PAN_LINE_SIZE as nat,
        |b: int| word_byte(line_cell(Some(0), b / 4), b % 4),
    )
}

/// Every row from row 3 on is a copy of row 3.
pub proof fn law_content_rows_repeat(value: u32, row: int, b: int)
    requires
        3 <= row < PAN_BUFFER_SIZE,
        0 <= b < PAN_LINE_SIZE,
    ensures
        pan_buffer(value)[row * 1040 + b] == pan_buffer(value)[3 * 1040 + b],
{
    assert((row * 1040 + b) / 1040 == row);
    assert((row * 1040 + b) % 1040 == b);
}

proof fn lemma_line_bits(flags: u32, low: u32, content: u32)
    by (bit_vector)
    requires
        flags == 0x41_0000 || flags == 0x43_0000 || flags == 0x61_0000,
        content == 0 || content == 0x10_0000,
        low < 0x1_0000,
    ensures
        ((flags + content + low) as u32) & 0xffff == low,
        ((flags + content + low) as u32) & 0x2_0000 != 0 <==> flags == 0x43_0000,
        ((flags + content + low) as u32) & 0x20_0000 != 0 <==> flags == 0x61_0000,
        ((flags + content + low) as u32) & 0x10_0000 != 0 <==> content != 0,
        ((flags + content + low) as u32) & 0xffcd_0000 == 0x41_0000,
{
}

proof fn lemma_first_line_bits(cell: u32)
    by (bit_vector)
    requires
        cell == 0x43_0000 || cell == 0x45_0000 || cell == 0x47_0000,
    ensures
        cell & 0x4_0000 != 0 <==> cell != 0x43_0000,
        cell & 0x2_0000 != 0 <==> cell != 0x45_0000,
        cell & 0xfff9_ffff == 0x41_0000,
{
}

/// The cell at row `row`, cell `i` of a slot.
pub open spec fn cell_at(slot: Seq<u8>, row: int, i: int) -> int {
    let at = row * 1040 + i * 4;
    slot[at] + 0x100 * slot[at + 1] + 0x1_0000 * slot[at + 2] + 0x100_0000 * slot[at + 3]
}

/// What each bit of a pan buffer's cells says. Bits 16 and 22 are set everywhere. In
/// the first row, bit 18 is set from cell 20 to 142 and bit 17 except from 40 to 102.
/// In the other rows, bit 21 is set from cell 8 to 18 and bit 17 from 55 to 254; from
/// row 3 on, cells 26 and up have bit 20 and hold the pixel word. No other bit is set.
pub proof fn law_pan_buffer_bits(value: u32, row: int, i: int)
    requires
        0 <= row < 1408,
        0 <= i < 260,
    ensures
        pan_buffer(value).len() == 1464320,
        ({
            let cell = cell_at(pan_buffer(value), row, i) as u32;
            let content = row >= 3 && i >= 26;
            &&& cell_at(pan_buffer(value), row, i) == cell
            &&& cell & 0x41_0000 == 0x41_0000
            &&& cell & 0xff88_0000 == 0
            &&& cell & 0xffff == if content {
                value & 0xffff
            } else {
                0
            }
            &&& cell & 0x10_0000 != 0 <==> content
            &&& cell & 0x20_0000 != 0 <==> row > 0 && 8 <= i < 19
            &&& cell & 0x4_0000 != 0 <==> row == 0 && 20 <= i < 143
            &&& cell & 0x2_0000 != 0 <==> if row == 0 {
                !(40 <= i < 103)
            } else {
                55 <= i < 255
            }
        }),
{
    let at = row * 1040 + i * 4;
    assert(at / 1040 == row && (at % 1040) / 4 == i && at % 4 == 0);
    assert((at + 1) / 1040 == row && ((at + 1) % 1040) / 4 == i && (at + 1) % 4 == 1);
    assert((at + 2) / 1040 == row && ((at + 2) % 1040) / 4 == i && (at + 2) % 4 == 2);
    assert((at + 3) / 1040 == row && ((at + 3) % 1040) / 4 == i && (at + 3) % 4 == 3);
    let word = pan_cell(value, row, i);
    law_word_bytes_add_up(word);
    assert(cell_at(pan_buffer(value), row, i) == word);
    let cell = word as u32;
    if row == 0 {
        lemma_first_line_bits(cell);
        lemma_cell_masks(cell);
    } else {
        let flags = line_cell(None, i) as u32;
        let low: u32 = if row >= 3 && i >= 26 {
            value % 0x1_0000
        } else {
            0
        };
        let content: u32 = if row >= 3 && i >= 26 {
            0x10_0000
        } else {
            0
        };
        lemma_line_bits(flags, low, content);
        assert(cell == (flags + content + low) as u32);
        lemma_cell_masks(cell);
        assert(value & 0xffff == value % 0x1_0000) by (bit_vector);
    }
}

/// Where the bits that vary are left out, what stays tells the others.
proof fn lemma_cell_masks(cell: u32)
    by (bit_vector)
    ensures
        cell & 0xffcd_0000 == 0x41_0000 ==> cell & 0x41_0000 == 0x41_0000 && cell & 0xff88_0000 == 0
            && cell & 0x4_0000 == 0,
        cell & 0xfff9_ffff == 0x41_0000 ==> cell & 0x41_0000 == 0x41_0000 && cell & 0xff88_0000 == 0
            && cell & 0xffff == 0 && cell & 0x10_0000 == 0 && cell & 0x20_0000 == 0,
{
}

/// The zero line is any content row of a zero pan buffer.
pub proof fn law_zero_line_is_a_content_row(row: int, b: int)
    requires
        3 <= row < 1408,
        0 <= b < 1040,
    ensures
        zero_line().len() == 1040,
        zero_line()[b] == pan_buffer(0)[row * 1040 + b],
{
    assert((row * 1040 + b) / 1040 == row);
    assert((row * 1040 + b) % 1040 == b);
    assert((row * 1040 + b) % 4 == b % 4);
}

/// The pixel word changes only the low halves of cells: two pan buffers agree on
/// the control flags, whatever their values.
pub proof fn law_flags_do_not_depend_on_value(v: u32, w: u32, b: int)
    requires
        0 <= b < SLOT_BYTES,
        b % 4 >= 2,
    ensures
        pan_buffer(v)[b] == pan_buffer(w)[b],
{
}

// ---------------------------------------------------------------------------
// Filling rows
// ---------------------------------------------------------------------------

proof fn lemma_or_overlay()
    by (bit_vector)
    ensures
        0x43_0000u32 | 0x4_0000 == 0x47_0000,
        0x47_0000u32 & 0xfffd_ffff == 0x45_0000,
        0x43_0000u32 & 0xfffd_ffff == 0x41_0000,
        0x41_0000u32 | 0x20_0000 == 0x61_0000,
        0x41_0000u32 | 0x2_0000 == 0x43_0000,
        0x61_0000u32 | 0x2_0000 == 0x63_0000,
{
}

/// A cell's flag word, whose content bits are free, takes the content flag and
/// the low half of a pixel word by addition.
proof fn lemma_or_content(flags: u32, v: u32)
    by (bit_vector)
    requires
        flags == 0x41_0000 || flags == 0x43_0000 || flags == 0x61_0000,
    ensures
        (flags | 0x10_0000) | (v & 0xffff) == flags + 0x10_0000 + v % 0x1_0000,
{
}

/// ORs `value` into `line[start..start + length]`.
pub fn or_in_range(line: &mut [u32], value: u32, start: usize, length: usize)
    requires
        start + length <= old(line)@.len(),
    ensures
        final(line)@.len() == old(line)@.len(),
        forall|i: int|
            0 <= i < old(line)@.len() ==> #[trigger] final(line)@[i] == if start <= i < start
                + length {
                old(line)@[i] | value
            } else {
                old(line)@[i]
            },
{
    let ghost before = line@;
    assert(line.len() == line@.len());
    let end: usize = start + length;
    let mut k: usize = start;
    while k < end
        invariant
            start <= k <= end,
            end <= line@.len(),
            line@.len() == before.len(),
            forall|i: int|
                0 <= i < before.len() ==> #[trigger] line@[i] == if start <= i < k {
                    before[i] | value
                } else {
                    before[i]
                },
        decreases end - k,
    {
        line[k] = line[k] | value;
        k += 1;
    }
}

/// Sets the first `CELLS_PER_LINE` cells to `value`.
fn set_cells(line: &mut [u32], value: u32)
    requires
        old(line)@.len() >= CELLS_PER_LINE,
    ensures
        final(line)@.len() == old(line)@.len(),
        forall|i: int|
            0 <= i < old(line)@.len() ==> #[trigger] final(line)@[i] == if i < CELLS_PER_LINE {
                value
            } else {
                old(line)@[i]
            },
{
    let ghost before = line@;
    let mut k: usize = 0;
    while k < CELLS_PER_LINE
        invariant
            k <= CELLS_PER_LINE <= line@.len(),
            line@.len() == before.len(),
            forall|i: int|
                0 <= i < before.len() ==> #[trigger] line@[i] == if i < k {
                    value
                } else {
                    before[i]
                },
        decreases CELLS_PER_LINE - k,
    {
        line[k] = value;
        k += 1;
    }
}

/// Fills the very first row of a slot, the special preamble. Cells behind the
/// row stay as they are.
pub fn fill_first_line(line: &mut [u32])
    requires
        old(line)@.len() >= CELLS_PER_LINE,
    ensures
        final(line)@.len() == old(line)@.len(),
        forall|i: int|
            0 <= i < CELLS_PER_LINE ==> #[trigger] final(line)@[i] == first_line_cell(i),
        forall|i: int|
            CELLS_PER_LINE <= i < old(line)@.len() ==> #[trigger] final(line)@[i] == old(line)@[i],
{
    let ghost before = line@;
    set_cells(line, 0x43_0000);
    or_in_range(line, 0x4_0000, 20, 123);
    proof {
        lemma_or_overlay();
    }
    let mut k: usize = 40;
    while k < 103
        invariant
            40 <= k <= 103,
            line@.len() == before.len(),
            line@.len() >= CELLS_PER_LINE,
            forall|i: int|
                0 <= i < CELLS_PER_LINE ==> #[trigger] line@[i] == if 40 <= i < k {
                    0x45_0000
                } else if 20 <= i < 143 {
                    0x47_0000u32
                } else {
                    0x43_0000
                },
            forall|i: int|
                CELLS_PER_LINE <= i < before.len() ==> #[trigger] line@[i] == before[i],
        decreases 103 - k,
    {
        proof {
            lemma_or_overlay();
        }
        line[k] = line[k] & 0xfffd_ffff;
        k += 1;
    }
}

/// Fills any other row: `None` for the secondary preamble rows, and the pixel
/// word for content rows. Cells behind the row stay as they are.
pub fn fill_line(line: &mut [u32], value: Option<u32>)
    requires
        old(line)@.len() >= CELLS_PER_LINE,
    ensures
        final(line)@.len() == old(line)@.len(),
        forall|i: int|
            0 <= i < CELLS_PER_LINE ==> #[trigger] final(line)@[i] == line_cell(value, i),
        forall|i: int|
            CELLS_PER_LINE <= i < old(line)@.len() ==> #[trigger] final(line)@[i] == old(line)@[i],
{
    set_cells(line, 0x41_0000);
    or_in_range(line, 0x20_0000, 8, 11);
    or_in_range(line, 0x2_0000, 55, 200);
    proof {
        lemma_or_overlay();
    }
    let ghost flags = line@;
    assert(forall|i: int|
        0 <= i < CELLS_PER_LINE ==> #[trigger] flags[i] == line_cell(None, i));
    if let Some(v) = value {
        or_in_range(line, 0x10_0000, 26, 234);
        or_in_range(line, v & 0xffff, 26, 234);
        proof {
            assert forall|i: int| 0 <= i < CELLS_PER_LINE implies #[trigger] line@[i] == line_cell(
                value,
                i,
            ) by {
                assert(flags[i] == line_cell(None, i));
                if 26 <= i {
                    lemma_or_content(flags[i], v);
                }
            }
        }
    }
}

/// The four bytes of cell `i` of row `row`.
proof fn lemma_row_position(row: int, i: int, b: int)
    requires
        0 <= row,
        0 <= i < 260,
    ensures
        row * 1040 + 4 * i <= b < row * 1040 + 4 * i + 4 ==> (b % 1040) / 4 == i && b % 4 == b - (row
            * 1040 + 4 * i),
{
    let k = b - (row * 1040 + 4 * i);
    if 0 <= k < 4 {
        vstd::arithmetic::div_mod::lemma_fundamental_div_mod_converse(b, 1040, row, 4 * i + k);
        vstd::arithmetic::div_mod::lemma_fundamental_div_mod_converse(b, 4, 260 * row + i, k);
        vstd::arithmetic::div_mod::lemma_fundamental_div_mod_converse(4 * i + k, 4, i, k);
    }
}

/// Writes the cells of one row, little-endian, at row `row` of `buffer`.
fn write_row(buffer: &mut [u8], row: usize, line: &[u32])
    requires
        row < PAN_BUFFER_SIZE,
        old(buffer)@.len() >= SLOT_BYTES,
        line@.len() == CELLS_PER_LINE,
    ensures
        final(buffer)@.len() == old(buffer)@.len(),
        forall|b: int|
            0 <= b < old(buffer)@.len() ==> #[trigger] final(buffer)@[b] == if b / 1040 == row {
                word_byte(line@[(b % 1040) / 4] as int, b % 4)
            } else {
                old(buffer)@[b]
            },
{
    let ghost before = buffer@;
    let base: usize = row * 1040;
    let mut i: usize = 0;
    while i < CELLS_PER_LINE
        invariant
            base == row * 1040,
            row < PAN_BUFFER_SIZE,
            i <= CELLS_PER_LINE,
            line@.len() == CELLS_PER_LINE,
            buffer@.len() == before.len(),
            buffer@.len() >= SLOT_BYTES,
            forall|b: int|
                0 <= b < before.len() ==> #[trigger] buffer@[b] == if base <= b < base + 4 * i {
                    word_byte(line@[(b % 1040) / 4] as int, b % 4)
                } else {
                    before[b]
                },
        decreases CELLS_PER_LINE - i,
    {
        let w: u32 = line[i];
        let at: usize = base + 4 * i;
        let ghost prior = buffer@;
        buffer[at] = (w % 0x100) as u8;
        buffer[at + 1] = ((w / 0x100) % 0x100) as u8;
        buffer[at + 2] = ((w / 0x1_0000) % 0x100) as u8;
        buffer[at + 3] = ((w / 0x100_0000) % 0x100) as u8;
        assert forall|b: int| 0 <= b < before.len() implies #[trigger] buffer@[b] == if base <= b
            < base + 4 * (i + 1) {
            word_byte(line@[(b % 1040) / 4] as int, b % 4)
        } else {
            before[b]
        } by {
            lemma_row_position(row as int, i as int, b);
            if !(at <= b < at + 4) {
                assert(buffer@[b] == prior[b]);
            }
        }
        i += 1;
    }
}

/// Initializes one slot: preamble rows, then one content row per panel column,
/// each a copy of row 3. Bytes behind the slot stay as they are.
pub fn fill_pan_buffer(buffer: &mut [u8], value: u32)
    requires
        old(buffer)@.len() >= SLOT_BYTES,
    ensures
        final(buffer)@ == pan_buffer(value) + old(buffer)@.skip(SLOT_BYTES as int),
{
    let ghost before = buffer@;
    let mut line: [u32; 260] = [0u32;260];
    fill_first_line(&mut line);
    write_row(buffer, 0, &line);
    fill_line(&mut line, None);
    write_row(buffer, 1, &line);
    write_row(buffer, 2, &line);
    fill_line(&mut line, Some(value));
    let mut row: usize = 3;
    while row < PAN_BUFFER_SIZE
        invariant
            3 <= row <= PAN_BUFFER_SIZE,
            buffer@.len() == before.len(),
            buffer@.len() >= SLOT_BYTES,
            forall|i: int|
                0 <= i < CELLS_PER_LINE ==> #[trigger] line@[i] == line_cell(Some(value), i),
            forall|b: int|
                0 <= b < row * 1040 ==> #[trigger] buffer@[b] == pan_buffer(value)[b],
            forall|b: int| row * 1040 <= b < before.len() ==> #[trigger] buffer@[b] == before[b],
        decreases PAN_BUFFER_SIZE - row,
    {
        write_row(buffer, row, &line);
        row += 1;
    }
    assert(buffer@ =~= pan_buffer(value) + before.skip(SLOT_BYTES as int));
}

/// Produces a freshly initialized zero pan buffer.
pub fn allocate_zero_pan_buffer() -> (r: Vec<u8>)
    ensures
        r@ == pan_buffer(0),
{
    let mut buffer: Vec<u8> = vec![0u8;SLOT_BYTES];
    fill_pan_buffer(buffer.as_mut_slice(), 0);
    assert(buffer@ =~= pan_buffer(0));
    buffer
}

// ---------------------------------------------------------------------------
// Framebuffer geometry
// ---------------------------------------------------------------------------

/// The screen settings that make the framebuffer a column of slots.
#[derive(Debug, Clone, Copy, PartialEq, Eq, Structural)]
pub struct ScreenGeometry {
    pub xres: u32,
    pub yres: u32,
    pub xres_virtual: u32,
    pub yres_virtual: u32,
    pub xoffset: u32,
    pub yoffset: u32,
    pub bits_per_pixel: u32,
    pub pixclock: u32,
    pub left_margin: u32,
    pub right_margin: u32,
    pub upper_margin: u32,
    pub lower_margin: u32,
    pub hsync_len: u32,
    pub vsync_len: u32,
}

/// The settings for `pan_buffers` ring slots and the spare one: a slot's worth of
/// cells is shown, and the offset starts at the slot behind the ring.
pub fn screen_geometry(pan_buffers: u32) -> (g: ScreenGeometry)
    requires
        (pan_buffers + 1) * PAN_BUFFER_SIZE <= u32::MAX,
    ensures
        g == (ScreenGeometry {
            xres: 260,
            yres: 1408,
            xres_virtual: 260,
            yres_virtual: ((pan_buffers + 1) * 1408) as u32,
            xoffset: 0,
            yoffset: 22528,
            bits_per_pixel: 32,
            pixclock: 0x7080,
            left_margin: 1,
            right_margin: 1,
            upper_margin: 1,
            lower_margin: 143,
            hsync_len: 1,
            vsync_len: 1,
        }),
        g.yoffset == PAN_BUFFERS_COUNT * PAN_BUFFER_SIZE,
        g.xres * 4 == PAN_LINE_SIZE,
{
    ScreenGeometry {
        xres: (PAN_LINE_SIZE / 4) as u32,
        yres: PAN_BUFFER_SIZE as u32,
        xres_virtual: (PAN_LINE_SIZE / 4) as u32,
        yres_virtual: (pan_buffers + 1) * PAN_BUFFER_SIZE as u32,
        xoffset: 0,
        yoffset: PAN_BUFFERS_COUNT as u32 * PAN_BUFFER_SIZE as u32,
        bits_per_pixel: 32,
        pixclock: 0x7080,
        left_margin: 1,
        right_margin: 1,
        upper_margin: 1,
        lower_margin: 143,
        hsync_len: 1,
        vsync_len: 1,
    }
}

/// The mapping of `pan_buffers` ring slots and the spare one, in bytes.
pub open spec fn mapped_bytes(pan_buffers: int) -> int {
    (pan_buffers + 1) * SLOT_BYTES
}

/// Where slot `idx` starts in the mapping.
pub open spec fn slot_start(idx: int) -> int {
    idx * SLOT_BYTES
}

/// The length of the mapping.
pub fn map_len(pan_buffers: u32) -> (r: usize)
    requires
        pan_buffers < u32::MAX,
        mapped_bytes(pan_buffers as int) <= usize::MAX,
    ensures
        r == mapped_bytes(pan_buffers as int),
        r == (pan_buffers + 1) * 1464320,
{
    (pan_buffers + 1) as usize * SLOT_BYTES
}

/// The offset of slot `idx` within the mapping.
pub fn slot_offset(pan_buffers: u32, idx: u32) -> (r: usize)
    requires
        idx <= pan_buffers,
        mapped_bytes(pan_buffers as int) <= usize::MAX,
    ensures
        r == slot_start(idx as int),
        r == idx * 1464320,
        r + SLOT_BYTES <= mapped_bytes(pan_buffers as int),
{
    idx as usize * SLOT_BYTES
}

/// The vertical offset that shows slot `idx`.
pub fn pan_offset(idx: u32) -> (r: u32)
    requires
        idx * PAN_BUFFER_SIZE <= u32::MAX,
    ensures
        r == idx * PAN_BUFFER_SIZE,
        r == idx * 1408,
{
    idx * PAN_BUFFER_SIZE as u32
}

/// The slots lie inside the mapping and do not overlap.
pub proof fn law_slots_are_disjoint(pan_buffers: int, i: int, j: int)
    requires
        0 <= i < j <= pan_buffers,
    ensures
        0 <= slot_start(i),
        slot_start(i) + SLOT_BYTES <= slot_start(j),
        slot_start(j) + SLOT_BYTES <= mapped_bytes(pan_buffers),
{
}

/// How often unblanking is tried: the request can fail transiently under load.
pub const UNBLANK_ATTEMPTS: u32 = 5;

/// What follows an attempt to unblank.
#[derive(Debug, Clone, Copy, PartialEq, Eq, Structural)]
pub enum UnblankStep {
    /// The panel is unblanked.
    Done,
    /// Try again.
    Retry,
    /// Report the last error.
    GiveUp,
}

/// What follows attempt number `attempt` (the first is 1).
pub fn unblank_step(attempt: u32, succeeded: bool) -> (r: UnblankStep)
    ensures
        r == if succeeded {
            UnblankStep::Done
        } else if attempt < 5 {
            UnblankStep::Retry
        } else {
            UnblankStep::GiveUp
        },
{
    if succeeded {
        UnblankStep::Done
    } else if attempt < UNBLANK_ATTEMPTS {
        UnblankStep::Retry
    } else {
        UnblankStep::GiveUp
    }
}

} // verus!
