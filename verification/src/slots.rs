//! What the generator writes into a slot, and how the vsync side takes it out.
//!
//! Row `4 + col` of a slot drives panel column `col`; from cell 26 on, a cell's
//! low half drives 8 panel rows. The change-tracking buffer holds the gray level
//! that each panel pixel shows, in both nibbles of a byte, column by column
//! starting from the last. A slot's dirty row marks the columns that were encoded
//! into it.
use vstd::prelude::*;

#[allow(unused_imports)]
use crate::bytes::{le16, word_byte};
use crate::constants::{PAN_LINE_SIZE, SCREEN_HEIGHT, SCREEN_WIDTH};
#[allow(unused_imports)]
use crate::fb::{line_cell, pan_buffer, pan_cell, zero_line, SLOT_BYTES};
use crate::strip_encoder::{build_phase_cmd_lut, encode_strip};
#[allow(unused_imports)]
use crate::strip_encoder::{
    is_cmd_lut, lane_cmd, law_lane_to_bits, law_no_commands_no_drive, pair_index, strip_cmd,
    strip_word,
};
use crate::update::UpdateMsg;
#[allow(unused_imports)]
use crate::waveform::{phase_cmd, phase_rows};

verus! {

/// Number of pixels, and of bytes in the change-tracking buffer.
pub const PIXELS: usize = 2628288;

// ---------------------------------------------------------------------------
// What the operations do
// ---------------------------------------------------------------------------

/// Where the change-tracking buffer keeps a panel pixel.
pub open spec fn change_index(col: int, row: int) -> int {
    (1403 - col) * 1872 + row
}

/// The panel column that a byte of a slot belongs to; negative in the preamble.
pub open spec fn slot_col(b: int) -> int {
    b / 1040 - 4
}

/// The group of 8 panel rows that a byte of a slot belongs to; negative in front
/// of the first.
pub open spec fn slot_group(b: int) -> int {
    (b % 1040) / 4 - 26
}

/// The commands of one phase, by pixel pair.
pub open spec fn phase_lut(msg: UpdateMsg, phase: int) -> Seq<u8> {
    Seq::new(
        256,
        |i: int| lane_cmd(msg.waveform.data@[(phase / 8) * 256 + i], (phase % 8) as u32) as u8,
    )
}

/// What the panel shows on the 8 rows of a group.
pub open spec fn group_src(change: Seq<u8>, col: int, group: int) -> Seq<u8> {
    Seq::new(8, |k: int| change[change_index(col, group * 8 + k)])
}

/// What the message wants on the 8 rows of a group.
pub open spec fn group_tgt(msg: UpdateMsg, col: int, group: int) -> Seq<u8> {
    Seq::new(8, |k: int| msg.pixel(col, group * 8 + k))
}

/// The low half of the cell that drives a group.
pub open spec fn group_word(
    change: Seq<u8>,
    msg: UpdateMsg,
    phase: int,
    col: int,
    group: int,
) -> u16 {
    strip_word(group_src(change, col, group), group_tgt(msg, col, group), phase_lut(msg, phase))
}

/// Byte `b` of a slot is in the low half of a cell that drives part of the
/// message's rectangle.
pub open spec fn is_driven(msg: UpdateMsg, b: int) -> bool {
    &&& b % 4 < 2
    &&& msg.rect.has_col(slot_col(b))
    &&& msg.rect.has_row(slot_group(b) * 8)
}

/// The slot with one phase of the message encoded into it.
pub open spec fn encoded(slot: Seq<u8>, change: Seq<u8>, msg: UpdateMsg, phase: int) -> Seq<u8> {
    Seq::new(
        slot.len(),
        |b: int|
            if is_driven(msg, b) {
                word_byte(
                    group_word(change, msg, phase, slot_col(b), slot_group(b)) as int,
                    b % 4,
                )
            } else {
                slot[b]
            },
    )
}

/// The dirty row with the message's columns marked.
pub open spec fn marked(dirty: Seq<u8>, msg: UpdateMsg) -> Seq<u8> {
    Seq::new(
        dirty.len(),
        |c: int|
            if msg.rect.has_col(c) {
                1
            } else {
                dirty[c]
            },
    )
}

/// The change-tracking buffer with the message's pixels committed, each in both
/// nibbles.
pub open spec fn committed(change: Seq<u8>, msg: UpdateMsg) -> Seq<u8> {
    Seq::new(
        change.len(),
        |i: int|
            if msg.rect.has_col(1403 - i / 1872) && msg.rect.has_row(i % 1872) {
                (17 * (msg.pixel(1403 - i / 1872, i % 1872) % 16)) as u8
            } else {
                change[i]
            },
    )
}

/// The slot with the row of every marked column replaced by `line`.
pub open spec fn cleared(slot: Seq<u8>, dirty: Seq<u8>, line: Seq<u8>) -> Seq<u8> {
    Seq::new(
        slot.len(),
        |b: int|
            if 0 <= slot_col(b) < SCREEN_WIDTH && dirty[slot_col(b)] != 0 {
                line[b % 1040]
            } else {
                slot[b]
            },
    )
}

/// Nothing is marked.
pub open spec fn all_clean(dirty: Seq<u8>) -> bool {
    dirty.len() == SCREEN_WIDTH && forall|c: int|
        0 <= c < SCREEN_WIDTH ==> #[trigger] dirty[c] == 0
}

/// Apart from the rows of marked columns, the slot is a zero pan buffer.
pub open spec fn clean_but_for(slot: Seq<u8>, dirty: Seq<u8>) -> bool {
    &&& slot.len() == SLOT_BYTES
    &&& dirty.len() == SCREEN_WIDTH
    &&& forall|b: int|
        0 <= b < SLOT_BYTES && !(0 <= slot_col(b) < SCREEN_WIDTH && dirty[slot_col(b)] != 0)
            ==> #[trigger] slot[b] == pan_buffer(0)[b]
}

// ---------------------------------------------------------------------------
// Laws
// ---------------------------------------------------------------------------

/// The low half of the cell that drives the group of rows of a panel pixel.
pub open spec fn driving_word(slot: Seq<u8>, col: int, row: int) -> int {
    le16(slot, (4 + col) * 1040 + (26 + row / 8) * 4)
}

/// Encoding drives every pixel of the message's rectangle with the command that the
/// phase table holds for what the panel shows and what the message wants there.
pub proof fn law_every_pixel_is_driven(
    slot: Seq<u8>,
    change: Seq<u8>,
    msg: UpdateMsg,
    phase: int,
    col: int,
    row: int,
)
    requires
        slot.len() >= SLOT_BYTES,
        msg.valid(),
        0 <= phase < msg.phases(),
        msg.rect.has_col(col),
        msg.rect.has_row(row),
    ensures
        ({
            let word = driving_word(encoded(slot, change, msg, phase), col, row);
            &&& 0 <= word < 0x1_0000
            &&& lane_cmd(word as u16, (7 - row % 8) as u32) == phase_cmd(
                msg.waveform.data@,
                phase,
                (change[change_index(col, row)] % 16) as int,
                (msg.pixel(col, row) % 16) as int,
            )
        }),
{
    let group = row / 8;
    let lane = row % 8;
    let src = group_src(change, col, group);
    let tgt = group_tgt(msg, col, group);
    let lut = phase_lut(msg, phase);
    assert(group * 8 + lane == row);
    lemma_driven_word(slot, change, msg, phase, col, group);
    lemma_phase_lut(msg, phase);
    law_lane_to_bits(src, tgt, lut, lane);
    assert(strip_cmd(src, tgt, lut, lane) == lut[pair_index(
        change[change_index(col, row)],
        msg.pixel(col, row),
    )]);
}

/// The word that drives a group of the rectangle is its strip's word.
proof fn lemma_driven_word(
    slot: Seq<u8>,
    change: Seq<u8>,
    msg: UpdateMsg,
    phase: int,
    col: int,
    group: int,
)
    requires
        slot.len() >= SLOT_BYTES,
        0 <= col < SCREEN_WIDTH,
        0 <= group < 234,
        msg.rect.has_col(col),
        msg.rect.has_row(group * 8),
    ensures
        le16(encoded(slot, change, msg, phase), (4 + col) * 1040 + (26 + group) * 4) == group_word(
            change,
            msg,
            phase,
            col,
            group,
        ),
{
    let at = (4 + col) * 1040 + (26 + group) * 4;
    let word = group_word(change, msg, phase, col, group);
    lemma_cell_bytes(at, col, group);
    lemma_cell_bytes(at + 1, col, group);
    assert(is_driven(msg, at) && is_driven(msg, at + 1));
    assert(encoded(slot, change, msg, phase)[at] == word_byte(word as int, 0));
    assert(encoded(slot, change, msg, phase)[at + 1] == word_byte(word as int, 1));
}

/// The table of a phase holds 2-bit commands, by pixel pair.
proof fn lemma_phase_lut(msg: UpdateMsg, phase: int)
    requires
        0 <= phase,
    ensures
        is_cmd_lut(phase_lut(msg, phase)),
        forall|i: int|
            0 <= i < 256 ==> #[trigger] phase_lut(msg, phase)[i] == lane_cmd(
                msg.waveform.data@[(phase / 8) * 256 + i],
                (phase % 8) as u32,
            ),
{
    assert forall|i: int| 0 <= i < 256 implies {
        &&& #[trigger] phase_lut(msg, phase)[i] < 4
        &&& phase_lut(msg, phase)[i] == lane_cmd(
            msg.waveform.data@[(phase / 8) * 256 + i],
            (phase % 8) as u32,
        )
    } by {
        lemma_lane_cmd_small(msg.waveform.data@[(phase / 8) * 256 + i], (phase % 8) as u32);
    }
}

proof fn lemma_lane_cmd_small(entry: u16, lane: u32)
    by (bit_vector)
    requires
        lane < 8,
    ensures
        lane_cmd(entry, lane) < 4,
{
}

/// Encoding drives the pixels of the message's rectangle, and nothing else. A pixel
/// at panel position (`col`, `row`) has its two bits in the word at row `4 + col`,
/// cell `26 + row / 8` of the slot, the first row of a cell in the highest bits.
/// Inside the rectangle they are the bits that the table holds for this phase, the
/// tracked gray level and the wanted one. Outside it, the whole word stays. The upper
/// half of the cell stays everywhere.
pub proof fn law_encoding_drives_the_rectangle_only(
    slot: Seq<u8>,
    change: Seq<u8>,
    msg: UpdateMsg,
    phase: int,
    col: int,
    row: int,
)
    requires
        slot.len() >= 1464320,
        msg.valid(),
        0 <= phase < msg.phases(),
        0 <= col < 1404,
        0 <= row < 1872,
    ensures
        ({
            let after = encoded(slot, change, msg, phase);
            let at = (4 + col) * 1040 + (26 + row / 8) * 4;
            let src = (change[(1403 - col) * 1872 + row] % 16) as int;
            let tgt = (msg.buffer@[(col - msg.rect.col_min) * msg.width + (row
                - msg.rect.row_min)] % 16) as int;
            let entry = msg.waveform.data@[(phase / 8) * 256 + src * 16 + tgt];
            &&& after.len() == slot.len()
            &&& after[at + 2] == slot[at + 2]
            &&& after[at + 3] == slot[at + 3]
            &&& if msg.rect.col_min <= col <= msg.rect.col_max && msg.rect.row_min <= row
                <= msg.rect.row_max {
                (((after[at] + 256 * after[at + 1]) as u16) >> ((7 - row % 8) * 2)) & 3 == (entry
                    >> ((phase % 8) * 2)) & 3
            } else {
                after[at] == slot[at] && after[at + 1] == slot[at + 1]
            }
        }),
{
    let at = (4 + col) * 1040 + (26 + row / 8) * 4;
    lemma_cell_bytes(at, col, row / 8);
    lemma_cell_bytes(at + 1, col, row / 8);
    assert((at + 2) % 4 == 2 && (at + 3) % 4 == 3);
    if msg.rect.col_min <= col <= msg.rect.col_max && msg.rect.row_min <= row <= msg.rect.row_max {
        law_every_pixel_is_driven(slot, change, msg, phase, col, row);
    } else if msg.rect.col_min <= col <= msg.rect.col_max {
        assert(msg.rect_fits());
        assert(!msg.rect.has_row((row / 8) * 8));
    }
}

/// Encoding leaves alone what drives no pixel: the preamble rows, the cells in front
/// of the first group of rows, and whatever is behind the slot.
pub proof fn law_encoding_leaves_the_rest(
    slot: Seq<u8>,
    change: Seq<u8>,
    msg: UpdateMsg,
    phase: int,
    b: int,
)
    requires
        msg.valid(),
        0 <= phase < msg.phases(),
        0 <= b < slot.len(),
        b < 4 * 1040 || b >= 1464320 || b % 1040 < 26 * 4,
    ensures
        encoded(slot, change, msg, phase)[b] == slot[b],
{
}

/// Encoding marks the columns of the message, and no others.
pub proof fn law_encoding_marks_its_columns(dirty: Seq<u8>, msg: UpdateMsg, c: int)
    requires
        0 <= c < dirty.len(),
    ensures
        marked(dirty, msg).len() == dirty.len(),
        marked(dirty, msg)[c] == if msg.rect.col_min <= c <= msg.rect.col_max {
            1
        } else {
            dirty[c]
        },
{
}

/// Clearing replaces the slot's row `4 + col` for every marked column, and nothing
/// else.
pub proof fn law_clearing_touches_marked_rows_only(
    slot: Seq<u8>,
    dirty: Seq<u8>,
    line: Seq<u8>,
    row: int,
    k: int,
)
    requires
        0 <= row,
        0 <= k < 1040,
        row * 1040 + k < slot.len(),
    ensures
        cleared(slot, dirty, line).len() == slot.len(),
        cleared(slot, dirty, line)[row * 1040 + k] == if 4 <= row < 1408 && dirty[row - 4] != 0 {
            line[k]
        } else {
            slot[row * 1040 + k]
        },
{
    assert((row * 1040 + k) / 1040 == row);
    assert((row * 1040 + k) % 1040 == k);
}

/// A commit records the low nibble of every pixel of the message's rectangle, in both
/// nibbles of the byte that tracks it, and keeps every other byte. The columns are
/// tracked from the last to the first, 1872 bytes each.
pub proof fn law_commit_records_the_rectangle_only(
    change: Seq<u8>,
    msg: UpdateMsg,
    col: int,
    row: int,
)
    requires
        change.len() == 2628288,
        0 <= col < 1404,
        0 <= row < 1872,
    ensures
        ({
            let after = committed(change, msg);
            let at = (1403 - col) * 1872 + row;
            let gray = msg.buffer@[(col - msg.rect.col_min) * msg.width + (row
                - msg.rect.row_min)] % 16;
            &&& after.len() == 2628288
            &&& after[at] == if msg.rect.col_min <= col <= msg.rect.col_max && msg.rect.row_min
                <= row <= msg.rect.row_max {
                (gray + 16 * gray) as int
            } else {
                change[at] as int
            }
        }),
{
    lemma_change_index(col, row);
}

/// Encoding touches only low halves of cells: the control flags in the high halves
/// stay.
pub proof fn law_encoding_keeps_flags(
    slot: Seq<u8>,
    change: Seq<u8>,
    msg: UpdateMsg,
    phase: int,
    b: int,
)
    requires
        0 <= b < slot.len(),
        b % 4 >= 2,
    ensures
        encoded(slot, change, msg, phase)[b] == slot[b],
{
}

/// Encoding touches only the rows of the message's columns, which it marks: a slot
/// that was a zero pan buffer but for its marked columns stays one.
pub proof fn law_encoding_marks_what_it_touches(
    slot: Seq<u8>,
    dirty: Seq<u8>,
    change: Seq<u8>,
    msg: UpdateMsg,
    phase: int,
)
    requires
        clean_but_for(slot, dirty),
        msg.valid(),
    ensures
        clean_but_for(encoded(slot, change, msg, phase), marked(dirty, msg)),
{
    let after = encoded(slot, change, msg, phase);
    let now = marked(dirty, msg);
    assert forall|b: int|
        0 <= b < SLOT_BYTES && !(0 <= slot_col(b) < SCREEN_WIDTH && now[slot_col(b)]
            != 0) implies #[trigger] after[b] == pan_buffer(0)[b] by {
        let c = slot_col(b);
        if 0 <= c < SCREEN_WIDTH {
            assert(now[c] == 0);
            assert(!msg.rect.has_col(c));
        }
        assert(slot[b] == pan_buffer(0)[b]);
    }
}

/// Clearing undoes encoding: a slot that is a zero pan buffer but for its marked
/// columns becomes a zero pan buffer.
pub proof fn law_clearing_restores(slot: Seq<u8>, dirty: Seq<u8>)
    requires
        clean_but_for(slot, dirty),
    ensures
        cleared(slot, dirty, zero_line()) == pan_buffer(0),
{
    let after = cleared(slot, dirty, zero_line());
    assert forall|b: int| 0 <= b < SLOT_BYTES implies #[trigger] after[b] == pan_buffer(0)[b] by {
        if 0 <= slot_col(b) < SCREEN_WIDTH && dirty[slot_col(b)] != 0 {
            assert((b % 1040) % 4 == b % 4);
        } else {
            assert(slot[b] == pan_buffer(0)[b]);
        }
    }
    assert(after =~= pan_buffer(0));
}

/// A fresh zero pan buffer, encoded into and cleared, is a zero pan buffer again.
pub proof fn law_encode_then_clear(dirty: Seq<u8>, change: Seq<u8>, msg: UpdateMsg, phase: int)
    requires
        all_clean(dirty),
        msg.valid(),
    ensures
        cleared(encoded(pan_buffer(0), change, msg, phase), marked(dirty, msg), zero_line())
            == pan_buffer(0),
{
    assert(clean_but_for(pan_buffer(0), dirty));
    law_encoding_marks_what_it_touches(pan_buffer(0), dirty, change, msg, phase);
    law_clearing_restores(encoded(pan_buffer(0), change, msg, phase), marked(dirty, msg));
}

proof fn lemma_change_index(col: int, row: int)
    requires
        0 <= col < SCREEN_WIDTH,
        0 <= row < SCREEN_HEIGHT,
    ensures
        0 <= change_index(col, row) < PIXELS,
        1403 - change_index(col, row) / 1872 == col,
        change_index(col, row) % 1872 == row,
{
}

/// After a commit the encoder sees the message's pixels as source: the low nibble
/// of the tracked byte is the pixel's gray level, and so is the high nibble.
/// Pixels outside the rectangle keep what they were.
pub proof fn law_commit_makes_target_the_source(
    change: Seq<u8>,
    msg: UpdateMsg,
    col: int,
    row: int,
)
    requires
        change.len() == PIXELS,
        0 <= col < SCREEN_WIDTH,
        0 <= row < SCREEN_HEIGHT,
    ensures
        msg.rect.has_col(col) && msg.rect.has_row(row) ==> {
            &&& committed(change, msg)[change_index(col, row)] % 16 == msg.pixel(col, row) % 16
            &&& committed(change, msg)[change_index(col, row)] / 16 == msg.pixel(col, row) % 16
        },
        !(msg.rect.has_col(col) && msg.rect.has_row(row)) ==> committed(change, msg)[change_index(
            col,
            row,
        )] == change[change_index(col, row)],
{
    lemma_change_index(col, row);
}

/// Committing a message twice is committing it once.
pub proof fn law_commit_is_idempotent(change: Seq<u8>, msg: UpdateMsg)
    ensures
        committed(committed(change, msg), msg) == committed(change, msg),
{
    assert(committed(committed(change, msg), msg) =~= committed(change, msg));
}

/// With a table whose diagonal is zero, an update that repeats what was committed
/// drives nothing: every word of its rectangle is 0.
pub proof fn law_unchanged_pixels_are_not_driven(
    change: Seq<u8>,
    msg: UpdateMsg,
    phase: int,
    col: int,
    group: int,
)
    requires
        change.len() == PIXELS,
        msg.valid(),
        0 <= phase < msg.phases(),
        forall|g: int| 0 <= g < 16 ==> #[trigger] phase_cmd(msg.waveform.data@, phase, g, g) == 0,
        msg.rect.has_col(col),
        msg.rect.has_row(group * 8),
    ensures
        group_word(committed(change, msg), msg, phase, col, group) == 0,
{
    let src = group_src(committed(change, msg), col, group);
    let tgt = group_tgt(msg, col, group);
    let lut = phase_lut(msg, phase);
    assert forall|k: int| 0 <= k < 8 implies #[trigger] strip_cmd(src, tgt, lut, k) == 0 by {
        law_commit_makes_target_the_source(change, msg, col, group * 8 + k);
        assert(src[k] % 16 == tgt[k] % 16);
        let g = (tgt[k] % 16) as int;
        assert(phase_cmd(msg.waveform.data@, phase, g, g) == 0);
    }
    law_no_commands_no_drive(src, tgt, lut);
}

// ---------------------------------------------------------------------------
// Operations
// ---------------------------------------------------------------------------

/// A change-tracking buffer for a white panel: gray level 15 in both nibbles of
/// every byte.
pub fn new_change_tracking() -> (r: Vec<u8>)
    ensures
        r@ == Seq::new(PIXELS as nat, |i: int| 0xffu8),
        r@ == Seq::new(2628288, |i: int| 0xffu8),
{
    let r: Vec<u8> = vec![0xffu8;PIXELS];
    assert(r@ =~= Seq::new(PIXELS as nat, |i: int| 0xffu8));
    r
}

/// A dirty row with nothing marked.
pub fn new_dirty_row() -> (r: Vec<u8>)
    ensures
        all_clean(r@),
        r@ == Seq::new(1404, |c: int| 0u8),
{
    let r: Vec<u8> = vec![0u8;SCREEN_WIDTH];
    assert(r@ =~= Seq::new(1404, |c: int| 0u8));
    r
}

/// The content row that [`clear_dirty_buffer`] writes. It keeps the control flags
/// of the cells; a row of zeros would strip them.
pub fn zero_content_line() -> (r: Vec<u8>)
    ensures
        r@ == zero_line(),
{
    let buffer: Vec<u8> = crate::fb::allocate_zero_pan_buffer();
    let mut r: Vec<u8> = Vec::with_capacity(PAN_LINE_SIZE);
    let mut b: usize = 0;
    while b < PAN_LINE_SIZE
        invariant
            b <= PAN_LINE_SIZE,
            buffer@ == pan_buffer(0),
            r@.len() == b,
            forall|k: int| 0 <= k < b ==> #[trigger] r@[k] == zero_line()[k],
        decreases PAN_LINE_SIZE - b,
    {
        r.push(buffer[3 * PAN_LINE_SIZE + b]);
        b += 1;
    }
    assert(r@ =~= zero_line());
    r
}

/// The command table of one phase of a message.
fn phase_cmd_lut(msg: &UpdateMsg, phase_idx: u32) -> (lut: [u8; 256])
    requires
        phase_rows(phase_idx + 1) * 256 <= msg.waveform.data@.len(),
    ensures
        lut@ == phase_lut(*msg, phase_idx as int),
{
    assert(msg.waveform.data.len() == msg.waveform.data@.len());
    let row: &[u16] = msg.waveform.phase_byte_slice((phase_idx / 8) as usize);
    let mut entries: [u16; 256] = [0u16;256];
    let mut i: usize = 0;
    while i < 256
        invariant
            i <= 256,
            row@.len() == 256,
            forall|k: int| 0 <= k < i ==> #[trigger] entries@[k] == row@[k],
        decreases 256 - i,
    {
        entries[i] = row[i];
        i += 1;
    }
    let lut: [u8; 256] = build_phase_cmd_lut(&entries, phase_idx % 8);
    assert(lut@ =~= phase_lut(*msg, phase_idx as int)) by {
        assert forall|k: int| 0 <= k < 256 implies #[trigger] lut@[k] == phase_lut(
            *msg,
            phase_idx as int,
        )[k] by {
            assert(entries@[k] == row@[k]);
        }
    }
    lut
}

/// Byte `b` is driven by a group in front of group `group` of column `col`.
spec fn is_written(msg: UpdateMsg, b: int, col: int, group: int) -> bool {
    is_driven(msg, b) && (slot_col(b) < col || (slot_col(b) == col && slot_group(b) < group))
}

/// The slot with the groups in front of group `group` of column `col` encoded.
spec fn partly_encoded(
    slot: Seq<u8>,
    before: Seq<u8>,
    change: Seq<u8>,
    msg: UpdateMsg,
    phase: int,
    col: int,
    group: int,
) -> bool {
    &&& slot.len() == before.len()
    &&& forall|b: int|
        0 <= b < before.len() ==> #[trigger] slot[b] == if is_written(msg, b, col, group) {
            encoded(before, change, msg, phase)[b]
        } else {
            before[b]
        }
}

proof fn lemma_buffer_row(msg: UpdateMsg, col: int)
    requires
        msg.rect_fits(),
        msg.rect.has_col(col),
    ensures
        0 <= (col - msg.rect.col_min) * msg.width,
        (col - msg.rect.col_min) * msg.width + msg.width <= msg.buffer@.len(),
        (col + 1 - msg.rect.col_min) * msg.width == (col - msg.rect.col_min) * msg.width
            + msg.width,
{
    let k = col - msg.rect.col_min;
    let n = msg.rect.col_max - msg.rect.col_min + 1;
    let w = msg.width as int;
    assert(0 <= k * w && (k + 1) * w == k * w + w && (k + 1) * w <= n * w) by (nonlinear_arith)
        requires
            0 <= k < n,
            w >= 0,
    ;
}

/// The low half of a group's cell is two bytes of the slot.
proof fn lemma_cell_bytes(b: int, col: int, group: int)
    requires
        0 <= b,
        0 <= col,
        0 <= group < 234,
    ensures
        slot_col(b) == col && slot_group(b) == group && b % 4 < 2 <==> (b == (4 + col) * 1040 + (26
            + group) * 4 || b == (4 + col) * 1040 + (26 + group) * 4 + 1),
        b == (4 + col) * 1040 + (26 + group) * 4 ==> b % 4 == 0,
        b == (4 + col) * 1040 + (26 + group) * 4 + 1 ==> b % 4 == 1,
{
}

/// Writing a group's word into its cell extends what is encoded by that group.
proof fn lemma_group_encoded(
    prior: Seq<u8>,
    slot: Seq<u8>,
    before: Seq<u8>,
    change: Seq<u8>,
    msg: UpdateMsg,
    phase: int,
    col: int,
    group: int,
)
    requires
        before.len() >= SLOT_BYTES,
        0 <= col < SCREEN_WIDTH,
        0 <= group < 234,
        msg.rect.has_col(col),
        msg.rect.has_row(group * 8),
        partly_encoded(prior, before, change, msg, phase, col, group),
        slot == prior.update(
            (4 + col) * 1040 + (26 + group) * 4,
            word_byte(group_word(change, msg, phase, col, group) as int, 0),
        ).update(
            (4 + col) * 1040 + (26 + group) * 4 + 1,
            word_byte(group_word(change, msg, phase, col, group) as int, 1),
        ),
    ensures
        partly_encoded(slot, before, change, msg, phase, col, group + 1),
{
    let at = (4 + col) * 1040 + (26 + group) * 4;
    let after = encoded(before, change, msg, phase);
    assert forall|b: int| 0 <= b < before.len() implies #[trigger] slot[b] == if is_written(
        msg,
        b,
        col,
        group + 1,
    ) {
        after[b]
    } else {
        before[b]
    } by {
        lemma_cell_bytes(b, col, group);
        if b == at || b == at + 1 {
            assert(is_driven(msg, b));
            assert(is_written(msg, b, col, group + 1));
            assert(after[b] == word_byte(
                group_word(change, msg, phase, col, group) as int,
                b - at,
            ));
        } else {
            assert(slot[b] == prior[b]);
            assert(is_written(msg, b, col, group + 1) == is_written(msg, b, col, group));
        }
    }
}

/// Encodes the groups of one column.
fn encode_column(
    change: &[u8],
    slot: &mut [u8],
    msg: &UpdateMsg,
    lut: &[u8; 256],
    col: usize,
    Ghost(before): Ghost<Seq<u8>>,
    Ghost(phase): Ghost<int>,
)
    requires
        change@.len() == PIXELS,
        before.len() >= SLOT_BYTES,
        msg.rect_fits(),
        msg.rect.has_col(col as int),
        lut@ == phase_lut(*msg, phase),
        partly_encoded(old(slot)@, before, change@, *msg, phase, col as int, 0),
    ensures
        partly_encoded(final(slot)@, before, change@, *msg, phase, col + 1, 0),
{
    let width: usize = msg.width as usize;
    let first: usize = msg.rect.row_min as usize / 8;
    let end: usize = (msg.rect.row_max as usize + 1) / 8;
    proof {
        lemma_buffer_row(*msg, col as int);
        assert(msg.buffer.len() == msg.buffer@.len());
    }
    let pixels: usize = (col - msg.rect.col_min as usize) * width;
    let shown: usize = (SCREEN_WIDTH - 1 - col) * SCREEN_HEIGHT;
    let line: usize = (4 + col) * PAN_LINE_SIZE;
    let mut group: usize = first;
    assert(partly_encoded(slot@, before, change@, *msg, phase, col as int, first as int)) by {
        assert forall|b: int| 0 <= b < before.len() implies is_written(*msg, b, col as int, 0)
            == #[trigger] is_written(*msg, b, col as int, first as int) by {}
    }
    while group < end
        invariant
            first <= group,
            first == msg.rect.row_min / 8,
            end == (msg.rect.row_max + 1) / 8,
            first < end ==> group <= end,
            width == msg.width,
            pixels == (col - msg.rect.col_min) * msg.width,
            pixels + width <= msg.buffer@.len(),
            msg.buffer@.len() <= usize::MAX,
            shown == (1403 - col) * 1872,
            line == (4 + col) * 1040,
            col < SCREEN_WIDTH,
            change@.len() == PIXELS,
            before.len() >= SLOT_BYTES,
            msg.rect_fits(),
            msg.rect.has_col(col as int),
            lut@ == phase_lut(*msg, phase),
            partly_encoded(slot@, before, change@, *msg, phase, col as int, group as int),
        decreases end - group,
    {
        let s: usize = shown + group * 8;
        let t: usize = pixels + (group * 8 - msg.rect.row_min as usize);
        let src8: [u8; 8] = [
            change[s],
            change[s + 1],
            change[s + 2],
            change[s + 3],
            change[s + 4],
            change[s + 5],
            change[s + 6],
            change[s + 7],
        ];
        let tgt8: [u8; 8] = [
            msg.buffer[t],
            msg.buffer[t + 1],
            msg.buffer[t + 2],
            msg.buffer[t + 3],
            msg.buffer[t + 4],
            msg.buffer[t + 5],
            msg.buffer[t + 6],
            msg.buffer[t + 7],
        ];
        assert(src8@ =~= group_src(change@, col as int, group as int));
        assert(tgt8@ =~= group_tgt(*msg, col as int, group as int));
        let packed: u16 = encode_strip(&src8, &tgt8, lut);
        // The low half of the cell only: the high half holds the control flags.
        let at: usize = line + (26 + group) * 4;
        let ghost prior = slot@;
        slot[at] = (packed % 0x100) as u8;
        slot[at + 1] = (packed / 0x100) as u8;
        proof {
            lemma_group_encoded(
                prior,
                slot@,
                before,
                change@,
                *msg,
                phase,
                col as int,
                group as int,
            );
        }
        group += 1;
    }
    assert(partly_encoded(slot@, before, change@, *msg, phase, col + 1, 0)) by {
        assert forall|b: int| 0 <= b < before.len() implies is_written(*msg, b, col + 1, 0)
            == #[trigger] is_written(*msg, b, col as int, group as int) by {}
    }
}

/// Encodes one phase of a message into a slot, and marks its columns.
pub fn encode_phase_into(
    change: &[u8],
    slot: &mut [u8],
    dirty_row: &mut [u8],
    msg: &UpdateMsg,
    phase_idx: u32,
)
    requires
        change@.len() == PIXELS,
        old(slot)@.len() >= SLOT_BYTES,
        old(dirty_row)@.len() == SCREEN_WIDTH,
        msg.valid(),
        phase_idx < msg.phases(),
    ensures
        final(slot)@ == encoded(old(slot)@, change@, *msg, phase_idx as int),
        final(dirty_row)@ == marked(old(dirty_row)@, *msg),
{
    let lut: [u8; 256] = phase_cmd_lut(msg, phase_idx);
    let ghost before = slot@;
    let ghost unmarked = dirty_row@;
    let ghost phase = phase_idx as int;
    let mut col: usize = msg.rect.col_min as usize;
    let end: usize = msg.rect.col_max as usize + 1;
    assert(partly_encoded(slot@, before, change@, *msg, phase, col as int, 0));
    while col < end
        invariant
            msg.rect.col_min <= col,
            end == msg.rect.col_max + 1,
            msg.rect.col_min <= msg.rect.col_max ==> col <= end && msg.rect_fits(),
            msg.rect.col_min > msg.rect.col_max ==> col == msg.rect.col_min,
            change@.len() == PIXELS,
            before.len() >= SLOT_BYTES,
            lut@ == phase_lut(*msg, phase),
            unmarked.len() == SCREEN_WIDTH,
            dirty_row@.len() == SCREEN_WIDTH,
            forall|c: int|
                0 <= c < SCREEN_WIDTH ==> #[trigger] dirty_row@[c] == if msg.rect.col_min <= c
                    < col {
                    1
                } else {
                    unmarked[c]
                },
            partly_encoded(slot@, before, change@, *msg, phase, col as int, 0),
        decreases end - col,
    {
        encode_column(change, slot, msg, &lut, col, Ghost(before), Ghost(phase));
        dirty_row[col] = 1;
        col += 1;
    }
    proof {
        assert forall|b: int| 0 <= b < before.len() implies #[trigger] slot@[b] == encoded(
            before,
            change@,
            *msg,
            phase,
        )[b] by {
            assert(is_written(*msg, b, col as int, 0) == is_driven(*msg, b));
        }
        assert(slot@ =~= encoded(before, change@, *msg, phase));
        assert forall|c: int| 0 <= c < SCREEN_WIDTH implies #[trigger] dirty_row@[c] == marked(
            unmarked,
            *msg,
        )[c] by {}
        assert(dirty_row@ =~= marked(unmarked, *msg));
    }
}

/// Commits the message's pixels to the change-tracking buffer, so that the next
/// message's encoder sees them as source.
pub fn commit_change_tracking(change: &mut [u8], msg: &UpdateMsg)
    requires
        old(change)@.len() == PIXELS,
        msg.rect_ok(),
    ensures
        final(change)@ == committed(old(change)@, *msg),
{
    let ghost before = change@;
    let width: usize = msg.width as usize;
    let row_min: usize = msg.rect.row_min as usize;
    let row_end: usize = msg.rect.row_max as usize + 1;
    let mut col: usize = msg.rect.col_min as usize;
    let end: usize = msg.rect.col_max as usize + 1;
    assert(msg.buffer.len() == msg.buffer@.len());
    while col < end
        invariant
            msg.rect.col_min <= col,
            end == msg.rect.col_max + 1,
            msg.rect.col_min <= msg.rect.col_max ==> col <= end && msg.rect_fits(),
            width == msg.width,
            row_min == msg.rect.row_min,
            row_end == msg.rect.row_max + 1,
            before.len() == PIXELS,
            change@.len() == PIXELS,
            msg.buffer@.len() <= usize::MAX,
            forall|i: int|
                0 <= i < PIXELS ==> #[trigger] change@[i] == if 1403 - i / 1872 < col {
                    committed(before, *msg)[i]
                } else {
                    before[i]
                },
        decreases end - col,
    {
        proof {
            lemma_buffer_row(*msg, col as int);
        }
        let pixels: usize = (col - msg.rect.col_min as usize) * width;
        let shown: usize = (SCREEN_WIDTH - 1 - col) * SCREEN_HEIGHT;
        let mut row: usize = row_min;
        while row < row_end
            invariant
                row_min <= row,
                row_min < row_end ==> row <= row_end,
                width == msg.width,
                row_min == msg.rect.row_min,
                row_end == msg.rect.row_max + 1,
                msg.rect_fits(),
                msg.rect.has_col(col as int),
                col < SCREEN_WIDTH,
                pixels == (col - msg.rect.col_min) * msg.width,
                pixels + width <= msg.buffer@.len(),
                msg.buffer@.len() <= usize::MAX,
                shown == (1403 - col) * 1872,
                before.len() == PIXELS,
                change@.len() == PIXELS,
                forall|i: int|
                    0 <= i < PIXELS ==> #[trigger] change@[i] == if 1403 - i / 1872 < col || (1403
                        - i / 1872 == col && i % 1872 < row) {
                        committed(before, *msg)[i]
                    } else {
                        before[i]
                    },
            decreases row_end - row,
        {
            let gray: u8 = msg.buffer[pixels + (row - row_min)] % 16;
            proof {
                lemma_change_index(col as int, row as int);
                assert(msg.pixel(col as int, row as int) % 16 == gray);
            }
            let ghost prior = change@;
            change[shown + row] = gray * 17;
            assert forall|i: int| 0 <= i < PIXELS implies #[trigger] change@[i] == if 1403 - i / 1872
                < col || (1403 - i / 1872 == col && i % 1872 < row + 1) {
                committed(before, *msg)[i]
            } else {
                before[i]
            } by {
                if i != shown + row {
                    assert(change@[i] == prior[i]);
                }
            }
            row += 1;
        }
        col += 1;
    }
    assert(change@ =~= committed(before, *msg));
}

/// Clears a slot: copies `line` over the row of every marked column, and unmarks
/// the columns.
pub fn clear_dirty_buffer(slot: &mut [u8], dirty_row: &mut [u8], line: &[u8])
    requires
        old(slot)@.len() >= SLOT_BYTES,
        old(dirty_row)@.len() == SCREEN_WIDTH,
        line@.len() == PAN_LINE_SIZE,
    ensures
        final(slot)@ == cleared(old(slot)@, old(dirty_row)@, line@),
        all_clean(final(dirty_row)@),
        final(dirty_row)@ == Seq::new(1404, |c: int| 0u8),
{
    let ghost before = slot@;
    let ghost dirty = dirty_row@;
    let mut col: usize = 0;
    while col < SCREEN_WIDTH
        invariant
            col <= SCREEN_WIDTH,
            before.len() >= SLOT_BYTES,
            slot@.len() == before.len(),
            dirty.len() == SCREEN_WIDTH,
            dirty_row@.len() == SCREEN_WIDTH,
            line@.len() == PAN_LINE_SIZE,
            forall|c: int| 0 <= c < col ==> #[trigger] dirty_row@[c] == 0,
            forall|c: int| col <= c < SCREEN_WIDTH ==> #[trigger] dirty_row@[c] == dirty[c],
            forall|b: int|
                0 <= b < before.len() ==> #[trigger] slot@[b] == if slot_col(b) < col {
                    cleared(before, dirty, line@)[b]
                } else {
                    before[b]
                },
        decreases SCREEN_WIDTH - col,
    {
        if dirty_row[col] != 0 {
            let base: usize = (4 + col) * PAN_LINE_SIZE;
            let ghost prior = slot@;
            let mut k: usize = 0;
            while k < PAN_LINE_SIZE
                invariant
                    k <= PAN_LINE_SIZE,
                    base == (4 + col) * 1040,
                    col < SCREEN_WIDTH,
                    line@.len() == PAN_LINE_SIZE,
                    prior.len() >= SLOT_BYTES,
                    slot@.len() == prior.len(),
                    forall|b: int|
                        0 <= b < prior.len() ==> #[trigger] slot@[b] == if base <= b < base + k {
                            line@[b % 1040]
                        } else {
                            prior[b]
                        },
                decreases PAN_LINE_SIZE - k,
            {
                slot[base + k] = line[k];
                k += 1;
            }
            dirty_row[col] = 0;
        }
        col += 1;
    }
    assert(slot@ =~= cleared(before, dirty, line@));
    assert(dirty_row@ =~= Seq::new(1404, |c: int| 0u8));
}

} // verus!
