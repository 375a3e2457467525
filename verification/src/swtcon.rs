//! The library's front: picks waveforms by mode and temperature, turns images into
//! update messages, and plans the INIT clear.
use std::sync::Arc;

use vstd::prelude::*;

#[allow(unused_imports)]
use crate::bytes::le32;
use crate::constants::{SCREEN_HEIGHT, SCREEN_WIDTH};
use crate::runtime::{FlushStep, SharedState, IDLE_SLOT};
#[allow(unused_imports)]
use crate::runtime::StateView;
#[allow(unused_imports)]
use crate::fb::SLOT_BYTES;
#[allow(unused_imports)]
use crate::slots::{change_index, driving_word, encoded, law_every_pixel_is_driven, PIXELS};
#[allow(unused_imports)]
use crate::strip_encoder::lane_cmd;
#[allow(unused_imports)]
use crate::text::{decimal, written};
use crate::text::push_decimal;
use crate::update::{PanelRect, UpdateMsg};
#[allow(unused_imports)]
use crate::waveform::{
    is_mode_waveform, is_pack, pack_error, pack_readable, phase_cmd, phase_rows, standard_modes,
    WbfMode,
};
use crate::waveform::{standard_xochitl_modes, PhaseTable, WaveformPack};
#[allow(unused_imports)]
use crate::wbf::valid_file;
use crate::wbf::{Wbf, WbfError};

verus! {

/// Waveform tier. Each maps to one of the modes that [`standard_xochitl_modes`]
/// loads.
#[derive(Debug, Clone, Copy, PartialEq, Eq, Structural)]
pub enum Mode {
    /// 1-bit black and white, fast. Only black and white targets are driven. WBF
    /// mode 1.
    Du,
    /// 16-level gray, full quality. WBF mode 2.
    Gc16,
    /// Faster than [`Mode::Gc16`], with more visible ghosting. WBF mode 3.
    Gc16Fast,
    /// General purpose, glide. WBF mode 6.
    Glf,
    /// 4-level gray, fast. WBF mode 7.
    Du4,
    /// 1-bit animation. WBF mode 4.
    A2,
}

impl Mode {
    /// Where a standard pack keeps the mode.
    pub open spec fn index(self) -> usize {
        match self {
            Mode::Du => 0,
            Mode::Gc16 => 1,
            Mode::Gc16Fast => 2,
            Mode::Glf => 3,
            Mode::Du4 => 4,
            Mode::A2 => 8,
        }
    }

    /// The mode's number in WBF files.
    pub open spec fn wbf_mode(self) -> u8 {
        match self {
            Mode::Du => 1,
            Mode::Gc16 => 2,
            Mode::Gc16Fast => 3,
            Mode::Glf => 6,
            Mode::Du4 => 7,
            Mode::A2 => 4,
        }
    }

    /// Where a pack built from [`standard_xochitl_modes`] keeps the mode.
    pub fn pack_index(self) -> (r: usize)
        ensures
            r == self.index(),
    {
        match self {
            Mode::Du => 0,
            Mode::Gc16 => 1,
            Mode::Gc16Fast => 2,
            Mode::Glf => 3,
            Mode::Du4 => 4,
            Mode::A2 => 8,
        }
    }
}

/// In a standard pack, every mode finds the tables of its WBF mode, with all of
/// their phases.
pub proof fn law_modes_find_their_tables(mode: Mode)
    ensures
        mode.index() < standard_modes().len(),
        standard_modes()[mode.index() as int].mode == mode.wbf_mode(),
        !standard_modes()[mode.index() as int].skip_init,
{
}

/// Each mode has the WBF mode of its name, and uses all of its phases. Only the two
/// 16-level modes leave unchanged pixels alone.
pub proof fn law_modes_by_number()
    ensures
        standard_modes()[Mode::Du.index() as int] == (WbfMode {
            mode: 1,
            separate_partial: false,
            skip_init: false,
        }),
        standard_modes()[Mode::Gc16.index() as int] == (WbfMode {
            mode: 2,
            separate_partial: true,
            skip_init: false,
        }),
        standard_modes()[Mode::Gc16Fast.index() as int] == (WbfMode {
            mode: 3,
            separate_partial: true,
            skip_init: false,
        }),
        standard_modes()[Mode::Glf.index() as int] == (WbfMode {
            mode: 6,
            separate_partial: false,
            skip_init: false,
        }),
        standard_modes()[Mode::Du4.index() as int] == (WbfMode {
            mode: 7,
            separate_partial: false,
            skip_init: false,
        }),
        standard_modes()[Mode::A2.index() as int] == (WbfMode {
            mode: 4,
            separate_partial: false,
            skip_init: false,
        }),
        standard_modes().len() == 9,
{
}

/// Rectangle in screen coordinates (1404 wide, 1872 tall, origin top left), corners
/// inclusive.
#[derive(Debug, Clone, Copy, PartialEq, Eq, Structural)]
pub struct Rect {
    pub x1: u16,
    pub y1: u16,
    pub x2: u16,
    pub y2: u16,
}

/// `v`, or the nearest of 0 and `max`.
pub open spec fn clamped(v: int, max: int) -> int {
    if v < 0 {
        0
    } else if v > max {
        max
    } else {
        v
    }
}

impl Rect {
    /// The whole screen.
    pub fn full() -> (r: Self)
        ensures
            r == (Rect { x1: 0, y1: 0, x2: 1403, y2: 1871 }),
    {
        Rect { x1: 0, y1: 0, x2: SCREEN_WIDTH as u16 - 1, y2: SCREEN_HEIGHT as u16 - 1 }
    }

    /// The rectangle on the panel, which is rotated: column `1403 - x` and row
    /// `1871 - y` show the screen's pixel `(x, y)`. Rows are rounded outward to
    /// groups of 8, and what lies off the screen is cut to its edge.
    pub open spec fn on_panel(self) -> PanelRect {
        PanelRect {
            row_min: (clamped(1871 - self.y2, 1871) / 8 * 8) as u16,
            row_max: (clamped(1871 - self.y1, 1871) / 8 * 8 + 7) as u16,
            col_min: clamped(1403 - self.x2, 1403) as u16,
            col_max: clamped(1403 - self.x1, 1403) as u16,
        }
    }

    /// The corners are in order, so that the rectangle covers some of the panel.
    pub open spec fn ordered(self) -> bool {
        self.on_panel().row_min <= self.on_panel().row_max && self.on_panel().col_min
            <= self.on_panel().col_max
    }

    /// The rectangle on the panel.
    pub fn to_panel(self) -> (r: PanelRect)
        ensures
            r == self.on_panel(),
            r.row_min % 8 == 0,
            r.row_max % 8 == 7,
            r.row_max < SCREEN_HEIGHT,
            r.row_min < SCREEN_HEIGHT,
            r.col_max < SCREEN_WIDTH,
            r.col_min < SCREEN_WIDTH,
    {
        let top: u16 = flipped(self.y2, 1871);
        let bottom: u16 = flipped(self.y1, 1871);
        PanelRect {
            row_min: top / 8 * 8,
            row_max: bottom / 8 * 8 + 7,
            col_min: flipped(self.x2, 1403),
            col_max: flipped(self.x1, 1403),
        }
    }

    /// Whether the corners are in order.
    pub fn is_ordered(self) -> (r: bool)
        ensures
            r == self.ordered(),
    {
        let panel: PanelRect = self.to_panel();
        panel.row_min <= panel.row_max && panel.col_min <= panel.col_max
    }
}

/// `max - v`, or 0 where `v` is larger.
fn flipped(v: u16, max: u16) -> (r: u16)
    ensures
        r == clamped(max - v, max as int),
{
    if v > max {
        0
    } else {
        max - v
    }
}

/// Every pixel of an ordered rectangle on the screen is covered by its rectangle on
/// the panel.
pub proof fn law_panel_rect_covers(rect: Rect, x: int, y: int)
    requires
        rect.x1 <= x <= rect.x2,
        rect.y1 <= y <= rect.y2,
        x < SCREEN_WIDTH,
        y < SCREEN_HEIGHT,
    ensures
        rect.ordered(),
        rect.on_panel().has_col(1403 - x),
        rect.on_panel().has_row(1871 - y),
{
}

/// The panel rectangle is the smallest that covers the screen rectangle: both axes are
/// flipped, columns are exact, and rows are rounded outward to the next multiple of 8 and
/// no further. Coordinates behind the edge of the screen count as the edge.
pub proof fn law_panel_rect_is_tight(rect: Rect)
    ensures
        ({
            let panel = rect.on_panel();
            let top: int = if rect.y2 > 1871 {
                0
            } else {
                1871 - rect.y2
            };
            let bottom: int = if rect.y1 > 1871 {
                0
            } else {
                1871 - rect.y1
            };
            &&& panel.col_min == if rect.x2 > 1403 {
                0
            } else {
                1403 - rect.x2
            }
            &&& panel.col_max == if rect.x1 > 1403 {
                0
            } else {
                1403 - rect.x1
            }
            &&& panel.row_min % 8 == 0
            &&& panel.row_min <= top < panel.row_min + 8
            &&& panel.row_max % 8 == 7
            &&& panel.row_max - 8 < bottom <= panel.row_max
            &&& rect.ordered() <==> panel.row_min <= panel.row_max && panel.col_min
                <= panel.col_max
        }),
{
}

/// Errors of the library's front.
#[derive(Debug, Clone, Copy, PartialEq, Eq, Structural)]
pub enum Error {
    Wbf(WbfError),
    /// The image does not have `SCREEN_WIDTH * SCREEN_HEIGHT` pixels.
    BufferSize { expected: usize, got: usize },
    /// The pack has no table for this mode and temperature.
    NoWaveform { mode_idx: usize, temp_idx: usize },
    /// The time for a flush was up with messages still pending.
    FlushTimeout,
}

impl Error {
    /// What [`Error::message`] says.
    pub open spec fn text(self) -> Seq<char> {
        match self {
            Error::Wbf(e) => e.text(),
            Error::BufferSize { expected, got } => "image buffer length mismatch: expected "@
                + decimal(expected as nat) + ", got "@ + decimal(got as nat),
            Error::NoWaveform { mode_idx, temp_idx } => "no waveform for mode_idx="@ + decimal(
                mode_idx as nat,
            ) + " temp_idx="@ + decimal(temp_idx as nat),
            Error::FlushTimeout => "flush timed out"@,
        }
    }

    /// The error in words.
    pub fn message(&self) -> (r: String)
        ensures
            r@ == self.text(),
    {
        let mut out: String = String::new();
        match *self {
            Error::Wbf(e) => {
                return e.message();
            },
            Error::BufferSize { expected, got } => {
                out.append("image buffer length mismatch: expected ");
                push_decimal(&mut out, expected as u64);
                out.append(", got ");
                push_decimal(&mut out, got as u64);
            },
            Error::NoWaveform { mode_idx, temp_idx } => {
                out.append("no waveform for mode_idx=");
                push_decimal(&mut out, mode_idx as u64);
                out.append(" temp_idx=");
                push_decimal(&mut out, temp_idx as u64);
            },
            Error::FlushTimeout => {
                out.append("flush timed out");
            },
        }
        assert(out@ =~= self.text());
        out
    }
}

impl vstd::std_specs::convert::FromSpecImpl<WbfError> for Error {
    open spec fn obeys_from_spec() -> bool {
        true
    }

    open spec fn from_spec(e: WbfError) -> Self {
        Error::Wbf(e)
    }
}

impl From<WbfError> for Error {
    fn from(e: WbfError) -> (r: Self) {
        Error::Wbf(e)
    }
}

// ---------------------------------------------------------------------------
// Temperature
// ---------------------------------------------------------------------------

/// The temperature index without a reading: about 24 degrees.
pub const FALLBACK_TEMP_IDX: usize = 7;

/// `i` is the first range whose upper bound exceeds the reading, or the last range.
pub open spec fn is_picked(ranges: Seq<(u8, u8)>, reading: i32, i: int) -> bool {
    &&& 0 <= i < ranges.len()
    &&& reading < ranges[i].1 || i == ranges.len() - 1
    &&& forall|j: int| 0 <= j < i ==> reading >= (#[trigger] ranges[j]).1
}

/// Picks a temperature index. Without a reading it is index 7, or the last one
/// where there are fewer.
pub fn pick_temp_idx(temp_ranges: &[(u8, u8)], reading: Option<i32>) -> (r: usize)
    ensures
        match reading {
            Some(t) => temp_ranges@.len() > 0 ==> is_picked(temp_ranges@, t, r as int),
            None => temp_ranges@.len() > 0 ==> r == if temp_ranges@.len() > 7 {
                7
            } else {
                temp_ranges@.len() - 1
            },
        },
        temp_ranges@.len() == 0 ==> r == 0,
        temp_ranges@.len() > 0 ==> r < temp_ranges@.len(),
{
    let len: usize = temp_ranges.len();
    if len == 0 {
        return 0;
    }
    match reading {
        None => if len > FALLBACK_TEMP_IDX {
            FALLBACK_TEMP_IDX
        } else {
            len - 1
        },
        Some(t) => {
            let mut i: usize = 0;
            while i < len - 1 && t >= temp_ranges[i].1 as i32
                invariant
                    i < len == temp_ranges@.len(),
                    forall|j: int| 0 <= j < i ==> t >= (#[trigger] temp_ranges@[j]).1,
                decreases len - i,
            {
                i += 1;
            }
            i
        },
    }
}

/// Where the ranges ascend without overlap, a reading within a range picks that
/// range.
pub proof fn law_reading_picks_its_range(ranges: Seq<(u8, u8)>, reading: i32, i: int, picked: int)
    requires
        0 <= i < ranges.len(),
        forall|j: int, k: int|
            0 <= j < k < ranges.len() ==> (#[trigger] ranges[j]).1 <= (#[trigger] ranges[k]).0,
        ranges[i].0 <= reading < ranges[i].1,
        is_picked(ranges, reading, picked),
    ensures
        picked == i,
{
    if picked < i {
        assert(ranges[picked].1 <= ranges[i].0);
    }
}

/// A reading below the first upper bound picks the first range, one that no upper bound
/// exceeds picks the last, and a higher reading never picks an earlier range.
pub proof fn law_readings_pick_in_order(
    ranges: Seq<(u8, u8)>,
    low: i32,
    high: i32,
    a: int,
    b: int,
)
    requires
        is_picked(ranges, low, a),
        is_picked(ranges, high, b),
        low <= high,
    ensures
        a <= b,
        low < ranges[0].1 ==> a == 0,
        (forall|j: int| 0 <= j < ranges.len() ==> high >= (#[trigger] ranges[j]).1) ==> b
            == ranges.len() - 1,
        a < ranges.len() - 1 ==> low < ranges[a].1,
        a > 0 ==> low >= ranges[a - 1].1,
{
    if b < a {
        assert(low >= ranges[b].1);
    }
}

/// Every reading picks a range, and only one.
pub proof fn law_a_reading_picks_one_range(ranges: Seq<(u8, u8)>, reading: i32) -> (i: int)
    requires
        ranges.len() > 0,
    ensures
        is_picked(ranges, reading, i),
        forall|j: int| is_picked(ranges, reading, j) ==> j == i,
{
    let i = first_above(ranges, reading, 0);
    lemma_first_above(ranges, reading, 0);
    assert(is_picked(ranges, reading, i));
    assert forall|j: int| is_picked(ranges, reading, j) implies j == i by {
        if j < i {
            assert(reading >= ranges[j].1);
        }
        if i < j {
            assert(reading >= ranges[i].1);
        }
    }
    i
}

/// The first index from `i` on whose upper bound exceeds the reading, or the last.
spec fn first_above(ranges: Seq<(u8, u8)>, reading: i32, i: int) -> int
    decreases ranges.len() - i,
{
    if i >= ranges.len() - 1 || reading < ranges[i].1 {
        i
    } else {
        first_above(ranges, reading, i + 1)
    }
}

proof fn lemma_first_above(ranges: Seq<(u8, u8)>, reading: i32, i: int)
    requires
        0 <= i < ranges.len(),
    ensures
        ({
            let r = first_above(ranges, reading, i);
            &&& i <= r < ranges.len()
            &&& reading < ranges[r].1 || r == ranges.len() - 1
            &&& forall|j: int| i <= j < r ==> reading >= (#[trigger] ranges[j]).1
        }),
    decreases ranges.len() - i,
{
    if i < ranges.len() - 1 && reading >= ranges[i].1 {
        lemma_first_above(ranges, reading, i + 1);
    }
}

// ---------------------------------------------------------------------------
// Update messages
// ---------------------------------------------------------------------------

/// The 4-bit gray level of an image pixel: bits 1 to 4.
pub open spec fn gray(pixel: u16) -> u8 {
    ((pixel % 256 / 2) % 16) as u8
}

/// The gray level that an image has at a panel position.
pub open spec fn panel_gray(image: Seq<u16>, col: int, row: int) -> u8 {
    gray(image[(1871 - row) * 1404 + (1403 - col)])
}

/// The gray levels of a panel rectangle, column by column.
pub open spec fn panel_pixels(image: Seq<u16>, panel: PanelRect) -> Seq<u8> {
    let width = panel.row_max - panel.row_min + 1;
    let height = panel.col_max - panel.col_min + 1;
    Seq::new(
        (width * height) as nat,
        |i: int| panel_gray(image, panel.col_min + i / width, panel.row_min + i % width),
    )
}

/// Turns a rectangle of an image into the panel rectangle, its gray levels and its
/// number of rows.
pub fn build_msg_buffer(image: &[u16], rect: Rect) -> (r: (PanelRect, Vec<u8>, u16))
    requires
        image@.len() == PIXELS,
        rect.ordered(),
    ensures
        r.0 == rect.on_panel(),
        r.1@ == panel_pixels(image@, r.0),
        r.2 == r.0.row_max - r.0.row_min + 1,
{
    let panel: PanelRect = rect.to_panel();
    let width: u16 = panel.row_max - panel.row_min + 1;
    let ghost w = width as int;
    let mut buffer: Vec<u8> = Vec::new();
    let mut col: u16 = panel.col_min;
    assert(0 * w == 0) by (nonlinear_arith);
    while col <= panel.col_max
        invariant
            panel.col_min <= col <= panel.col_max + 1,
            panel.col_max < SCREEN_WIDTH,
            panel.row_min <= panel.row_max < SCREEN_HEIGHT,
            image@.len() == PIXELS,
            w == panel.row_max - panel.row_min + 1,
            buffer@.len() == (col - panel.col_min) * w,
            forall|i: int|
                0 <= i < buffer@.len() ==> #[trigger] buffer@[i] == panel_gray(
                    image@,
                    panel.col_min + i / w,
                    panel.row_min + i % w,
                ),
        decreases panel.col_max + 1 - col,
    {
        let mut row: u16 = panel.row_min;
        let ghost k = col - panel.col_min;
        while row <= panel.row_max
            invariant
                panel.col_min <= col <= panel.col_max < SCREEN_WIDTH,
                panel.row_min <= row <= panel.row_max + 1,
                panel.row_max < SCREEN_HEIGHT,
                image@.len() == PIXELS,
                w == panel.row_max - panel.row_min + 1,
                k == col - panel.col_min,
                buffer@.len() == k * w + (row - panel.row_min),
                forall|i: int|
                    0 <= i < buffer@.len() ==> #[trigger] buffer@[i] == panel_gray(
                        image@,
                        panel.col_min + i / w,
                        panel.row_min + i % w,
                    ),
            decreases panel.row_max + 1 - row,
        {
            let y: usize = SCREEN_HEIGHT - 1 - row as usize;
            let x: usize = SCREEN_WIDTH - 1 - col as usize;
            let pixel: u16 = image[y * SCREEN_WIDTH + x];
            proof {
                lemma_buffer_position(k, row - panel.row_min, w);
            }
            buffer.push(((pixel % 256 / 2) % 16) as u8);
            row += 1;
        }
        assert(k * w + w == (k + 1) * w) by (nonlinear_arith);
        col += 1;
    }
    let ghost height = panel.col_max - panel.col_min + 1;
    assert(w * height == height * w) by (nonlinear_arith);
    assert(buffer@ =~= panel_pixels(image@, panel));
    (panel, buffer, width)
}

/// Position `k * w + r` is row `r` of column `k`.
proof fn lemma_buffer_position(k: int, r: int, w: int)
    requires
        0 <= k,
        0 <= r < w,
    ensures
        (k * w + r) / w == k,
        (k * w + r) % w == r,
{
    vstd::arithmetic::div_mod::lemma_fundamental_div_mod_converse(k * w + r, w, k, r);
}

/// The pixel of a message's buffer at a panel position is the image's gray level
/// there: the encoder reads the buffer back as it was laid out.
pub proof fn law_buffer_reads_back(image: Seq<u16>, rect: Rect, msg: UpdateMsg, col: int, row: int)
    requires
        rect.ordered(),
        msg.rect == rect.on_panel(),
        msg.buffer@ == panel_pixels(image, msg.rect),
        msg.width == msg.rect.row_max - msg.rect.row_min + 1,
        msg.rect.has_col(col),
        msg.rect.has_row(row),
    ensures
        msg.pixel(col, row) == panel_gray(image, col, row),
{
    let w = msg.width as int;
    let h = msg.rect.col_max - msg.rect.col_min + 1;
    let k = col - msg.rect.col_min;
    let r = row - msg.rect.row_min;
    lemma_buffer_position(k, r, w);
    assert(0 <= k * w + r < w * h) by (nonlinear_arith)
        requires
            0 <= k < h,
            0 <= r < w,
    ;
}

proof fn lemma_gray_bits(pixel: u16)
    by (bit_vector)
    ensures
        (pixel % 256 / 2) % 16 == ((pixel & 0xff) >> 1) & 0xf,
        (pixel % 256 / 2) % 16 < 16,
{
}

/// The buffer of an update holds bits 1 to 4 of every image pixel that its rectangle
/// covers, and no more: panel column by panel column, within a column by row. Panel
/// position (`col`, `row`) shows the screen's pixel (1403 - `col`, 1871 - `row`).
pub proof fn law_buffer_holds_the_image(image: Seq<u16>, rect: Rect, col: int, row: int)
    requires
        rect.ordered(),
        rect.on_panel().col_min <= col <= rect.on_panel().col_max,
        rect.on_panel().row_min <= row <= rect.on_panel().row_max,
    ensures
        ({
            let panel = rect.on_panel();
            let width = panel.row_max - panel.row_min + 1;
            let height = panel.col_max - panel.col_min + 1;
            let pixels = panel_pixels(image, panel);
            let at = (col - panel.col_min) * width + (row - panel.row_min);
            &&& pixels.len() == width * height
            &&& 0 <= at < pixels.len()
            &&& pixels[at] == ((image[(1871 - row) * 1404 + (1403 - col)] & 0xff) >> 1) & 0xf
        }),
{
    let panel = rect.on_panel();
    let w = panel.row_max - panel.row_min + 1;
    let h = panel.col_max - panel.col_min + 1;
    let k = col - panel.col_min;
    let r = row - panel.row_min;
    lemma_buffer_position(k, r, w);
    assert(0 <= k * w + r < w * h) by (nonlinear_arith)
        requires
            0 <= k < h,
            0 <= r < w,
    ;
    lemma_gray_bits(image[(1871 - row) * 1404 + (1403 - col)]);
}

/// The error of looking a table up; `None` where there is one.
pub open spec fn lookup_error(pack: WaveformPack, temp: usize, mode: Mode) -> Option<Error> {
    let at = mode.index() as int;
    if at < pack.modes@.len() && temp < pack.modes@[at].partial@.len() {
        None
    } else {
        Some(Error::NoWaveform { mode_idx: mode.index(), temp_idx: temp })
    }
}

/// The partial-refresh table for a mode and a temperature index.
pub fn lookup(pack: &WaveformPack, temp: usize, mode: Mode) -> (r: Result<Arc<PhaseTable>, Error>)
    ensures
        lookup_error(*pack, temp, mode) matches Some(e) ==> r == Err::<Arc<PhaseTable>, Error>(e),
        lookup_error(*pack, temp, mode) is None ==> r == Ok::<Arc<PhaseTable>, Error>(
            pack.modes@[mode.index() as int].partial@[temp as int],
        ),
{
    let mode_idx: usize = mode.pack_index();
    if mode_idx >= pack.modes.len() || temp >= pack.modes[mode_idx].partial.len() {
        return Err(Error::NoWaveform { mode_idx, temp_idx: temp });
    }
    Ok(Arc::clone(&pack.modes[mode_idx].partial[temp]))
}

// ---------------------------------------------------------------------------
// INIT clear
// ---------------------------------------------------------------------------

/// A step of the INIT clear.
#[derive(Debug, Clone, Copy, PartialEq, Eq, Structural)]
pub enum InitStep {
    /// Fill a slot with a pan buffer of the given pixel word.
    Fill { slot_idx: u32, value: u32 },
    /// Unblank to a slot.
    Unblank { slot_idx: u32 },
    /// Pan to a slot.
    Pan { slot_idx: u32 },
    /// Blank the panel.
    Blank,
}

/// The INIT clear: fill three slots with the panel's init patterns, unblank to the
/// first phase's slot, park, pan through the slots of the other phases, park and
/// blank, and put zero pan buffers back. Without phases there is nothing to do.
pub open spec fn init_plan(codes: Seq<u8>) -> Seq<InitStep> {
    if codes.len() == 0 {
        Seq::empty()
    } else {
        seq![
            InitStep::Fill { slot_idx: 0, value: 0 },
            InitStep::Fill { slot_idx: 1, value: 0x5555 },
            InitStep::Fill { slot_idx: 2, value: 0xaaaa },
            InitStep::Unblank { slot_idx: (codes[0] % 16) as u32 },
            InitStep::Pan { slot_idx: 16 },
        ] + Seq::new(
            (codes.len() - 1) as nat,
            |i: int| InitStep::Pan { slot_idx: (codes[i + 1] % 16) as u32 },
        ) + seq![
            InitStep::Pan { slot_idx: 16 },
            InitStep::Blank,
            InitStep::Fill { slot_idx: 0, value: 0 },
            InitStep::Fill { slot_idx: 1, value: 0 },
            InitStep::Fill { slot_idx: 2, value: 0 },
        ]
    }
}

/// The pixel word that a slot is filled with after some steps, where it was
/// `before` in front of them.
pub open spec fn filled_with(plan: Seq<InitStep>, slot: int, before: u32) -> u32
    decreases plan.len(),
{
    if plan.len() == 0 {
        before
    } else {
        match plan.last() {
            InitStep::Fill { slot_idx, value } => if slot_idx == slot {
                value
            } else {
                filled_with(plan.drop_last(), slot, before)
            },
            _ => filled_with(plan.drop_last(), slot, before),
        }
    }
}

/// After the INIT clear every slot that held a zero pan buffer holds one again.
pub proof fn law_init_leaves_zero_slots(codes: Seq<u8>, slot: int)
    ensures
        filled_with(init_plan(codes), slot, 0) == 0,
{
    let plan = init_plan(codes);
    if codes.len() > 0 {
        let n = plan.len() as int;
        lemma_filled_with(plan, slot, n);
    }
}

proof fn lemma_filled_with(plan: Seq<InitStep>, slot: int, n: int)
    requires
        plan.len() >= 10,
        0 <= n <= plan.len(),
        plan[0] == (InitStep::Fill { slot_idx: 0, value: 0 }),
        plan[1] == (InitStep::Fill { slot_idx: 1, value: 0x5555 }),
        plan[2] == (InitStep::Fill { slot_idx: 2, value: 0xaaaa }),
        forall|i: int| 3 <= i < plan.len() - 3 ==> !(#[trigger] plan[i] is Fill),
        plan[plan.len() - 3] == (InitStep::Fill { slot_idx: 0, value: 0 }),
        plan[plan.len() - 2] == (InitStep::Fill { slot_idx: 1, value: 0 }),
        plan[plan.len() - 1] == (InitStep::Fill { slot_idx: 2, value: 0 }),
    ensures
        slot != 1 && slot != 2 ==> filled_with(plan.take(n), slot, 0) == 0,
        slot == 1 && n >= plan.len() - 1 ==> filled_with(plan.take(n), slot, 0) == 0,
        slot == 2 && n == plan.len() ==> filled_with(plan.take(n), slot, 0) == 0,
        n == plan.len() ==> plan.take(n) == plan,
    decreases n,
{
    if n > 0 {
        lemma_filled_with(plan, slot, n - 1);
        assert(plan.take(n).drop_last() =~= plan.take(n - 1));
        assert(plan.take(n).last() == plan[n - 1]);
    }
    assert(n == plan.len() ==> plan.take(n) =~= plan);
}

/// The INIT clear, step by step: three fills, an unblanking to the slot of the first pan
/// code, a park, one pan for each of the other pan codes in their order, to the slot that
/// the code's low four bits name, a park, a blanking, and three zero fills.
pub proof fn law_init_shows_every_code(codes: Seq<u8>, i: int)
    requires
        0 <= i < codes.len(),
    ensures
        ({
            let plan = init_plan(codes);
            let n = codes.len() as int;
            &&& plan.len() == n + 9
            &&& plan[0] == (InitStep::Fill { slot_idx: 0, value: 0 })
            &&& plan[1] == (InitStep::Fill { slot_idx: 1, value: 0x5555 })
            &&& plan[2] == (InitStep::Fill { slot_idx: 2, value: 0xaaaa })
            &&& i == 0 ==> plan[3] == (InitStep::Unblank { slot_idx: (codes[i] & 0xf) as u32 })
            &&& i > 0 ==> plan[4 + i] == (InitStep::Pan { slot_idx: (codes[i] & 0xf) as u32 })
            &&& plan[4] == (InitStep::Pan { slot_idx: 16 })
            &&& plan[n + 4] == (InitStep::Pan { slot_idx: 16 })
            &&& plan[n + 5] == InitStep::Blank
            &&& forall|s: int|
                0 <= s < 3 ==> #[trigger] plan[n + 6 + s] == (InitStep::Fill {
                    slot_idx: s as u32,
                    value: 0,
                })
        }),
{
    let code = codes[i];
    assert(code & 0xf == code % 16) by (bit_vector);
    assert(init_plan(codes)[codes.len() as int + 6] == (InitStep::Fill { slot_idx: 0, value: 0 }));
    assert(init_plan(codes)[codes.len() as int + 7] == (InitStep::Fill { slot_idx: 1, value: 0 }));
    assert(init_plan(codes)[codes.len() as int + 8] == (InitStep::Fill { slot_idx: 2, value: 0 }));
}

/// Without pan codes there is no INIT clear.
pub proof fn law_no_codes_no_init(codes: Seq<u8>)
    ensures
        init_plan(codes).len() == 0 <==> codes.len() == 0,
{
}

/// The INIT clear unblanks the panel before it pans, blanks it after the last pan,
/// and ends with it blanked.
pub proof fn law_init_pans_only_unblanked(codes: Seq<u8>, i: int)
    requires
        0 <= i < init_plan(codes).len(),
    ensures
        init_plan(codes)[i] is Unblank <==> i == 3,
        init_plan(codes)[i] is Blank <==> i == init_plan(codes).len() - 4,
        init_plan(codes)[i] is Pan <==> 3 < i < init_plan(codes).len() - 4,
{
}

/// Plans the INIT clear for the pan codes of a temperature.
pub fn init_clear_plan(pan_codes: &[u8]) -> (r: Vec<InitStep>)
    ensures
        r@ == init_plan(pan_codes@),
{
    let mut r: Vec<InitStep> = Vec::new();
    if pan_codes.len() == 0 {
        assert(r@ =~= init_plan(pan_codes@));
        return r;
    }
    r.push(InitStep::Fill { slot_idx: 0, value: 0 });
    r.push(InitStep::Fill { slot_idx: 1, value: 0x5555 });
    r.push(InitStep::Fill { slot_idx: 2, value: 0xaaaa });
    r.push(InitStep::Unblank { slot_idx: (pan_codes[0] % 16) as u32 });
    r.push(InitStep::Pan { slot_idx: IDLE_SLOT });
    let mut i: usize = 1;
    while i < pan_codes.len()
        invariant
            1 <= i <= pan_codes@.len(),
            r@ == init_plan(pan_codes@).take(i + 4),
        decreases pan_codes@.len() - i,
    {
        r.push(InitStep::Pan { slot_idx: (pan_codes[i] % 16) as u32 });
        assert(r@ =~= init_plan(pan_codes@).take(i + 5));
        i += 1;
    }
    r.push(InitStep::Pan { slot_idx: IDLE_SLOT });
    r.push(InitStep::Blank);
    r.push(InitStep::Fill { slot_idx: 0, value: 0 });
    r.push(InitStep::Fill { slot_idx: 1, value: 0 });
    r.push(InitStep::Fill { slot_idx: 2, value: 0 });
    assert(r@ =~= init_plan(pan_codes@));
    r
}

// ---------------------------------------------------------------------------
// The front
// ---------------------------------------------------------------------------

/// The loaded waveforms and the temperature index in use.
#[derive(Debug)]
pub struct Swtcon {
    waveforms: WaveformPack,
    current_temp: usize,
}

/// Every partial-refresh table has a row for each of its phases.
pub open spec fn tables_fit(pack: WaveformPack) -> bool {
    forall|k: int, t: int|
        0 <= k < pack.modes@.len() && 0 <= t < pack.modes@[k].partial@.len() ==> {
            let table = #[trigger] pack.modes@[k].partial@[t];
            phase_rows(table.phase_count as int) * 256 <= table.data@.len()
        }
}

/// `msg` is the message for an update of `rect` with the given table and limit.
pub open spec fn is_update(
    msg: UpdateMsg,
    image: Seq<u16>,
    rect: Rect,
    table: Arc<PhaseTable>,
    phase_limit: Option<u32>,
) -> bool {
    &&& msg.rect == rect.on_panel()
    &&& msg.buffer@ == panel_pixels(image, msg.rect)
    &&& msg.width == msg.rect.row_max - msg.rect.row_min + 1
    &&& msg.waveform == table
    &&& msg.phase_limit == phase_limit
}

impl Swtcon {
    /// The tables are whole, and there is an INIT sequence for the temperature.
    #[verifier::type_invariant]
    spec fn inv(self) -> bool {
        tables_fit(self.waveforms) && self.current_temp < self.waveforms.init@.len()
    }

    /// The loaded waveforms.
    pub closed spec fn pack(self) -> WaveformPack {
        self.waveforms
    }

    /// The temperature index in use.
    pub closed spec fn temp(self) -> usize {
        self.current_temp
    }

    /// The error of an update; `None` where it is accepted.
    pub open spec fn update_error(self, image: Seq<u16>, mode: Mode) -> Option<Error> {
        if image.len() != PIXELS {
            Some(Error::BufferSize { expected: PIXELS, got: image.len() as usize })
        } else {
            lookup_error(self.pack(), self.temp(), mode)
        }
    }

    /// The table that an update with `mode` uses.
    pub open spec fn table(self, mode: Mode) -> Arc<PhaseTable> {
        self.pack().modes@[mode.index() as int].partial@[self.temp() as int]
    }

    /// Parses a WBF file, builds the waveform pack and picks the temperature index.
    pub fn open(wbf_bytes: &[u8], reading: Option<i32>) -> (r: Result<Self, Error>)
        requires
            valid_file(wbf_bytes@) ==> pack_readable(wbf_bytes@, standard_modes()),
        ensures
            wbf_bytes@.len() < 0x31 ==> r == Err::<Self, Error>(Error::Wbf(WbfError::TooSmall)),
            wbf_bytes@.len() >= 0x31 && le32(wbf_bytes@, 0x04) != wbf_bytes@.len() ==> r == Err::<
                Self,
                Error,
            >(
                Error::Wbf(
                    WbfError::SizeMismatch {
                        header: le32(wbf_bytes@, 0x04) as u32,
                        actual: wbf_bytes@.len() as usize,
                    },
                ),
            ),
            valid_file(wbf_bytes@) ==> match pack_error(wbf_bytes@, standard_modes()) {
                Some(e) => r == Err::<Self, Error>(Error::Wbf(e)),
                None => {
                    &&& r matches Ok(front)
                    &&& is_pack(front.pack(), wbf_bytes@, standard_modes())
                    &&& match reading {
                        Some(t) => is_picked(
                            front.pack().temp_ranges@,
                            t,
                            front.temp() as int,
                        ),
                        None => front.temp() == if front.pack().temp_ranges@.len() > 7 {
                            7
                        } else {
                            front.pack().temp_ranges@.len() - 1
                        },
                    }
                },
            },
    {
        let wbf: Wbf<'_> = match Wbf::parse(wbf_bytes) {
            Ok(wbf) => wbf,
            Err(e) => return Err(Error::from(e)),
        };
        let waveforms: WaveformPack = match WaveformPack::from_wbf(
            &wbf,
            &standard_xochitl_modes(),
        ) {
            Ok(waveforms) => waveforms,
            Err(e) => return Err(Error::from(e)),
        };
        let current_temp: usize = pick_temp_idx(waveforms.temp_ranges.as_slice(), reading);
        proof {
            lemma_pack_tables_fit(waveforms, wbf_bytes@);
        }
        Ok(Swtcon { waveforms, current_temp })
    }

    /// The plan of the INIT clear at the temperature in use.
    pub fn init_clear(&self) -> (r: Vec<InitStep>)
        ensures
            r@ == init_plan(self.pack().init@[self.temp() as int].pan_codes@),
    {
        proof {
            use_type_invariant(self);
        }
        init_clear_plan(self.waveforms.init[self.current_temp].pan_codes.as_slice())
    }

    /// The message for an update. The image has `SCREEN_WIDTH * SCREEN_HEIGHT` pixels
    /// in screen orientation, row by row; bits 1 to 4 of a pixel are its gray level.
    pub fn update_message(
        &self,
        image: &[u16],
        rect: Rect,
        mode: Mode,
        phase_limit: Option<u32>,
    ) -> (r: Result<UpdateMsg, Error>)
        requires
            self.update_error(image@, mode) is None ==> rect.ordered(),
        ensures
            self.update_error(image@, mode) matches Some(e) ==> r == Err::<UpdateMsg, Error>(e),
            self.update_error(image@, mode) is None ==> {
                &&& r matches Ok(msg)
                &&& is_update(msg, image@, rect, self.table(mode), phase_limit)
                &&& msg.valid()
            },
    {
        proof {
            use_type_invariant(self);
        }
        let expected: usize = SCREEN_WIDTH * SCREEN_HEIGHT;
        if image.len() != expected {
            return Err(Error::BufferSize { expected, got: image.len() });
        }
        let waveform: Arc<PhaseTable> = match lookup(&self.waveforms, self.current_temp, mode) {
            Ok(table) => table,
            Err(e) => return Err(e),
        };
        let panel: (PanelRect, Vec<u8>, u16) = build_msg_buffer(image, rect);
        let msg: UpdateMsg = UpdateMsg {
            rect: panel.0,
            buffer: panel.1,
            width: panel.2,
            waveform,
            phase_limit,
        };
        proof {
            let w = msg.width as int;
            let h = msg.rect.col_max - msg.rect.col_min + 1;
            assert(w * h == h * w && 0 <= w * h) by (nonlinear_arith)
                requires
                    0 <= w,
                    0 <= h,
            ;
            let table = self.waveforms.modes@[mode.index() as int].partial@[self.current_temp as int];
            assert(phase_rows(table.phase_count as int) * 256 <= table.data@.len());
        }
        Ok(msg)
    }

    /// Enqueues an update. The caller wakes the generator afterwards.
    pub fn update(&self, state: &mut SharedState, image: &[u16], rect: Rect, mode: Mode) -> (r:
        Result<(), Error>)
        requires
            self.update_error(image@, mode) is None ==> rect.ordered(),
        ensures
            self.update_error(image@, mode) matches Some(e) ==> r == Err::<(), Error>(e)
                && final(state)@ == old(state)@,
            self.update_error(image@, mode) is None ==> {
                &&& r is Ok
                &&& final(state)@.queue.len() > 0
                &&& final(state)@ == (StateView {
                    queue: old(state)@.queue.push(final(state)@.queue.last()),
                    ..old(state)@
                })
                &&& is_update(final(state)@.queue.last(), image@, rect, self.table(mode), None)
                &&& final(state)@.queue.last().valid()
            },
    {
        self.update_with_limit(state, image, rect, mode, None)
    }

    /// Like [`Swtcon::update`], with a cap on the number of phases. The first phases
    /// drive the panel partway, so something shows sooner; the change-tracking buffer
    /// is not committed, and a later full update still starts from the pixels before.
    pub fn update_with_limit(
        &self,
        state: &mut SharedState,
        image: &[u16],
        rect: Rect,
        mode: Mode,
        phase_limit: Option<u32>,
    ) -> (r: Result<(), Error>)
        requires
            self.update_error(image@, mode) is None ==> rect.ordered(),
        ensures
            self.update_error(image@, mode) matches Some(e) ==> r == Err::<(), Error>(e)
                && final(state)@ == old(state)@,
            self.update_error(image@, mode) is None ==> {
                &&& r is Ok
                &&& final(state)@.queue.len() > 0
                &&& final(state)@ == (StateView {
                    queue: old(state)@.queue.push(final(state)@.queue.last()),
                    ..old(state)@
                })
                &&& is_update(
                    final(state)@.queue.last(),
                    image@,
                    rect,
                    self.table(mode),
                    phase_limit,
                )
                &&& final(state)@.queue.last().valid()
            },
    {
        match self.update_message(image, rect, mode, phase_limit) {
            Ok(msg) => {
                state.submit(msg);
                Ok(())
            },
            Err(e) => Err(e),
        }
    }

    /// The outcome of a flush: done when every pending message is encoded and the
    /// vsync side has caught up, an error when the time is up before that, and `None`
    /// to look again a little later.
    pub fn flush(&self, state: &SharedState, expired: bool) -> (r: Option<Result<(), Error>>)
        ensures
            r == if state@.drained() {
                Some(Ok::<(), Error>(()))
            } else if expired {
                Some(Err::<(), Error>(Error::FlushTimeout))
            } else {
                None
            },
    {
        match state.flush_step(expired) {
            FlushStep::Done => Some(Ok(())),
            FlushStep::TimedOut => Some(Err(Error::FlushTimeout)),
            FlushStep::Sleep => None,
        }
    }

    /// Number of messages queued but not yet taken by the generator.
    pub fn pending(&self, state: &SharedState) -> (r: usize)
        ensures
            r == state@.queue.len(),
    {
        state.pending_count()
    }

    /// The loaded waveforms.
    pub fn waveforms(&self) -> (r: &WaveformPack)
        ensures
            *r == self.pack(),
    {
        &self.waveforms
    }

    /// The temperature index in use.
    pub fn temp_idx(&self) -> (r: usize)
        ensures
            r == self.temp(),
    {
        self.current_temp
    }
}

/// The tables of a pack are whole.
proof fn lemma_pack_tables_fit(pack: WaveformPack, raw: Seq<u8>)
    requires
        is_pack(pack, raw, standard_modes()),
    ensures
        tables_fit(pack),
{
    assert forall|k: int, t: int|
        0 <= k < pack.modes@.len() && 0 <= t < pack.modes@[k].partial@.len() implies ({
        let table = #[trigger] pack.modes@[k].partial@[t];
        phase_rows(table.phase_count as int) * 256 <= table.data@.len()
    }) by {
        let mw = pack.modes@[k];
        assert(is_mode_waveform(mw, raw, standard_modes()[k]));
        let full = mw.full@[t];
        let partial = mw.partial@[t];
        assert(partial.phase_count == full.phase_count);
        assert(partial.data@.len() == full.data@.len());
    }
}

/// The table of a mode in a pack built from a file, at a temperature of the file:
/// every update with that mode finds one.
pub proof fn law_every_mode_has_a_table(pack: WaveformPack, raw: Seq<u8>, temp: usize, mode: Mode)
    requires
        is_pack(pack, raw, standard_modes()),
        temp < pack.temp_ranges@.len(),
    ensures
        lookup_error(pack, temp, mode) is None,
{
    assert(is_mode_waveform(
        pack.modes@[mode.index() as int],
        raw,
        standard_modes()[mode.index() as int],
    ));
}

/// An update drives every pixel of its rectangle on the screen, in each of its phases,
/// with the command that the mode's table holds for what the panel shows there and the
/// image's gray level.
pub proof fn law_update_drives_the_image(
    msg: UpdateMsg,
    image: Seq<u16>,
    rect: Rect,
    table: Arc<PhaseTable>,
    phase_limit: Option<u32>,
    slot: Seq<u8>,
    change: Seq<u8>,
    phase: int,
    x: int,
    y: int,
)
    requires
        is_update(msg, image, rect, table, phase_limit),
        msg.valid(),
        slot.len() >= SLOT_BYTES,
        0 <= phase < msg.phases(),
        rect.x1 <= x <= rect.x2,
        rect.y1 <= y <= rect.y2,
        x < SCREEN_WIDTH,
        y < SCREEN_HEIGHT,
    ensures
        lane_cmd(
            driving_word(encoded(slot, change, msg, phase), 1403 - x, 1871 - y) as u16,
            (7 - (1871 - y) % 8) as u32,
        ) == phase_cmd(
            table.data@,
            phase,
            (change[change_index(1403 - x, 1871 - y)] % 16) as int,
            gray(image[y * 1404 + x]) as int,
        ),
{
    law_panel_rect_covers(rect, x, y);
    law_buffer_reads_back(image, rect, msg, 1403 - x, 1871 - y);
    law_every_pixel_is_driven(slot, change, msg, phase, 1403 - x, 1871 - y);
}

/// Which updates are accepted: the image has 1404 * 1872 pixels, and the pack has a
/// partial table for the mode at the temperature in use. That table is the one used.
pub proof fn law_which_updates_are_accepted(front: Swtcon, image: Seq<u16>, mode: Mode)
    requires
        image.len() <= usize::MAX,
    ensures
        image.len() != 2628288 ==> (front.update_error(image, mode) matches Some(
            Error::BufferSize { expected, got },
        ) && expected == 2628288 && got == image.len()),
        image.len() == 2628288 ==> {
            let k = mode.index() as int;
            let found = k < front.pack().modes@.len() && front.temp()
                < front.pack().modes@[k].partial@.len();
            &&& found <==> front.update_error(image, mode) is None
            &&& !found ==> front.update_error(image, mode) == Some(
                Error::NoWaveform { mode_idx: mode.index(), temp_idx: front.temp() },
            )
            &&& found ==> front.table(mode) == front.pack().modes@[k].partial@[front.temp() as int]
        },
{
}

/// The message of an update is what was asked for: the rectangle on the panel, the image's
/// gray levels there, the given table and the given limit.
pub proof fn law_update_is_what_was_asked(
    msg: UpdateMsg,
    image: Seq<u16>,
    rect: Rect,
    table: Arc<PhaseTable>,
    phase_limit: Option<u32>,
)
    requires
        rect.ordered(),
    ensures
        is_update(msg, image, rect, table, phase_limit) <==> {
            &&& msg.rect == rect.on_panel()
            &&& msg.buffer@ == panel_pixels(image, rect.on_panel())
            &&& msg.width == rect.on_panel().row_max - rect.on_panel().row_min + 1
            &&& msg.waveform == table
            &&& msg.phase_limit == phase_limit
        },
{
}

/// What the errors say, with their numbers as digits.
pub proof fn law_error_texts(e: WbfError, a: usize, b: usize)
    ensures
        Error::Wbf(e).text() == e.text(),
        (Error::BufferSize { expected: a, got: b }).text()
            == "image buffer length mismatch: expected "@ + written(a as nat, 10) + ", got "@
            + written(b as nat, 10),
        (Error::NoWaveform { mode_idx: a, temp_idx: b }).text() == "no waveform for mode_idx="@
            + written(a as nat, 10) + " temp_idx="@ + written(b as nat, 10),
        Error::FlushTimeout.text() == "flush timed out"@,
{
}

} // verus!
