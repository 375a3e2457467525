//! Update messages: what a caller hands to the generator.
use std::sync::Arc;

use vstd::prelude::*;

#[allow(unused_imports)]
use crate::constants::{SCREEN_HEIGHT, SCREEN_WIDTH};
use crate::waveform::PhaseTable;
#[allow(unused_imports)]
use crate::waveform::phase_rows;

verus! {

/// Rectangle in panel coordinates, bounds inclusive. The panel has 1872 rows (the
/// "tall" axis) and 1404 columns (the "wide" axis). The row range is 8-aligned,
/// because the encoder packs 8 rows per cell.
#[derive(Debug, Clone, Copy, PartialEq, Eq, Structural)]
pub struct PanelRect {
    pub row_min: u16,
    pub row_max: u16,
    pub col_min: u16,
    pub col_max: u16,
}

/// One update. Owns its pixels and shares the phase table to use.
#[derive(Debug)]
pub struct UpdateMsg {
    pub rect: PanelRect,
    /// 4-bit gray pixels, one per byte:
    /// `buffer[col_offset * width + row_offset]`, where the offsets count from
    /// the rectangle's first column and row.
    pub buffer: Vec<u8>,
    /// Number of panel rows in the rectangle.
    pub width: u16,
    /// Phase table of the (mode, temperature).
    pub waveform: Arc<PhaseTable>,
    /// Optional cap on the number of phases. With `Some(n)` only the first `n`
    /// phases are driven and the change-tracking buffer is not committed, so that
    /// the next update still starts from the pixels before this one.
    pub phase_limit: Option<u32>,
}

impl PanelRect {
    pub open spec fn has_col(self, col: int) -> bool {
        self.col_min <= col <= self.col_max
    }

    pub open spec fn has_row(self, row: int) -> bool {
        self.row_min <= row <= self.row_max
    }
}

impl UpdateMsg {
    /// Number of phases that the message drives.
    pub open spec fn phases(self) -> int {
        match self.phase_limit {
            Some(n) => if n < self.waveform.phase_count {
                n as int
            } else {
                self.waveform.phase_count as int
            },
            None => self.waveform.phase_count as int,
        }
    }

    /// The rectangle lies on the panel with its rows aligned, and the buffer holds
    /// its pixels.
    pub open spec fn rect_fits(self) -> bool {
        &&& self.rect.row_min % 8 == 0
        &&& self.rect.row_max % 8 == 7
        &&& self.rect.row_min <= self.rect.row_max ==> {
            &&& self.rect.row_max < SCREEN_HEIGHT
            &&& self.width >= self.rect.row_max - self.rect.row_min + 1
        }
        &&& self.rect.col_max < SCREEN_WIDTH
        &&& self.buffer@.len() >= (self.rect.col_max - self.rect.col_min + 1) * self.width
    }

    /// The rectangle has no columns, or fits.
    pub open spec fn rect_ok(self) -> bool {
        self.rect.col_min <= self.rect.col_max ==> self.rect_fits()
    }

    /// What a message must satisfy to be processed: a rectangle that is in order,
    /// unless the message neither drives nor commits anything, and a table with a row
    /// for every phase to drive.
    pub open spec fn valid(self) -> bool {
        &&& self.phases() > 0 || self.phase_limit is None ==> self.rect_ok()
        &&& phase_rows(self.phases()) * 256 <= self.waveform.data@.len()
    }

    /// The target pixel at a panel position of the rectangle.
    pub open spec fn pixel(self, col: int, row: int) -> u8 {
        self.buffer@[(col - self.rect.col_min) * self.width + (row - self.rect.row_min)]
    }

    /// Number of phases that the message drives.
    pub fn total_phases(&self) -> (r: u32)
        ensures
            r == self.phases(),
    {
        match self.phase_limit {
            Some(n) => if n < self.waveform.phase_count {
                n
            } else {
                self.waveform.phase_count
            },
            None => self.waveform.phase_count,
        }
    }

    /// Whether the message can be processed.
    pub fn is_valid(&self) -> (r: bool)
        ensures
            r == self.valid(),
    {
        let rows: u64 = (self.total_phases() as u64 + 7) / 8;
        if rows * 256 > self.waveform.data.len() as u64 {
            return false;
        }
        if self.total_phases() == 0 && self.phase_limit.is_some() {
            return true;
        }
        if self.rect.col_min > self.rect.col_max {
            return true;
        }
        if self.rect.row_min % 8 != 0 || self.rect.row_max % 8 != 7 {
            return false;
        }
        if self.rect.row_min <= self.rect.row_max {
            let rows: u32 = self.rect.row_max as u32 - self.rect.row_min as u32 + 1;
            if self.rect.row_max as usize >= SCREEN_HEIGHT || (self.width as u32) < rows {
                return false;
            }
        }
        if self.rect.col_max as usize >= SCREEN_WIDTH {
            return false;
        }
        let cols: u64 = self.rect.col_max as u64 - self.rect.col_min as u64 + 1;
        assert(0 <= cols * self.width <= 0x1_0000 * 0x1_0000) by (nonlinear_arith)
            requires
                0 <= cols <= 0x1_0000,
                0 <= self.width <= 0x1_0000,
        ;
        cols * self.width as u64 <= self.buffer.len() as u64
    }
}

/// A message drives every phase of its table, or as many as its limit says, whichever
/// is fewer.
pub proof fn law_limit_caps_the_phases(msg: UpdateMsg)
    ensures
        msg.phase_limit is None ==> msg.phases() == msg.waveform.phase_count,
        msg.phase_limit matches Some(n) ==> {
            &&& msg.phases() <= n
            &&& msg.phases() <= msg.waveform.phase_count
            &&& msg.phases() == n || msg.phases() == msg.waveform.phase_count
        },
{
}

/// What it takes to be valid: a table with 256 entries for every 8 phases that are
/// driven, and, if anything is driven or committed, either no column at all or an
/// aligned rectangle on the panel whose pixels the buffer holds.
pub proof fn law_which_messages_are_valid(msg: UpdateMsg)
    ensures
        msg.valid() <==> {
            &&& msg.waveform.data@.len() >= ((msg.phases() + 7) / 8) * 256
            &&& {
                ||| msg.phases() == 0 && msg.phase_limit is Some
                ||| msg.rect.col_min > msg.rect.col_max
                ||| {
                    &&& msg.rect.col_max < 1404
                    &&& msg.rect.row_min % 8 == 0
                    &&& msg.rect.row_max % 8 == 7
                    &&& msg.buffer@.len() >= (msg.rect.col_max - msg.rect.col_min + 1) * msg.width
                    &&& {
                        ||| msg.rect.row_min > msg.rect.row_max
                        ||| msg.rect.row_max < 1872 && msg.rect.row_max - msg.rect.row_min
                            < msg.width
                    }
                }
            }
        },
{
}

} // verus!
