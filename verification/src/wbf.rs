//! WBF (waveform binary file) parser. Takes a byte slice, exposes the header
//! fields and a table decoder.
//!
//! The WBF format is a compact run-length encoding that e-paper panel firmware
//! uses to ship waveform tables, one per (mode, temperature). Each table decodes
//! to a sequence of elements of a fixed size (256 or 1024 bytes, set in the
//! header); an element holds the panel-drive command of every (src, tgt) pair
//! for one phase of the mode.
//!
//! Header layout:
//! - `0x04..0x08` (u32): file size, which must equal the slice length.
//! - `0x0e..0x10` (u16): `fpl_lot`, the panel signature.
//! - `0x20..0x23` (u24): offset of the mode table.
//! - `0x24` (u8): bits 2 and 3 hold 1 for 1024-byte elements.
//! - `0x25` (u8): largest mode index.
//! - `0x26` (u8): largest temperature index.
//! - `0x28` (u8): END marker byte.
//! - `0x29` (u8): row-toggle byte.
//! - `0x30..`: temperature boundaries, one byte per range start.
use vstd::prelude::*;

use crate::bytes::{read_le16, read_le24, read_le32};
#[allow(unused_imports)]
use crate::bytes::{law_stored_numbers_read_back, le16, le24, le32};
#[allow(unused_imports)]
use crate::text::{decimal, hexadecimal, written};
use crate::text::{push_decimal, push_hexadecimal};

verus! {

const HDR_SIZE_OFF: usize = 0x04;

const HDR_FPL_LOT_OFF: usize = 0x0e;

const HDR_MODE_OFF_OFF: usize = 0x20;

const HDR_FLAGS_OFF: usize = 0x24;

const HDR_MODE_COUNT_OFF: usize = 0x25;

const HDR_TEMP_COUNT_OFF: usize = 0x26;

const HDR_END_BYTE_OFF: usize = 0x28;

const HDR_TOGGLE_BYTE_OFF: usize = 0x29;

const HDR_TEMP_TABLE_OFF: usize = 0x30;

const HDR_MIN_SIZE: usize = 0x31;

/// Errors returned by the WBF parser.
#[derive(Debug, Clone, Copy, PartialEq, Eq, Structural)]
pub enum WbfError {
    /// The slice is shorter than the header.
    TooSmall,
    /// The file-size field differs from the slice length.
    SizeMismatch { header: u32, actual: usize },
    /// `mode` exceeds the largest mode index of the file.
    ModeOutOfRange { mode: u8, max: u8 },
    /// `temp` exceeds the largest temperature index of the file.
    TempOutOfRange { temp: u8, max: u8 },
    /// A table indirection pointer landed past the end of the file.
    OffsetOutOfBounds { offset: usize, size: usize },
}

impl WbfError {
    /// What [`WbfError::message`] says.
    pub open spec fn text(self) -> Seq<char> {
        match self {
            WbfError::TooSmall => "wbf: file smaller than header"@,
            WbfError::SizeMismatch { header, actual } => "wbf: size header "@ + decimal(
                header as nat,
            ) + " != actual "@ + decimal(actual as nat),
            WbfError::ModeOutOfRange { mode, max } => "wbf: mode "@ + decimal(mode as nat)
                + " > max "@ + decimal(max as nat),
            WbfError::TempOutOfRange { temp, max } => "wbf: temp "@ + decimal(temp as nat)
                + " > max "@ + decimal(max as nat),
            WbfError::OffsetOutOfBounds { offset, size } => "wbf: offset 0x"@ + hexadecimal(
                offset as nat,
            ) + " >= size 0x"@ + hexadecimal(size as nat),
        }
    }

    /// The error in words.
    pub fn message(&self) -> (r: String)
        ensures
            r@ == self.text(),
    {
        let mut out: String = String::new();
        match *self {
            WbfError::TooSmall => {
                out.append("wbf: file smaller than header");
            },
            WbfError::SizeMismatch { header, actual } => {
                out.append("wbf: size header ");
                push_decimal(&mut out, header as u64);
                out.append(" != actual ");
                push_decimal(&mut out, actual as u64);
            },
            WbfError::ModeOutOfRange { mode, max } => {
                out.append("wbf: mode ");
                push_decimal(&mut out, mode as u64);
                out.append(" > max ");
                push_decimal(&mut out, max as u64);
            },
            WbfError::TempOutOfRange { temp, max } => {
                out.append("wbf: temp ");
                push_decimal(&mut out, temp as u64);
                out.append(" > max ");
                push_decimal(&mut out, max as u64);
            },
            WbfError::OffsetOutOfBounds { offset, size } => {
                out.append("wbf: offset 0x");
                push_hexadecimal(&mut out, offset as u64);
                out.append(" >= size 0x");
                push_hexadecimal(&mut out, size as u64);
            },
        }
        assert(out@ =~= self.text());
        out
    }
}

/// A whole file: it holds the header, and the size field tells its length.
pub open spec fn valid_file(raw: Seq<u8>) -> bool {
    raw.len() >= 0x31 && le32(raw, 0x04) == raw.len()
}

/// The largest mode index.
pub open spec fn max_mode(raw: Seq<u8>) -> u8 {
    raw[0x25]
}

/// The largest temperature index.
pub open spec fn max_temp(raw: Seq<u8>) -> u8 {
    raw[0x26]
}

/// Bytes per element.
pub open spec fn element_bytes(raw: Seq<u8>) -> int {
    if (raw[0x24] / 4) % 4 == 1 {
        1024
    } else {
        256
    }
}

/// The header holds a boundary byte for every temperature index.
pub open spec fn has_temp_table(raw: Seq<u8>) -> bool {
    0x30 + max_temp(raw) < raw.len()
}

/// Where temperature range `i` starts; 100 behind the last range.
pub open spec fn boundary(raw: Seq<u8>, i: int) -> u8 {
    if i > max_temp(raw) {
        100
    } else {
        raw[0x30 + i]
    }
}

pub open spec fn out_of_bounds(offset: int, raw: Seq<u8>) -> WbfError {
    WbfError::OffsetOutOfBounds { offset: offset as usize, size: raw.len() as usize }
}

/// Where the table of (mode, temp) starts. The header points to the mode
/// table; its entry for the mode points to a temperature table, whose entry for
/// the temperature points to the table itself. Entries take four bytes, of which
/// the low three hold the pointer.
pub open spec fn table_start(raw: Seq<u8>, mode: u8, temp: u8) -> Result<int, WbfError> {
    let mode_entry = le24(raw, 0x20) + 4 * mode;
    let temp_entry = le24(raw, mode_entry) + 4 * temp;
    let start = le24(raw, temp_entry);
    if mode > max_mode(raw) {
        Err(WbfError::ModeOutOfRange { mode, max: max_mode(raw) })
    } else if temp > max_temp(raw) {
        Err(WbfError::TempOutOfRange { temp, max: max_temp(raw) })
    } else if mode_entry + 4 > raw.len() {
        Err(out_of_bounds(mode_entry, raw))
    } else if temp_entry + 4 > raw.len() {
        Err(out_of_bounds(temp_entry, raw))
    } else if start >= raw.len() {
        Err(out_of_bounds(start, raw))
    } else {
        Ok(start)
    }
}

/// Command `k` of the four 2-bit commands that a literal byte packs, lowest
/// bits first.
pub open spec fn packed_command(b: u8, k: int) -> u8 {
    if k == 0 {
        b % 4
    } else if k == 1 {
        (b / 4) % 4
    } else if k == 2 {
        (b / 16) % 4
    } else {
        b / 64
    }
}

/// The four commands of the literal `b`, one byte each, `n` times over.
pub open spec fn burst(b: u8, n: nat) -> Seq<u8> {
    Seq::new(4 * n, |i: int| packed_command(b, i % 4))
}

/// What the encoded bytes from `idx` on decode to, `None` when they end before
/// an END marker. A toggle byte switches between run mode (`run`), where the byte
/// behind a literal is its run length minus one, and plain mode.
pub open spec fn decoded_from(table: Seq<u8>, end: u8, toggle: u8, idx: int, run: bool) -> Option<
    Seq<u8>,
>
    decreases table.len() - idx,
{
    if idx < 0 || idx >= table.len() {
        None
    } else if table[idx] == end {
        Some(Seq::empty())
    } else if table[idx] == toggle {
        decoded_from(table, end, toggle, idx + 1, !run)
    } else if run {
        if idx + 1 >= table.len() {
            None
        } else {
            match decoded_from(table, end, toggle, idx + 2, run) {
                Some(rest) => Some(burst(table[idx], (table[idx + 1] + 1) as nat) + rest),
                None => None,
            }
        }
    } else {
        match decoded_from(table, end, toggle, idx + 1, run) {
            Some(rest) => Some(burst(table[idx], 1) + rest),
            None => None,
        }
    }
}

/// What the table that starts at `start` decodes to. A table starts in run mode.
pub open spec fn decoded_at(raw: Seq<u8>, start: int) -> Option<Seq<u8>> {
    decoded_from(raw, raw[0x28], raw[0x29], start, true)
}

/// What the table of (mode, temp) decodes to.
pub open spec fn decoded(raw: Seq<u8>, mode: u8, temp: u8) -> Seq<u8> {
    decoded_at(raw, table_start(raw, mode, temp)->Ok_0)->Some_0
}

/// The table of (mode, temp), where there is one, ends with an END marker.
pub open spec fn terminated(raw: Seq<u8>, mode: u8, temp: u8) -> bool {
    match table_start(raw, mode, temp) {
        Ok(start) => decoded_at(raw, start) is Some,
        Err(_) => true,
    }
}

/// Whatever a table decodes to, it is a list of 2-bit commands, four for each
/// literal byte.
pub proof fn law_decoded_is_commands(table: Seq<u8>, end: u8, toggle: u8, idx: int, run: bool)
    ensures
        decoded_from(table, end, toggle, idx, run) matches Some(out) ==> {
            &&& out.len() % 4 == 0
            &&& forall|i: int| 0 <= i < out.len() ==> #[trigger] out[i] < 4
        },
    decreases table.len() - idx,
{
    if idx < 0 || idx >= table.len() || table[idx] == end {
    } else if table[idx] == toggle {
        law_decoded_is_commands(table, end, toggle, idx + 1, !run);
    } else if run {
        if idx + 1 < table.len() {
            law_decoded_is_commands(table, end, toggle, idx + 2, run);
        }
    } else {
        law_decoded_is_commands(table, end, toggle, idx + 1, run);
    }
}

/// `n` is stored at `at` in three bytes, the lowest first.
pub open spec fn stores24(raw: Seq<u8>, at: int, n: int) -> bool {
    &&& 0 <= n < 0x100_0000
    &&& raw[at] == n % 0x100
    &&& raw[at + 1] == (n / 0x100) % 0x100
    &&& raw[at + 2] == n / 0x1_0000
}

/// The pointers of a file lead where they say: with `modes_at` stored at 0x20,
/// `temps_at` in entry `mode` of the table there, and `start` in entry `temp` of the
/// table at `temps_at`, the table of (mode, temp) starts at `start`. This holds of
/// every mode and temperature of the file, each with its own entry.
pub proof fn law_pointers_lead_to_the_table(
    raw: Seq<u8>,
    mode: u8,
    temp: u8,
    modes_at: int,
    temps_at: int,
    start: int,
)
    requires
        mode <= raw[0x25],
        temp <= raw[0x26],
        stores24(raw, 0x20, modes_at),
        modes_at + 4 * mode + 4 <= raw.len(),
        stores24(raw, modes_at + 4 * mode, temps_at),
        temps_at + 4 * temp + 4 <= raw.len(),
        stores24(raw, temps_at + 4 * temp, start),
        start < raw.len(),
    ensures
        table_start(raw, mode, temp) == Ok::<int, WbfError>(start),
        decoded(raw, mode, temp) == decoded_from(raw, raw[0x28], raw[0x29], start, true)->Some_0,
        terminated(raw, mode, temp) <==> decoded_from(raw, raw[0x28], raw[0x29], start, true)
            is Some,
{
    law_stored_numbers_read_back(raw, 0x20, modes_at);
    law_stored_numbers_read_back(raw, modes_at + 4 * mode, temps_at);
    law_stored_numbers_read_back(raw, temps_at + 4 * temp, start);
}

/// Why a table is not found, in this order: the mode is too large, the temperature is,
/// or one of the three pointers leads past the end of the file.
pub proof fn law_lost_tables(
    raw: Seq<u8>,
    mode: u8,
    temp: u8,
    modes_at: int,
    temps_at: int,
    start: int,
)
    requires
        raw.len() <= usize::MAX,
        stores24(raw, 0x20, modes_at),
    ensures
        mode > raw[0x25] ==> table_start(raw, mode, temp) == Err::<int, WbfError>(
            WbfError::ModeOutOfRange { mode, max: raw[0x25] },
        ),
        mode <= raw[0x25] && temp > raw[0x26] ==> table_start(raw, mode, temp) == Err::<
            int,
            WbfError,
        >(WbfError::TempOutOfRange { temp, max: raw[0x26] }),
        mode <= raw[0x25] && temp <= raw[0x26] ==> {
            &&& modes_at + 4 * mode + 4 > raw.len() ==> is_out_of_bounds(
                table_start(raw, mode, temp),
                modes_at + 4 * mode,
                raw.len() as int,
            )
            &&& modes_at + 4 * mode + 4 <= raw.len() && stores24(
                raw,
                modes_at + 4 * mode,
                temps_at,
            ) ==> {
                &&& temps_at + 4 * temp + 4 > raw.len() ==> is_out_of_bounds(
                    table_start(raw, mode, temp),
                    temps_at + 4 * temp,
                    raw.len() as int,
                )
                &&& temps_at + 4 * temp + 4 <= raw.len() && stores24(
                    raw,
                    temps_at + 4 * temp,
                    start,
                ) && start >= raw.len() ==> is_out_of_bounds(
                    table_start(raw, mode, temp),
                    start,
                    raw.len() as int,
                )
            }
        },
{
    law_stored_numbers_read_back(raw, 0x20, modes_at);
    if stores24(raw, modes_at + 4 * mode, temps_at) {
        law_stored_numbers_read_back(raw, modes_at + 4 * mode, temps_at);
    }
    if stores24(raw, temps_at + 4 * temp, start) {
        law_stored_numbers_read_back(raw, temps_at + 4 * temp, start);
    }
}

/// A table that is not found lacks no END marker: the error is reported, whatever the file
/// holds otherwise.
pub proof fn law_lost_tables_need_no_end(raw: Seq<u8>, mode: u8, temp: u8)
    requires
        table_start(raw, mode, temp) is Err,
    ensures
        terminated(raw, mode, temp),
{
}

/// What the errors say, with their numbers as digits.
pub proof fn law_error_texts(header: u32, a: u8, b: u8, offset: usize, size: usize)
    ensures
        WbfError::TooSmall.text() == "wbf: file smaller than header"@,
        (WbfError::SizeMismatch { header, actual: size }).text() == "wbf: size header "@
            + written(header as nat, 10) + " != actual "@ + written(size as nat, 10),
        (WbfError::ModeOutOfRange { mode: a, max: b }).text() == "wbf: mode "@ + written(
            a as nat,
            10,
        ) + " > max "@ + written(b as nat, 10),
        (WbfError::TempOutOfRange { temp: a, max: b }).text() == "wbf: temp "@ + written(
            a as nat,
            10,
        ) + " > max "@ + written(b as nat, 10),
        (WbfError::OffsetOutOfBounds { offset, size }).text() == "wbf: offset 0x"@ + written(
            offset as nat,
            16,
        ) + " >= size 0x"@ + written(size as nat, 16),
{
}

/// The result is the error of an offset in a file of that size.
pub open spec fn is_out_of_bounds(r: Result<int, WbfError>, at: int, len: int) -> bool {
    r matches Err(WbfError::OffsetOutOfBounds { offset, size }) && offset == at && size == len
}

/// A file is whole if the size stored at 0x04, the lowest byte first, is its length.
/// The element size is 1024 bytes exactly if bits 2 and 3 at 0x24 hold 1.
pub proof fn law_header_fields(raw: Seq<u8>, size: int)
    requires
        raw.len() >= 0x31,
        0 <= size < 0x1_0000_0000,
        raw[4] == size % 0x100,
        raw[5] == (size / 0x100) % 0x100,
        raw[6] == (size / 0x1_0000) % 0x100,
        raw[7] == size / 0x100_0000,
    ensures
        valid_file(raw) <==> size == raw.len(),
        element_bytes(raw) == if raw[0x24] & 0x0c == 4 {
            1024int
        } else {
            256
        },
        forall|i: int| 0 <= i <= raw[0x26] ==> #[trigger] boundary(raw, i) == raw[0x30 + i],
        forall|i: int| i > raw[0x26] ==> #[trigger] boundary(raw, i) == 100,
        has_temp_table(raw) <==> 0x30 + raw[0x26] < raw.len(),
{
    law_stored_numbers_read_back(raw, 4, size);
    let flags = raw[0x24];
    assert((flags / 4) % 4 == 1 <==> flags & 0x0c == 4) by (bit_vector);
}

proof fn lemma_command_bits(b: u8)
    by (bit_vector)
    ensures
        b % 4 == b & 3,
        (b / 4) % 4 == (b >> 2) & 3,
        (b / 16) % 4 == (b >> 4) & 3,
        b / 64 == (b >> 6) & 3,
        b >> 0 == b,
{
}

/// The commands of a literal byte repeated `n` times: its four pairs of bits, the lowest
/// first.
pub proof fn law_literal_bits(b: u8, n: nat, i: int)
    requires
        0 <= i < 4 * n,
    ensures
        burst(b, n).len() == 4 * n,
        burst(b, n)[i] == (b >> (2 * (i % 4))) & 3,
{
    lemma_command_bits(b);
}

/// What decoding does at one byte. The END marker ends it; the toggle byte switches the
/// mode; in run mode a literal and its count give four commands count plus one times;
/// in plain mode a literal gives its four commands once. Without an END marker there is
/// no result.
pub proof fn law_decoding_step(table: Seq<u8>, end: u8, toggle: u8, idx: int, run: bool)
    requires
        0 <= idx,
    ensures
        ({
            let out = decoded_from(table, end, toggle, idx, run);
            &&& idx >= table.len() ==> out is None
            &&& idx < table.len() && table[idx] == end ==> out == Some(Seq::<u8>::empty())
            &&& idx < table.len() && table[idx] != end && table[idx] == toggle ==> out
                == decoded_from(table, end, toggle, idx + 1, !run)
            &&& idx < table.len() && table[idx] != end && table[idx] != toggle ==> {
                let next = if run {
                    idx + 2
                } else {
                    idx + 1
                };
                let commands = if run {
                    4 * (table[idx + 1] + 1)
                } else {
                    4
                };
                let rest = decoded_from(table, end, toggle, next, run);
                &&& out is Some <==> next <= table.len() && rest is Some
                &&& out is Some ==> {
                    &&& out->Some_0.len() == commands + rest->Some_0.len()
                    &&& out->Some_0.skip(commands) == rest->Some_0
                    &&& forall|i: int|
                        0 <= i < commands ==> #[trigger] out->Some_0[i] == (table[idx] >> (2 * (i
                            % 4))) & 3
                }
            }
        }),
{
    if idx < table.len() && table[idx] != end && table[idx] != toggle {
        let out = decoded_from(table, end, toggle, idx, run);
        let n = if run {
            (table[idx + 1] + 1) as nat
        } else {
            1
        };
        let next = if run {
            idx + 2
        } else {
            idx + 1
        };
        let rest = decoded_from(table, end, toggle, next, run);
        if out is Some {
            assert forall|i: int| 0 <= i < 4 * n implies #[trigger] out->Some_0[i] == (table[idx]
                >> (2 * (i % 4))) & 3 by {
                law_literal_bits(table[idx], n, i);
            }
            assert(out->Some_0.skip(4 * n as int) =~= rest->Some_0);
        }
    }
}

/// Runs, as a table stores them: each literal is followed by its count less one.
pub open spec fn stored_runs(runs: Seq<(u8, int)>) -> Seq<u8>
    decreases runs.len(),
{
    if runs.len() == 0 {
        Seq::empty()
    } else {
        seq![runs[0].0, (runs[0].1 - 1) as u8] + stored_runs(runs.drop_first())
    }
}

/// The commands that runs stand for.
pub open spec fn run_commands(runs: Seq<(u8, int)>) -> Seq<u8>
    decreases runs.len(),
{
    if runs.len() == 0 {
        Seq::empty()
    } else {
        Seq::new((4 * runs[0].1) as nat, |i: int| (runs[0].0 >> (2 * (i % 4))) & 3) + run_commands(
            runs.drop_first(),
        )
    }
}

/// Runs that are stored in a table, with an END marker behind them, decode to their
/// commands, whatever is around them.
pub proof fn law_runs_read_back(
    before: Seq<u8>,
    runs: Seq<(u8, int)>,
    after: Seq<u8>,
    end: u8,
    toggle: u8,
)
    requires
        forall|k: int|
            0 <= k < runs.len() ==> (#[trigger] runs[k]).0 != end && runs[k].0 != toggle && 1
                <= runs[k].1 <= 256,
    ensures
        decoded_from(
            before + stored_runs(runs) + seq![end] + after,
            end,
            toggle,
            before.len() as int,
            true,
        ) == Some(run_commands(runs)),
    decreases runs.len(),
{
    let table = before + stored_runs(runs) + seq![end] + after;
    let idx = before.len() as int;
    if runs.len() == 0 {
        assert(table[idx] == end);
    } else {
        let rest = runs.drop_first();
        let head = seq![runs[0].0, (runs[0].1 - 1) as u8];
        law_runs_read_back(before + head, rest, after, end, toggle);
        assert(before + head + stored_runs(rest) + seq![end] + after =~= table);
        assert(table[idx] == runs[0].0);
        assert(table[idx + 1] == runs[0].1 - 1);
        law_decoding_step(table, end, toggle, idx, true);
        let out = decoded_from(table, end, toggle, idx, true)->Some_0;
        assert(out =~= run_commands(runs)) by {
            let commands = 4 * runs[0].1;
            assert forall|i: int| commands <= i < out.len() implies out[i] == run_commands(runs)[i] by {
                assert(out[i] == out.skip(commands)[i - commands]);
            }
        }
    }
}

/// Literals that are stored behind a toggle byte, with an END marker behind them, decode
/// to their commands, whatever is around them.
pub proof fn law_literals_read_back(
    before: Seq<u8>,
    literals: Seq<u8>,
    after: Seq<u8>,
    end: u8,
    toggle: u8,
)
    requires
        end != toggle,
        forall|k: int|
            0 <= k < literals.len() ==> #[trigger] literals[k] != end && literals[k] != toggle,
    ensures
        decoded_from(
            before + seq![toggle] + literals + seq![end] + after,
            end,
            toggle,
            before.len() as int,
            true,
        ) == Some(
            Seq::new(4 * literals.len(), |i: int| (literals[i / 4] >> (2 * (i % 4))) & 3),
        ),
{
    lemma_literals(before + seq![toggle], literals, after, end, toggle);
    let table = before + seq![toggle] + literals + seq![end] + after;
    law_decoding_step(table, end, toggle, before.len() as int, true);
}

proof fn lemma_literals(
    before: Seq<u8>,
    literals: Seq<u8>,
    after: Seq<u8>,
    end: u8,
    toggle: u8,
)
    requires
        forall|k: int|
            0 <= k < literals.len() ==> #[trigger] literals[k] != end && literals[k] != toggle,
    ensures
        decoded_from(
            before + literals + seq![end] + after,
            end,
            toggle,
            before.len() as int,
            false,
        ) == Some(
            Seq::new(4 * literals.len(), |i: int| (literals[i / 4] >> (2 * (i % 4))) & 3),
        ),
    decreases literals.len(),
{
    let table = before + literals + seq![end] + after;
    let idx = before.len() as int;
    let want = Seq::new(4 * literals.len(), |i: int| (literals[i / 4] >> (2 * (i % 4))) & 3);
    if literals.len() == 0 {
        assert(table[idx] == end);
        assert(want =~= Seq::empty());
    } else {
        let rest = literals.drop_first();
        lemma_literals(before + seq![literals[0]], rest, after, end, toggle);
        assert(before + seq![literals[0]] + rest + seq![end] + after =~= table);
        assert(table[idx] == literals[0]);
        law_decoding_step(table, end, toggle, idx, false);
        let out = decoded_from(table, end, toggle, idx, false)->Some_0;
        assert forall|i: int| 0 <= i < want.len() implies out[i] == want[i] by {
            if i >= 4 {
                assert(out[i] == out.skip(4)[i - 4]);
                assert((i - 4) / 4 == i / 4 - 1);
                assert(rest[i / 4 - 1] == literals[i / 4]);
            }
        }
        assert(out =~= want);
    }
}

/// A parsed WBF file, borrowed from the bytes that hold it.
#[derive(Debug, Clone, Copy)]
pub struct Wbf<'a> {
    raw: &'a [u8],
}

impl<'a> View for Wbf<'a> {
    type V = Seq<u8>;

    closed spec fn view(&self) -> Seq<u8> {
        self.raw@
    }
}

impl<'a> Wbf<'a> {
    #[verifier::type_invariant]
    spec fn inv(self) -> bool {
        valid_file(self.raw@)
    }

    /// Checks the length of `raw` and its size field, and returns a parsed view.
    pub fn parse(raw: &'a [u8]) -> (r: Result<Self, WbfError>)
        ensures
            raw@.len() < 0x31 <==> r == Err::<Self, WbfError>(WbfError::TooSmall),
            raw@.len() >= 0x31 && le32(raw@, 0x04) != raw@.len() <==> r == Err::<Self, WbfError>(
                WbfError::SizeMismatch { header: le32(raw@, 0x04) as u32, actual: raw@.len() as usize },
            ),
            valid_file(raw@) <==> r is Ok,
            r matches Ok(wbf) ==> wbf@ == raw@,
    {
        if raw.len() < HDR_MIN_SIZE {
            return Err(WbfError::TooSmall);
        }
        let header: u32 = read_le32(raw, HDR_SIZE_OFF);
        if header as u64 != raw.len() as u64 {
            return Err(WbfError::SizeMismatch { header, actual: raw.len() });
        }
        Ok(Self { raw })
    }

    /// The panel signature, by which a file is matched to a panel.
    pub fn fpl_lot(&self) -> (r: u16)
        ensures
            r == le16(self@, 0x0e),
    {
        proof {
            use_type_invariant(self);
        }
        read_le16(self.raw, HDR_FPL_LOT_OFF)
    }

    /// The largest mode index; there are `mode_count() + 1` modes.
    pub fn mode_count(&self) -> (r: u8)
        ensures
            r == max_mode(self@),
            r == self@[0x25],
    {
        proof {
            use_type_invariant(self);
        }
        self.raw[HDR_MODE_COUNT_OFF]
    }

    /// The largest temperature index; there are `temp_count() + 1` ranges.
    pub fn temp_count(&self) -> (r: u8)
        ensures
            r == max_temp(self@),
            r == self@[0x26],
    {
        proof {
            use_type_invariant(self);
        }
        self.raw[HDR_TEMP_COUNT_OFF]
    }

    /// Element size in bytes: 256 or 1024, as the header flags say.
    pub fn element_size(&self) -> (r: usize)
        ensures
            r == element_bytes(self@),
            r == 256 || r == 1024,
    {
        proof {
            use_type_invariant(self);
        }
        if (self.raw[HDR_FLAGS_OFF] / 4) % 4 == 1 {
            1024
        } else {
            256
        }
    }

    /// Whether the header has room for the boundary of every temperature index,
    /// as `temp_boundary` needs it.
    pub fn temp_table_fits(&self) -> (r: bool)
        ensures
            r == has_temp_table(self@),
    {
        proof {
            use_type_invariant(self);
        }
        HDR_TEMP_TABLE_OFF + (self.temp_count() as usize) < self.raw.len()
    }

    /// Inclusive temperature boundary of range `i`. The last range extends to
    /// 100 degrees by convention.
    pub fn temp_boundary(&self, i: u8) -> (r: u8)
        requires
            i <= max_temp(self@) ==> 0x30 + i < self@.len(),
        ensures
            r == boundary(self@, i as int),
            r == if i > self@[0x26] {
                100
            } else {
                self@[0x30 + i]
            },
    {
        if i > self.temp_count() {
            100
        } else {
            self.raw[HDR_TEMP_TABLE_OFF + i as usize]
        }
    }

    /// The END marker byte.
    pub fn end_byte(&self) -> (r: u8)
        ensures
            r == self@[0x28],
    {
        proof {
            use_type_invariant(self);
        }
        self.raw[HDR_END_BYTE_OFF]
    }

    /// The row-toggle byte.
    pub fn toggle_byte(&self) -> (r: u8)
        ensures
            r == self@[0x29],
    {
        proof {
            use_type_invariant(self);
        }
        self.raw[HDR_TOGGLE_BYTE_OFF]
    }

    /// Resolves (mode, temp) to a table offset through the two-level indirection.
    pub fn table_offset(&self, mode: u8, temp: u8) -> (r: Result<usize, WbfError>)
        ensures
            table_start(self@, mode, temp) matches Err(e) ==> r == Err::<usize, WbfError>(e),
            table_start(self@, mode, temp) matches Ok(start) ==> {
                &&& r == Ok::<usize, WbfError>(start as usize)
                &&& 0 <= start < self@.len()
            },
    {
        proof {
            use_type_invariant(self);
        }
        if mode > self.mode_count() {
            return Err(WbfError::ModeOutOfRange { mode, max: self.mode_count() });
        }
        if temp > self.temp_count() {
            return Err(WbfError::TempOutOfRange { temp, max: self.temp_count() });
        }
        let size: usize = self.raw.len();
        let mode_entry: usize = read_le24(self.raw, HDR_MODE_OFF_OFF) as usize + 4 * (mode as usize);
        if size < 4 || mode_entry > size - 4 {
            return Err(WbfError::OffsetOutOfBounds { offset: mode_entry, size });
        }
        let temp_entry: usize = read_le24(self.raw, mode_entry) as usize + 4 * (temp as usize);
        if temp_entry > size - 4 {
            return Err(WbfError::OffsetOutOfBounds { offset: temp_entry, size });
        }
        let start: usize = read_le24(self.raw, temp_entry) as usize;
        if start >= size {
            return Err(WbfError::OffsetOutOfBounds { offset: start, size });
        }
        Ok(start)
    }

    /// Whether the table of (mode, temp), where there is one, has an END marker,
    /// as `decode_table` needs it.
    pub fn is_terminated(&self, mode: u8, temp: u8) -> (r: bool)
        ensures
            r == terminated(self@, mode, temp),
    {
        let mut idx: usize = match self.table_offset(mode, temp) {
            Ok(start) => start,
            Err(_) => return true,
        };
        let end_byte: u8 = self.end_byte();
        let toggle_byte: u8 = self.toggle_byte();
        let ghost start = idx as int;
        let mut run: bool = true;
        while idx < self.raw.len()
            invariant
                idx <= self.raw@.len(),
                decoded_from(self.raw@, end_byte, toggle_byte, idx as int, run) is Some
                    <==> decoded_from(self.raw@, end_byte, toggle_byte, start, true) is Some,
                self@ == self.raw@,
                table_start(self@, mode, temp) == Ok::<int, WbfError>(start),
                end_byte == self@[0x28],
                toggle_byte == self@[0x29],
            decreases self.raw@.len() - idx,
        {
            let elem: u8 = self.raw[idx];
            if elem == end_byte {
                return true;
            }
            if elem == toggle_byte {
                run = !run;
                idx += 1;
            } else if !run {
                idx += 1;
            } else if self.raw.len() - idx < 2 {
                return false;
            } else {
                idx += 2;
            }
        }
        false
    }

    /// Decodes the table of (mode, temp).
    ///
    /// The encoded form mixes literal bytes (each packs four 2-bit commands) with
    /// two control bytes: END terminates the table, and TOGGLE switches between
    /// run mode and plain mode. In run mode a literal is followed by its run
    /// length minus one. The output has one byte per command, lowest bits of a
    /// literal first, repeated as the run length says.
    pub fn decode_table(&self, mode: u8, temp: u8) -> (r: Result<Vec<u8>, WbfError>)
        requires
            terminated(self@, mode, temp),
        ensures
            table_start(self@, mode, temp) matches Err(e) ==> r == Err::<Vec<u8>, WbfError>(e),
            table_start(self@, mode, temp) is Ok ==> {
                &&& r matches Ok(out)
                &&& out@ == decoded(self@, mode, temp)
            },
    {
        let mut idx: usize = match self.table_offset(mode, temp) {
            Ok(start) => start,
            Err(e) => return Err(e),
        };
        let end_byte: u8 = self.end_byte();
        let toggle_byte: u8 = self.toggle_byte();
        let ghost whole = decoded(self@, mode, temp);
        let mut out: Vec<u8> = Vec::new();
        let mut run: bool = true;
        assert(out@ + whole =~= whole);
        while self.raw[idx] != end_byte
            invariant
                idx < self.raw@.len(),
                decoded_from(self.raw@, end_byte, toggle_byte, idx as int, run) is Some,
                out@ + decoded_from(self.raw@, end_byte, toggle_byte, idx as int, run)->Some_0
                    == whole,
            decreases self.raw@.len() - idx,
        {
            let elem: u8 = self.raw[idx];
            let ghost rest = decoded_from(self.raw@, end_byte, toggle_byte, idx as int, run)->Some_0;
            if elem == toggle_byte {
                run = !run;
                idx += 1;
                continue;
            }
            let length: usize = if run {
                self.raw[idx + 1] as usize + 1
            } else {
                1
            };
            let ghost before = out@;
            let mut k: usize = 0;
            while k < length
                invariant
                    k <= length,
                    out@ =~= before + burst(elem, k as nat),
                decreases length - k,
            {
                out.push(elem % 4);
                out.push((elem / 4) % 4);
                out.push((elem / 16) % 4);
                out.push(elem / 64);
                k += 1;
            }
            idx += if run {
                2
            } else {
                1
            };
            assert(out@ + decoded_from(
                self.raw@,
                end_byte,
                toggle_byte,
                idx as int,
                run,
            )->Some_0 =~= before + rest);
        }
        assert(out@ =~= whole);
        Ok(out)
    }
}

} // verus!
