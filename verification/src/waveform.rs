//! Waveform-pack assembly.
//!
//! Builds the packed tables, one per (mode, temperature), that
//! [`crate::strip_encoder`] consumes, from a parsed [`Wbf`].
//!
//! A [`PhaseTable`] has one row of 256 entries for every 8 phases. Entry
//! `src * 16 + tgt` of a row packs the 2-bit panel-drive commands of that pixel
//! pair for the 8 phases, the first in the lowest bits.
use std::sync::Arc;

use vstd::prelude::*;

#[allow(unused_imports)]
use crate::strip_encoder::lane_cmd;
#[allow(unused_imports)]
use crate::wbf::{
    boundary, decoded, element_bytes, has_temp_table, max_temp, table_start, terminated,
};
use crate::wbf::{Wbf, WbfError};

verus! {

/// INIT pan codes for one temperature, indexed by phase: the first byte of each
/// element of the mode-0 table.
#[derive(Debug, Clone)]
pub struct InitPhases {
    /// Pan code per phase; the low 4 bits name the slot to pan to.
    pub pan_codes: Vec<u8>,
}

/// Packed phase table, as the strip encoder reads it.
#[derive(Debug, Clone)]
pub struct PhaseTable {
    /// Number of phases of this (mode, temperature).
    pub phase_count: u32,
    /// One row of 256 entries for every 8 phases.
    pub data: Vec<u16>,
}

/// One mode's tables, one [`PhaseTable`] per temperature index. They are shared
/// with the update messages that use them.
#[derive(Debug, Clone)]
pub struct ModeWaveform {
    /// Full-refresh tables: they drive every (src, tgt) pair.
    pub full: Vec<Arc<PhaseTable>>,
    /// Partial-refresh tables. With a separate partial, the diagonal entries
    /// (`src == tgt`) are zero, so that unchanged pixels are not driven; otherwise
    /// they equal `full`.
    pub partial: Vec<Arc<PhaseTable>>,
}

/// A request for one mode of a WBF file.
#[derive(Debug, Clone, Copy, PartialEq, Eq, Structural)]
pub struct WbfMode {
    pub mode: u8,
    pub separate_partial: bool,
    pub skip_init: bool,
}

/// Top-level waveform pack, built by [`WaveformPack::from_wbf`].
#[derive(Debug, Clone)]
pub struct WaveformPack {
    /// Bounds in degrees Celsius per temperature index. The last range extends
    /// to 100 by convention.
    pub temp_ranges: Vec<(u8, u8)>,
    /// INIT pan codes per temperature index.
    pub init: Vec<InitPhases>,
    /// Mode tables, in the order of the requests.
    pub modes: Vec<ModeWaveform>,
}

// ---------------------------------------------------------------------------
// What the tables hold
// ---------------------------------------------------------------------------

/// Number of elements of a decoded table, as a 32-bit count.
pub open spec fn element_count(table: Seq<u8>, elem: int) -> int {
    (table.len() as int / elem) % 0x1_0000_0000
}

/// Where the byte of a pixel pair lies within an element.
pub open spec fn pair_offset(elem: int, src: int, tgt: int) -> int {
    if elem == 1024 {
        src * 2 + tgt * 64
    } else {
        src + tgt * 16
    }
}

/// The commands that a decoded table holds for a pixel pair, one per element.
pub open spec fn pair_cmds(table: Seq<u8>, elem: int, src: int, tgt: int) -> Seq<u16> {
    Seq::new(
        element_count(table, elem) as nat,
        |i: int| (table[i * elem + pair_offset(elem, src, tgt)] % 4) as u16,
    )
}

/// Index of the first command other than 0; the length where there is none.
pub open spec fn first_drive(cmds: Seq<u16>) -> int
    decreases cmds.len(),
{
    if cmds.len() == 0 || cmds[0] != 0 {
        0
    } else {
        1 + first_drive(cmds.drop_first())
    }
}

/// The commands that go into the packed table: all of them, or those from the
/// first drive on.
pub open spec fn recorded(cmds: Seq<u16>, skip_init: bool) -> Seq<u16> {
    if skip_init {
        cmds.skip(first_drive(cmds))
    } else {
        cmds
    }
}

/// Command `phase` of a list that is continued with zeros.
pub open spec fn cmd_at(cmds: Seq<u16>, phase: int) -> u16 {
    if 0 <= phase < cmds.len() {
        cmds[phase]
    } else {
        0
    }
}

/// The command that packed table data holds for a pixel pair at a phase.
pub open spec fn phase_cmd(data: Seq<u16>, phase: int, src: int, tgt: int) -> u16 {
    lane_cmd(data[(phase / 8) * 256 + src * 16 + tgt], (phase % 8) as u32)
}

/// Number of rows for `phases` phases.
pub open spec fn phase_rows(phases: int) -> int {
    (phases + 7) / 8
}

/// `data` holds the commands of `table`, phase by phase, for every pixel pair.
pub open spec fn holds_commands(data: Seq<u16>, table: Seq<u8>, elem: int, skip_init: bool) -> bool {
    &&& data.len() == phase_rows(element_count(table, elem)) * 256
    &&& forall|phase: int, src: int, tgt: int|
        0 <= phase < phase_rows(element_count(table, elem)) * 8 && 0 <= src < 16 && 0 <= tgt < 16
            ==> #[trigger] phase_cmd(data, phase, src, tgt) == cmd_at(
            recorded(pair_cmds(table, elem, src, tgt), skip_init),
            phase,
        )
}

/// `t` is the full-refresh table of the decoded `table`.
pub open spec fn is_full_table(t: PhaseTable, table: Seq<u8>, elem: int, skip_init: bool) -> bool {
    &&& t.phase_count == element_count(table, elem)
    &&& holds_commands(t.data@, table, elem, skip_init)
}

/// Table data with every diagonal entry zeroed.
pub open spec fn without_diagonal(data: Seq<u16>) -> Seq<u16> {
    Seq::new(
        data.len(),
        |i: int|
            if (i % 256) / 16 == i % 16 {
                0
            } else {
                data[i]
            },
    )
}

/// `t` is the partial-refresh table that goes with `full`.
pub open spec fn is_partial_table(t: PhaseTable, full: PhaseTable, separate: bool) -> bool {
    &&& t.phase_count == full.phase_count
    &&& t.data@ == if separate {
        without_diagonal(full.data@)
    } else {
        full.data@
    }
}

/// `mw` is the waveform of the requested mode: a full and a partial table for
/// every temperature index.
pub open spec fn is_mode_waveform(mw: ModeWaveform, raw: Seq<u8>, request: WbfMode) -> bool {
    &&& mw.full@.len() == max_temp(raw) + 1
    &&& mw.partial@.len() == max_temp(raw) + 1
    &&& forall|t: int|
        0 <= t <= max_temp(raw) ==> is_full_table(
            *(#[trigger] mw.full@[t]),
            decoded(raw, request.mode, t as u8),
            element_bytes(raw),
            request.skip_init,
        )
    &&& forall|t: int|
        0 <= t <= max_temp(raw) ==> is_partial_table(
            *(#[trigger] mw.partial@[t]),
            *mw.full@[t],
            request.separate_partial,
        )
}

/// The first byte of every element.
pub open spec fn init_codes(table: Seq<u8>, elem: int) -> Seq<u8> {
    Seq::new((table.len() as int / elem) as nat, |i: int| table[i * elem])
}

/// `init` holds the INIT pan codes of every temperature index.
pub open spec fn is_init_table(init: Seq<InitPhases>, raw: Seq<u8>) -> bool {
    &&& init.len() == max_temp(raw) + 1
    &&& forall|t: int|
        0 <= t <= max_temp(raw) ==> (#[trigger] init[t]).pan_codes@ == init_codes(
            decoded(raw, 0, t as u8),
            element_bytes(raw),
        )
}

/// `ranges` holds the bounds of every temperature index.
pub open spec fn is_temp_ranges(ranges: Seq<(u8, u8)>, raw: Seq<u8>) -> bool {
    ranges =~= Seq::new(
        (max_temp(raw) + 1) as nat,
        |t: int| (boundary(raw, t), boundary(raw, t + 1)),
    )
}

/// `pack` is the waveform pack of a file for the requested modes.
pub open spec fn is_pack(pack: WaveformPack, raw: Seq<u8>, requests: Seq<WbfMode>) -> bool {
    &&& is_temp_ranges(pack.temp_ranges@, raw)
    &&& is_init_table(pack.init@, raw)
    &&& pack.modes@.len() == requests.len()
    &&& forall|k: int|
        0 <= k < requests.len() ==> is_mode_waveform(#[trigger] pack.modes@[k], raw, requests[k])
}

// ---------------------------------------------------------------------------
// Which files a pack can be built from
// ---------------------------------------------------------------------------

/// The first error among the tables of `mode`, from temperature `temp` on.
pub open spec fn mode_error(raw: Seq<u8>, mode: u8, temp: int) -> Option<WbfError>
    decreases max_temp(raw) + 1 - temp,
{
    if temp > max_temp(raw) {
        None
    } else {
        match table_start(raw, mode, temp as u8) {
            Err(e) => Some(e),
            Ok(_) => mode_error(raw, mode, temp + 1),
        }
    }
}

/// Every table of `mode` that is read before the first error, from temperature
/// `temp` on, has an END marker.
pub open spec fn mode_terminated(raw: Seq<u8>, mode: u8, temp: int) -> bool
    decreases max_temp(raw) + 1 - temp,
{
    temp > max_temp(raw) || {
        &&& terminated(raw, mode, temp as u8)
        &&& table_start(raw, mode, temp as u8) is Ok ==> mode_terminated(raw, mode, temp + 1)
    }
}

/// The first error among the tables of the requests from `k` on.
pub open spec fn requests_error(raw: Seq<u8>, requests: Seq<WbfMode>, k: int) -> Option<WbfError>
    decreases requests.len() - k,
{
    if k >= requests.len() {
        None
    } else {
        match mode_error(raw, requests[k].mode, 0) {
            Some(e) => Some(e),
            None => requests_error(raw, requests, k + 1),
        }
    }
}

/// Every table of the requests from `k` on that is read before the first error
/// has an END marker.
pub open spec fn requests_terminated(raw: Seq<u8>, requests: Seq<WbfMode>, k: int) -> bool
    decreases requests.len() - k,
{
    k >= requests.len() || {
        &&& mode_terminated(raw, requests[k].mode, 0)
        &&& mode_error(raw, requests[k].mode, 0) is None ==> requests_terminated(
            raw,
            requests,
            k + 1,
        )
    }
}

/// The error with which building a pack ends, `None` where it succeeds. The INIT
/// tables (mode 0) come first, then the requests in order.
pub open spec fn pack_error(raw: Seq<u8>, requests: Seq<WbfMode>) -> Option<WbfError> {
    match mode_error(raw, 0, 0) {
        Some(e) => Some(e),
        None => requests_error(raw, requests, 0),
    }
}

/// The file holds all that building a pack reads: the boundary of every
/// temperature, and an END marker for every table.
pub open spec fn pack_readable(raw: Seq<u8>, requests: Seq<WbfMode>) -> bool {
    &&& has_temp_table(raw)
    &&& mode_terminated(raw, 0, 0)
    &&& mode_error(raw, 0, 0) is None ==> requests_terminated(raw, requests, 0)
}

// ---------------------------------------------------------------------------
// Laws
// ---------------------------------------------------------------------------

/// In a mode with a separate partial, the partial table drives no unchanged
/// pixel, and drives every changed one just as the full table does.
pub proof fn law_partial_zeroes_the_diagonal(
    mw: ModeWaveform,
    raw: Seq<u8>,
    request: WbfMode,
    temp: int,
    phase: int,
    src: int,
    tgt: int,
)
    requires
        is_mode_waveform(mw, raw, request),
        request.separate_partial,
        0 <= temp <= max_temp(raw),
        0 <= phase < phase_rows(mw.full@[temp].phase_count as int) * 8,
        0 <= src < 16,
        0 <= tgt < 16,
    ensures
        phase_cmd(mw.partial@[temp].data@, phase, src, tgt) == if src == tgt {
            0
        } else {
            phase_cmd(mw.full@[temp].data@, phase, src, tgt)
        },
{
    lemma_zero_lanes((phase % 8) as u32);
    assert(is_full_table(
        *mw.full@[temp],
        decoded(raw, request.mode, temp as u8),
        element_bytes(raw),
        request.skip_init,
    ));
    assert(is_partial_table(*mw.partial@[temp], *mw.full@[temp], true));
    let i = (phase / 8) * 256 + src * 16 + tgt;
    assert(i % 256 == src * 16 + tgt);
    assert((i % 256) / 16 == src);
    assert(i % 16 == tgt);
}

/// Without a separate partial, the partial table is the full table.
pub proof fn law_partial_equals_full(mw: ModeWaveform, raw: Seq<u8>, request: WbfMode, temp: int)
    requires
        is_mode_waveform(mw, raw, request),
        !request.separate_partial,
        0 <= temp <= max_temp(raw),
    ensures
        mw.partial@[temp].data@ == mw.full@[temp].data@,
        mw.partial@[temp].phase_count == mw.full@[temp].phase_count,
{
    assert(is_partial_table(*mw.partial@[temp], *mw.full@[temp], false));
}

/// Temperature ranges join: each starts where the one before it ends, and the
/// last ends at 100.
pub proof fn law_temp_ranges_join(ranges: Seq<(u8, u8)>, raw: Seq<u8>)
    requires
        is_temp_ranges(ranges, raw),
    ensures
        forall|t: int| 0 < t < ranges.len() ==> (#[trigger] ranges[t]).0 == ranges[t - 1].1,
        ranges.last().1 == 100,
{
}

/// Skipping the leading phases drops commands that are 0 and nothing else: what
/// is recorded starts with a drive, or is empty.
pub proof fn law_skip_init_drops_only_zeros(cmds: Seq<u16>)
    ensures
        0 <= first_drive(cmds) <= cmds.len(),
        forall|j: int| 0 <= j < first_drive(cmds) ==> #[trigger] cmds[j] == 0,
        recorded(cmds, true).len() > 0 ==> recorded(cmds, true)[0] != 0,
    decreases cmds.len(),
{
    if cmds.len() > 0 && cmds[0] == 0 {
        let rest = cmds.drop_first();
        law_skip_init_drops_only_zeros(rest);
        assert forall|j: int| 0 <= j < first_drive(cmds) implies #[trigger] cmds[j] == 0 by {
            if j > 0 {
                assert(cmds[j] == rest[j - 1]);
            }
        }
        if first_drive(cmds) < cmds.len() {
            assert(recorded(rest, true)[0] == cmds[first_drive(cmds)]);
        }
    }
}

/// Number of bytes per element of a file: 1024 if bits 2 and 3 of its flags hold 1, and
/// 256 otherwise.
pub open spec fn flagged_element(flags: u8) -> int {
    if (flags / 4) % 4 == 1 {
        1024
    } else {
        256
    }
}

/// A full table holds, for every phase and every pixel pair, the command that the decoded
/// table holds in its element of that phase: at byte `src + 16 * tgt` of a 256-byte
/// element, and at byte `2 * src + 64 * tgt` of a 1024-byte one. It is packed in rows of
/// 256 entries, `16 * src + tgt` within a row, with 8 phases per entry, the first in the
/// lowest bits; what is left of the last row is 0.
pub proof fn law_full_table_holds_every_command(
    mw: ModeWaveform,
    raw: Seq<u8>,
    request: WbfMode,
    temp: int,
    phase: int,
    src: int,
    tgt: int,
)
    requires
        is_mode_waveform(mw, raw, request),
        !request.skip_init,
        0 <= temp <= raw[0x26],
        0 <= phase < ((mw.full@[temp].phase_count + 7) / 8) * 8,
        0 <= src < 16,
        0 <= tgt < 16,
    ensures
        mw.full@.len() == raw[0x26] + 1,
        ({
            let full = mw.full@[temp];
            let table = decoded(raw, request.mode, temp as u8);
            let elem = flagged_element(raw[0x24]);
            let entry = full.data@[(phase / 8) * 256 + 16 * src + tgt];
            let cmd = (entry >> ((phase % 8) * 2)) & 3;
            &&& full.data@.len() == ((full.phase_count + 7) / 8) * 256
            &&& table.len() as int / elem < 0x1_0000_0000 ==> full.phase_count == table.len() as int
                / elem
            &&& phase < full.phase_count && elem == 256 ==> cmd == table[256 * phase + src + 16
                * tgt] % 4
            &&& phase < full.phase_count && elem == 1024 ==> cmd == table[1024 * phase + 2 * src
                + 64 * tgt] % 4
            &&& phase >= full.phase_count ==> cmd == 0
        }),
{
    let full = mw.full@[temp];
    let table = decoded(raw, request.mode, temp as u8);
    let elem = element_bytes(raw);
    assert(is_full_table(*full, table, elem, false));
    assert(phase_cmd(full.data@, phase, src, tgt) == cmd_at(pair_cmds(table, elem, src, tgt), phase));
}

/// A partial table has the entries of the full table, except that with a separate
/// partial those of equal source and target are 0.
pub proof fn law_partial_table_entries(
    mw: ModeWaveform,
    raw: Seq<u8>,
    request: WbfMode,
    temp: int,
    row: int,
    src: int,
    tgt: int,
)
    requires
        is_mode_waveform(mw, raw, request),
        0 <= temp <= raw[0x26],
        0 <= row,
        row * 256 + 256 <= mw.full@[temp].data@.len(),
        0 <= src < 16,
        0 <= tgt < 16,
    ensures
        mw.partial@.len() == raw[0x26] + 1,
        mw.partial@[temp].phase_count == mw.full@[temp].phase_count,
        mw.partial@[temp].data@.len() == mw.full@[temp].data@.len(),
        mw.partial@[temp].data@[row * 256 + 16 * src + tgt] == if request.separate_partial && src
            == tgt {
            0
        } else {
            mw.full@[temp].data@[row * 256 + 16 * src + tgt]
        },
{
    assert(is_partial_table(*mw.partial@[temp], *mw.full@[temp], request.separate_partial));
    let i = row * 256 + 16 * src + tgt;
    assert(i % 256 == 16 * src + tgt);
    assert((i % 256) / 16 == src);
    assert(i % 16 == tgt);
}

/// A pack has the boundaries of the file, each range up to the start of the next and the
/// last up to 100; the first byte of every element of the INIT tables; and a waveform for
/// every request, in their order.
pub proof fn law_pack_reflects_the_file(
    pack: WaveformPack,
    raw: Seq<u8>,
    requests: Seq<WbfMode>,
    temp: int,
)
    requires
        is_pack(pack, raw, requests),
        0 <= temp <= raw[0x26],
    ensures
        pack.temp_ranges@.len() == raw[0x26] + 1,
        pack.temp_ranges@[temp].0 == raw[0x30 + temp],
        pack.temp_ranges@[temp].1 == if temp == raw[0x26] {
            100
        } else {
            raw[0x31 + temp]
        },
        pack.init@.len() == raw[0x26] + 1,
        ({
            let codes = pack.init@[temp].pan_codes@;
            let table = decoded(raw, 0, temp as u8);
            let elem = flagged_element(raw[0x24]);
            &&& codes.len() == table.len() as int / elem
            &&& forall|i: int| 0 <= i < codes.len() ==> #[trigger] codes[i] == table[i * elem]
        }),
        pack.modes@.len() == requests.len(),
        forall|k: int|
            0 <= k < requests.len() ==> is_mode_waveform(
                #[trigger] pack.modes@[k],
                raw,
                requests[k],
            ),
{
    assert(pack.init@[temp].pan_codes@ == init_codes(
        decoded(raw, 0, temp as u8),
        element_bytes(raw),
    ));
}

/// The table of a mode at a temperature is found.
pub open spec fn is_found(raw: Seq<u8>, mode: u8, temp: int) -> bool {
    table_start(raw, mode, temp as u8) is Ok
}

proof fn lemma_mode_found(raw: Seq<u8>, mode: u8, temp: int)
    requires
        0 <= temp,
    ensures
        mode_error(raw, mode, temp) is None <==> forall|t: int|
            temp <= t <= raw[0x26] ==> #[trigger] is_found(raw, mode, t),
    decreases raw[0x26] + 1 - temp,
{
    if temp <= raw[0x26] {
        lemma_mode_found(raw, mode, temp + 1);
        assert(is_found(raw, mode, temp) <==> table_start(raw, mode, temp as u8) is Ok);
    }
}

/// The first temperature, from `temp` on, whose table is not found.
proof fn lemma_first_lost(raw: Seq<u8>, mode: u8, temp: int) -> (t: int)
    requires
        0 <= temp,
        mode_error(raw, mode, temp) is Some,
    ensures
        temp <= t <= raw[0x26],
        table_start(raw, mode, t as u8) == Err::<int, WbfError>(
            mode_error(raw, mode, temp)->Some_0,
        ),
        forall|u: int| temp <= u < t ==> #[trigger] is_found(raw, mode, u),
    decreases raw[0x26] + 1 - temp,
{
    if table_start(raw, mode, temp as u8) is Ok {
        assert(is_found(raw, mode, temp));
        lemma_first_lost(raw, mode, temp + 1)
    } else {
        temp
    }
}

proof fn lemma_mode_terminated(raw: Seq<u8>, mode: u8, temp: int)
    requires
        0 <= temp,
        forall|t: int| temp <= t <= raw[0x26] ==> #[trigger] terminated(raw, mode, t as u8),
    ensures
        mode_terminated(raw, mode, temp),
    decreases raw[0x26] + 1 - temp,
{
    if temp <= raw[0x26] {
        assert(terminated(raw, mode, temp as u8));
        lemma_mode_terminated(raw, mode, temp + 1);
    }
}

/// The tables of a mode are read from the first temperature to the last. Without an error
/// all of them are found; an error is that of the first one that is not.
pub proof fn law_first_lost_table_is_reported(raw: Seq<u8>, mode: u8)
    ensures
        mode_error(raw, mode, 0) is None <==> forall|t: int|
            0 <= t <= raw[0x26] ==> #[trigger] is_found(raw, mode, t),
        mode_error(raw, mode, 0) matches Some(e) ==> exists|t: int|
            0 <= t <= raw[0x26] && #[trigger] table_start(raw, mode, t as u8) == Err::<
                int,
                WbfError,
            >(e) && forall|u: int| 0 <= u < t ==> #[trigger] is_found(raw, mode, u),
{
    lemma_mode_found(raw, mode, 0);
    if mode_error(raw, mode, 0) is Some {
        let t = lemma_first_lost(raw, mode, 0);
        assert(table_start(raw, mode, t as u8) == Err::<int, WbfError>(
            mode_error(raw, mode, 0)->Some_0,
        ));
    }
}

proof fn lemma_requests_error(raw: Seq<u8>, requests: Seq<WbfMode>, k: int)
    requires
        0 <= k <= requests.len(),
    ensures
        requests_error(raw, requests, k) is None <==> forall|j: int|
            k <= j < requests.len() ==> mode_error(raw, (#[trigger] requests[j]).mode, 0) is None,
        requests_error(raw, requests, k) matches Some(e) ==> exists|j: int|
            k <= j < requests.len() && mode_error(raw, (#[trigger] requests[j]).mode, 0) == Some(e)
                && forall|i: int|
                k <= i < j ==> mode_error(raw, (#[trigger] requests[i]).mode, 0) is None,
        (forall|j: int|
            k <= j < requests.len() ==> mode_terminated(raw, (#[trigger] requests[j]).mode, 0))
            ==> requests_terminated(raw, requests, k),
    decreases requests.len() - k,
{
    if k < requests.len() {
        lemma_requests_error(raw, requests, k + 1);
        if let Some(e) = requests_error(raw, requests, k) {
            if mode_error(raw, requests[k].mode, 0) is None {
                let j = choose|j: int|
                    k + 1 <= j < requests.len() && mode_error(
                        raw,
                        (#[trigger] requests[j]).mode,
                        0,
                    ) == Some(e) && forall|i: int|
                        k + 1 <= i < j ==> mode_error(raw, (#[trigger] requests[i]).mode, 0)
                            is None;
                assert(mode_error(raw, requests[j].mode, 0) == Some(e));
            } else {
                assert(mode_error(raw, requests[k].mode, 0) == Some(e));
            }
        }
    }
}

/// A pack is built exactly if every INIT table and every table of every request is found.
/// Otherwise the error is that of the INIT tables or, if they are all found, of the first
/// request with an error.
pub proof fn law_pack_errors(raw: Seq<u8>, requests: Seq<WbfMode>)
    ensures
        pack_error(raw, requests) is None <==> {
            &&& forall|t: int| 0 <= t <= raw[0x26] ==> #[trigger] is_found(raw, 0, t)
            &&& forall|k: int, t: int|
                0 <= k < requests.len() && 0 <= t <= raw[0x26] ==> #[trigger] is_found(
                    raw,
                    requests[k].mode,
                    t,
                )
        },
        mode_error(raw, 0, 0) is Some ==> pack_error(raw, requests) == mode_error(raw, 0, 0),
        mode_error(raw, 0, 0) is None ==> (pack_error(raw, requests) matches Some(e)
            ==> exists|j: int|
            0 <= j < requests.len() && mode_error(raw, (#[trigger] requests[j]).mode, 0) == Some(e)
                && forall|i: int|
                0 <= i < j ==> mode_error(raw, (#[trigger] requests[i]).mode, 0) is None),
{
    lemma_mode_found(raw, 0, 0);
    lemma_requests_error(raw, requests, 0);
    let all_found = forall|k: int, t: int|
        0 <= k < requests.len() && 0 <= t <= raw[0x26] ==> #[trigger] is_found(
            raw,
            requests[k].mode,
            t,
        );
    if requests_error(raw, requests, 0) is None {
        assert forall|k: int, t: int| 0 <= k < requests.len() && 0 <= t
            <= raw[0x26] implies #[trigger] is_found(raw, requests[k].mode, t) by {
            lemma_mode_found(raw, requests[k].mode, 0);
        }
        assert(all_found);
    }
    if all_found {
        assert forall|k: int| 0 <= k < requests.len() implies mode_error(
            raw,
            (#[trigger] requests[k]).mode,
            0,
        ) is None by {
            lemma_mode_found(raw, requests[k].mode, 0);
        }
    }
}

/// A file that has a boundary for every temperature, and in which every table that is
/// found has an END marker, can be read.
pub proof fn law_whole_files_are_readable(raw: Seq<u8>, requests: Seq<WbfMode>)
    requires
        0x30 + raw[0x26] < raw.len(),
        forall|mode: u8, temp: u8| #[trigger] terminated(raw, mode, temp),
    ensures
        pack_readable(raw, requests),
{
    lemma_mode_terminated(raw, 0, 0);
    assert forall|j: int| 0 <= j < requests.len() implies mode_terminated(
        raw,
        (#[trigger] requests[j]).mode,
        0,
    ) by {
        lemma_mode_terminated(raw, requests[j].mode, 0);
    }
    lemma_requests_error(raw, requests, 0);
}

/// The mode that is read at place `j`: the INIT mode first, then the requests.
pub open spec fn mode_at(requests: Seq<WbfMode>, j: int) -> u8 {
    if j < 0 {
        0
    } else {
        requests[j].mode
    }
}

/// Every table that is read in front of the one at place `j`, temperature `t`, is found.
pub open spec fn is_reached(raw: Seq<u8>, requests: Seq<WbfMode>, j: int, t: int) -> bool {
    forall|i: int, u: int|
        -1 <= i <= j && 0 <= u <= raw[0x26] && (i < j || u < t) ==> #[trigger] is_found(
            raw,
            mode_at(requests, i),
            u,
        )
}

/// The table of a mode has an END marker, where there is a table.
pub open spec fn is_ended(raw: Seq<u8>, mode: u8, temp: int) -> bool {
    terminated(raw, mode, temp as u8)
}

proof fn lemma_mode_readable(raw: Seq<u8>, mode: u8, temp: int)
    requires
        0 <= temp,
    ensures
        mode_terminated(raw, mode, temp) <==> forall|t: int|
            temp <= t <= raw[0x26] && (forall|u: int|
                temp <= u < t ==> #[trigger] is_found(raw, mode, u)) ==> #[trigger] is_ended(
                raw,
                mode,
                t,
            ),
    decreases raw[0x26] + 1 - temp,
{
    if temp <= raw[0x26] {
        lemma_mode_readable(raw, mode, temp + 1);
        assert(is_found(raw, mode, temp) <==> table_start(raw, mode, temp as u8) is Ok);
        assert(is_ended(raw, mode, temp) <==> terminated(raw, mode, temp as u8));
        if mode_terminated(raw, mode, temp) {
            assert forall|t: int|
                temp <= t <= raw[0x26] && (forall|u: int|
                    temp <= u < t ==> #[trigger] is_found(raw, mode, u)) implies #[trigger] is_ended(
                raw,
                mode,
                t,
            ) by {
                if t > temp {
                    assert(is_found(raw, mode, temp));
                }
            }
        } else if is_ended(raw, mode, temp) {
            let t = choose|t: int|
                temp + 1 <= t <= raw[0x26] && (forall|u: int|
                    temp + 1 <= u < t ==> #[trigger] is_found(raw, mode, u))
                    && !#[trigger] is_ended(raw, mode, t);
            assert(!is_ended(raw, mode, t));
        }
    }
}

proof fn lemma_requests_readable(raw: Seq<u8>, requests: Seq<WbfMode>, k: int)
    requires
        0 <= k <= requests.len(),
    ensures
        requests_terminated(raw, requests, k) <==> forall|j: int|
            k <= j < requests.len() && (forall|i: int|
                k <= i < j ==> mode_error(raw, (#[trigger] requests[i]).mode, 0) is None)
                ==> mode_terminated(raw, (#[trigger] requests[j]).mode, 0),
    decreases requests.len() - k,
{
    if k < requests.len() {
        lemma_requests_readable(raw, requests, k + 1);
        if requests_terminated(raw, requests, k) {
            assert forall|j: int|
                k <= j < requests.len() && (forall|i: int|
                    k <= i < j ==> mode_error(raw, (#[trigger] requests[i]).mode, 0)
                        is None) implies mode_terminated(raw, (#[trigger] requests[j]).mode, 0) by {
                if j > k {
                    assert(mode_error(raw, requests[k].mode, 0) is None);
                }
            }
        } else if mode_terminated(raw, requests[k].mode, 0) {
            let j = choose|j: int|
                k + 1 <= j < requests.len() && (forall|i: int|
                    k + 1 <= i < j ==> mode_error(raw, (#[trigger] requests[i]).mode, 0) is None)
                    && !mode_terminated(raw, (#[trigger] requests[j]).mode, 0);
            assert(!mode_terminated(raw, requests[j].mode, 0));
        }
    }
}

/// A file can be read exactly if it has a boundary for every temperature, and every table
/// that is reached has an END marker, where there is a table. Tables behind the first one
/// that is not found are not looked at.
pub proof fn law_which_files_are_readable(raw: Seq<u8>, requests: Seq<WbfMode>)
    ensures
        pack_readable(raw, requests) <==> {
            &&& 0x30 + raw[0x26] < raw.len()
            &&& forall|j: int, t: int|
                -1 <= j < requests.len() && 0 <= t <= raw[0x26] && is_reached(raw, requests, j, t)
                    ==> #[trigger] is_ended(raw, mode_at(requests, j), t)
        },
{
    lemma_mode_found(raw, 0, 0);
    lemma_mode_readable(raw, 0, 0);
    lemma_requests_readable(raw, requests, 0);
    if pack_readable(raw, requests) {
        assert forall|j: int, t: int|
            -1 <= j < requests.len() && 0 <= t <= raw[0x26] && is_reached(
                raw,
                requests,
                j,
                t,
            ) implies #[trigger] is_ended(raw, mode_at(requests, j), t) by {
            lemma_mode_readable(raw, mode_at(requests, j), 0);
            assert forall|u: int| 0 <= u < t implies #[trigger] is_found(
                raw,
                mode_at(requests, j),
                u,
            ) by {}
            if j >= 0 {
                assert forall|u: int| 0 <= u <= raw[0x26] implies #[trigger] is_found(raw, 0, u) by {
                    assert(is_found(raw, mode_at(requests, -1), u));
                }
                assert forall|i: int| 0 <= i < j implies mode_error(
                    raw,
                    (#[trigger] requests[i]).mode,
                    0,
                ) is None by {
                    lemma_mode_found(raw, requests[i].mode, 0);
                    assert forall|u: int| 0 <= u <= raw[0x26] implies #[trigger] is_found(
                        raw,
                        requests[i].mode,
                        u,
                    ) by {
                        assert(is_found(raw, mode_at(requests, i), u));
                    }
                }
                assert(mode_terminated(raw, requests[j].mode, 0));
            }
        }
    } else if 0x30 + raw[0x26] < raw.len() {
        if !mode_terminated(raw, 0, 0) {
            let t = choose|t: int|
                0 <= t <= raw[0x26] && (forall|u: int|
                    0 <= u < t ==> #[trigger] is_found(raw, 0, u)) && !#[trigger] is_ended(
                    raw,
                    0,
                    t,
                );
            assert(is_reached(raw, requests, -1, t));
            assert(!is_ended(raw, mode_at(requests, -1), t));
        } else {
            let j = choose|j: int|
                0 <= j < requests.len() && (forall|i: int|
                    0 <= i < j ==> mode_error(raw, (#[trigger] requests[i]).mode, 0) is None)
                    && !mode_terminated(raw, (#[trigger] requests[j]).mode, 0);
            lemma_mode_readable(raw, requests[j].mode, 0);
            let t = choose|t: int|
                0 <= t <= raw[0x26] && (forall|u: int|
                    0 <= u < t ==> #[trigger] is_found(raw, requests[j].mode, u))
                    && !#[trigger] is_ended(raw, requests[j].mode, t);
            assert(is_reached(raw, requests, j, t)) by {
                assert forall|i: int, u: int|
                    -1 <= i <= j && 0 <= u <= raw[0x26] && (i < j || u < t) implies #[trigger] is_found(
                    raw,
                    mode_at(requests, i),
                    u,
                ) by {
                    if 0 <= i < j {
                        lemma_mode_found(raw, requests[i].mode, 0);
                        assert(mode_error(raw, requests[i].mode, 0) is None);
                    }
                }
            }
            assert(!is_ended(raw, mode_at(requests, j), t));
        }
    }
}

/// The commands of a pixel pair that a packed table holds, phase by phase.
pub open spec fn table_cmds(data: Seq<u16>, phases: u32, src: int, tgt: int) -> Seq<u16> {
    Seq::new(phases as nat, |phase: int| phase_cmd(data, phase, src, tgt))
}

/// The tables with and without the leading phases of one mode: both have the same
/// number of phases and entries, and for every pixel pair the one without them holds
/// the commands of the other from its first drive on, continued with zeros.
pub proof fn law_skip_init_shifts_each_pair(
    plain: ModeWaveform,
    short: ModeWaveform,
    raw: Seq<u8>,
    request: WbfMode,
    temp: int,
    phase: int,
    src: int,
    tgt: int,
)
    requires
        is_mode_waveform(plain, raw, WbfMode { skip_init: false, ..request }),
        is_mode_waveform(short, raw, WbfMode { skip_init: true, ..request }),
        0 <= temp <= max_temp(raw),
        0 <= phase < ((plain.full@[temp].phase_count + 7) / 8) * 8,
        0 <= src < 16,
        0 <= tgt < 16,
    ensures
        short.full@[temp].phase_count == plain.full@[temp].phase_count,
        short.full@[temp].data@.len() == plain.full@[temp].data@.len(),
        ({
            let all = table_cmds(
                plain.full@[temp].data@,
                plain.full@[temp].phase_count,
                src,
                tgt,
            );
            let zeros = first_drive(all);
            &&& 0 <= zeros <= all.len()
            &&& forall|j: int| 0 <= j < zeros ==> #[trigger] all[j] == 0
            &&& zeros < all.len() ==> all[zeros] != 0
            &&& phase_cmd(short.full@[temp].data@, phase, src, tgt) == if phase + zeros
                < plain.full@[temp].phase_count {
                all[phase + zeros]
            } else {
                0
            }
        }),
{
    let elem = element_bytes(raw);
    let table = decoded(raw, request.mode, temp as u8);
    let cmds = pair_cmds(table, elem, src, tgt);
    let all = table_cmds(plain.full@[temp].data@, plain.full@[temp].phase_count, src, tgt);
    assert(is_full_table(*plain.full@[temp], table, elem, false));
    assert(is_full_table(*short.full@[temp], table, elem, true));
    assert forall|i: int| 0 <= i < cmds.len() implies #[trigger] all[i] == cmds[i] by {
        assert(phase_cmd(plain.full@[temp].data@, i, src, tgt) == cmd_at(cmds, i));
    }
    assert(all =~= cmds);
    law_skip_init_drops_only_zeros(cmds);
    assert(phase_cmd(short.full@[temp].data@, phase, src, tgt) == cmd_at(
        recorded(cmds, true),
        phase,
    ));
}

// ---------------------------------------------------------------------------
// Packing
// ---------------------------------------------------------------------------

proof fn lemma_zero_lanes(lane: u32)
    by (bit_vector)
    requires
        lane < 8,
    ensures
        lane_cmd(0, lane) == 0,
        free_from(0, lane),
{
}

/// Lane `lane` of `acc` and those above it hold 0.
spec fn free_from(acc: u16, lane: u32) -> bool {
    acc >> (lane * 2) == 0
}

/// OR-ing a command into the first free lane sets that lane and no other.
proof fn lemma_set_lane(acc: u16, cmd: u16, lane: u32, l: u32)
    by (bit_vector)
    requires
        cmd < 4,
        lane < 8,
        l < 8,
        free_from(acc, lane),
    ensures
        lane_cmd(acc | (cmd << (lane * 2)), l) == (if l == lane {
            cmd
        } else {
            lane_cmd(acc, l)
        }),
        lane < 7 ==> free_from(acc | (cmd << (lane * 2)), (lane + 1) as u32),
{
}

proof fn lemma_free_lanes(acc: u16, lane: u32, l: u32)
    by (bit_vector)
    requires
        lane <= l,
        l < 8,
        free_from(acc, lane),
    ensures
        lane_cmd(acc, l) == 0,
{
}

proof fn lemma_first_drive(cmds: Seq<u16>, k: int)
    requires
        0 <= k <= cmds.len(),
        forall|j: int| 0 <= j < k ==> #[trigger] cmds[j] == 0,
        k < cmds.len() ==> cmds[k] != 0,
    ensures
        first_drive(cmds) == k,
    decreases cmds.len(),
{
    if k > 0 {
        assert(cmds[0] == 0);
        let rest = cmds.drop_first();
        assert forall|j: int| 0 <= j < k - 1 implies #[trigger] rest[j] == 0 by {
            assert(rest[j] == cmds[j + 1]);
        }
        lemma_first_drive(rest, k - 1);
    }
}

proof fn lemma_in_element(len: int, elem: int, i: int, off: int)
    by (nonlinear_arith)
    requires
        elem > 0,
        len >= 0,
        0 <= i < len / elem,
        0 <= off < elem,
    ensures
        0 <= i * elem,
        i * elem + off < len,
{
    assert((len / elem) * elem <= len);
    assert((i + 1) * elem <= (len / elem) * elem);
}

/// `word` packs the 8 phases of `cmds` that row `row` covers.
spec fn row_holds(word: u16, cmds: Seq<u16>, row: int) -> bool {
    forall|lane: u32| lane < 8 ==> #[trigger] lane_cmd(word, lane) == cmd_at(cmds, row * 8 + lane)
}

/// The lanes of `acc` below `lanes` hold the commands of `cmds` from `base` on,
/// the others hold 0.
spec fn partly_packed(acc: u16, cmds: Seq<u16>, base: int, lanes: int) -> bool {
    &&& free_from(acc, lanes as u32)
    &&& forall|lane: u32| lane < lanes ==> #[trigger] lane_cmd(acc, lane) == cmd_at(cmds, base + lane)
}

proof fn lemma_pack_next(acc: u16, cmd: u16, cmds: Seq<u16>, base: int, lane: u32)
    requires
        partly_packed(acc, cmds, base, lane as int),
        lane < 8,
        cmd < 4,
        cmd == cmd_at(cmds, base + lane),
    ensures
        lane < 7 ==> partly_packed(acc | (cmd << (lane * 2)), cmds, base, lane + 1),
        lane == 7 ==> forall|l: u32|
            l < 8 ==> #[trigger] lane_cmd(acc | (cmd << (lane * 2)), l) == cmd_at(cmds, base + l),
{
    let next = acc | (cmd << (lane * 2));
    lemma_set_lane(acc, cmd, lane, lane);
    assert forall|l: u32| l <= lane implies #[trigger] lane_cmd(next, l) == cmd_at(cmds, base + l) by {
        lemma_set_lane(acc, cmd, lane, l);
        if l < lane {
            assert(lane_cmd(acc, l) == cmd_at(cmds, base + l));
        }
    }
}

/// Packs the commands of one pixel pair: one word for every 8 phases.
fn pack_pair(
    table: &Vec<u8>,
    elem_sz: usize,
    count: u32,
    skip_init: bool,
    src: usize,
    tgt: usize,
) -> (column: Vec<u16>)
    requires
        elem_sz == 256 || elem_sz == 1024,
        count == element_count(table@, elem_sz as int),
        src < 16,
        tgt < 16,
    ensures
        column@.len() <= phase_rows(count as int),
        forall|row: int|
            0 <= row < column@.len() ==> row_holds(
                #[trigger] column@[row],
                recorded(pair_cmds(table@, elem_sz as int, src as int, tgt as int), skip_init),
                row,
            ),
        recorded(pair_cmds(table@, elem_sz as int, src as int, tgt as int), skip_init).len()
            <= column@.len() * 8,
{
    let offset: usize = if elem_sz == 1024 {
        src * 2 + tgt * 64
    } else {
        src + tgt * 16
    };
    let ghost cmds = pair_cmds(table@, elem_sz as int, src as int, tgt as int);
    let ghost w = recorded(cmds, skip_init);
    let mut column: Vec<u16> = Vec::new();
    let mut written: u32 = 0;
    let mut acc: u16 = 0;
    let mut in_init: bool = skip_init;
    let mut idx: u32 = 0;
    let len: usize = table.len();
    proof {
        lemma_zero_lanes(0);
    }
    while idx < count
        invariant
            elem_sz == 256 || elem_sz == 1024,
            offset == pair_offset(elem_sz as int, src as int, tgt as int),
            offset < elem_sz,
            count == element_count(table@, elem_sz as int),
            len == table@.len(),
            cmds == pair_cmds(table@, elem_sz as int, src as int, tgt as int),
            w == recorded(cmds, skip_init),
            column@.len() == written / 8,
            forall|row: int| 0 <= row < column@.len() ==> row_holds(#[trigger] column@[row], w, row),
            written <= idx <= count,
            in_init ==> skip_init && written == 0 && forall|j: int|
                0 <= j < idx ==> #[trigger] cmds[j] == 0,
            !in_init ==> w == cmds.skip(idx - written),
            partly_packed(acc, w, (written / 8) * 8, (written % 8) as int),
        decreases count - idx,
    {
        proof {
            lemma_in_element(table@.len() as int, elem_sz as int, idx as int, offset as int);
        }
        let cmd: u16 = (table[(idx as usize) * elem_sz + offset] % 4) as u16;
        assert(cmd == cmds[idx as int]);
        if in_init && cmd != 0 {
            in_init = false;
            proof {
                lemma_first_drive(cmds, idx as int);
            }
        }
        if !in_init {
            let lane: u32 = written % 8;
            assert(w[written as int] == cmd);
            proof {
                lemma_pack_next(acc, cmd, w, (written / 8) * 8, lane);
                lemma_zero_lanes(0);
            }
            acc = acc | (cmd << (lane * 2));
            if lane == 7 {
                column.push(acc);
                acc = 0;
            }
            written += 1;
        }
        idx += 1;
    }
    proof {
        if in_init {
            lemma_first_drive(cmds, cmds.len() as int);
        }
        assert(w.len() == written);
        assert forall|lane: u32| lane < 8 implies #[trigger] lane_cmd(acc, lane) == cmd_at(
            w,
            (written / 8) * 8 + lane,
        ) by {
            if lane >= written % 8 {
                lemma_free_lanes(acc, written % 8, lane);
            }
        }
    }
    if written % 8 != 0 {
        column.push(acc);
    }
    column
}

/// The entry at column `combined` of row `row` packs its pixel pair's commands.
spec fn entry_ok(
    data: Seq<u16>,
    table: Seq<u8>,
    elem: int,
    skip_init: bool,
    row: int,
    combined: int,
) -> bool {
    row_holds(
        data[row * 256 + combined],
        recorded(pair_cmds(table, elem, combined / 16, combined % 16), skip_init),
        row,
    )
}

spec fn entry_clear(data: Seq<u16>, row: int, combined: int) -> bool {
    data[row * 256 + combined] == 0
}

/// A column's words, written into a clear column of `data`, make its entries
/// right and change no other entry.
proof fn lemma_column_written(
    before: Seq<u16>,
    after: Seq<u16>,
    column: Seq<u16>,
    table: Seq<u8>,
    elem: int,
    skip_init: bool,
    rows: int,
    combined: int,
)
    requires
        0 <= combined < 256,
        before.len() == rows * 256,
        after.len() == before.len(),
        column.len() <= rows,
        forall|row: int|
            0 <= row < column.len() ==> row_holds(
                #[trigger] column[row],
                recorded(pair_cmds(table, elem, combined / 16, combined % 16), skip_init),
                row,
            ),
        recorded(pair_cmds(table, elem, combined / 16, combined % 16), skip_init).len()
            <= column.len() * 8,
        forall|row: int, c: int|
            0 <= row < rows && 0 <= c < combined ==> #[trigger] entry_ok(
                before,
                table,
                elem,
                skip_init,
                row,
                c,
            ),
        forall|row: int, c: int|
            0 <= row < rows && combined <= c < 256 ==> #[trigger] entry_clear(before, row, c),
        forall|row: int, c: int|
            0 <= row < rows && 0 <= c < 256 ==> #[trigger] after[row * 256 + c] == if c == combined
                && row < column.len() {
                column[row]
            } else {
                before[row * 256 + c]
            },
    ensures
        forall|row: int, c: int|
            0 <= row < rows && 0 <= c <= combined ==> #[trigger] entry_ok(
                after,
                table,
                elem,
                skip_init,
                row,
                c,
            ),
        forall|row: int, c: int|
            0 <= row < rows && combined < c < 256 ==> #[trigger] entry_clear(after, row, c),
{
    let w = recorded(pair_cmds(table, elem, combined / 16, combined % 16), skip_init);
    assert forall|row: int, c: int| 0 <= row < rows && 0 <= c <= combined implies #[trigger] entry_ok(
        after,
        table,
        elem,
        skip_init,
        row,
        c,
    ) by {
        if c < combined {
            assert(entry_ok(before, table, elem, skip_init, row, c));
            assert(after[row * 256 + c] == before[row * 256 + c]);
        } else if row < column.len() {
            assert(after[row * 256 + c] == column[row]);
            assert(row_holds(column[row], w, row));
        } else {
            assert(entry_clear(before, row, c));
            assert(after[row * 256 + c] == before[row * 256 + c]);
            assert forall|lane: u32| lane < 8 implies #[trigger] lane_cmd(
                after[row * 256 + c],
                lane,
            ) == cmd_at(w, row * 8 + lane) by {
                lemma_zero_lanes(lane);
            }
        }
    }
    assert forall|row: int, c: int| 0 <= row < rows && combined < c < 256 implies #[trigger] entry_clear(
        after,
        row,
        c,
    ) by {
        assert(entry_clear(before, row, c));
        assert(after[row * 256 + c] == before[row * 256 + c]);
    }
}

/// Builds the full-refresh table of a decoded table. For each of the 16 x 16
/// pixel pairs, the byte at the pair's offset within each element is the command
/// of one phase.
fn build_phase_table(table: &Vec<u8>, elem_sz: usize, skip_init: bool) -> (t: PhaseTable)
    requires
        elem_sz == 256 || elem_sz == 1024,
    ensures
        is_full_table(t, table@, elem_sz as int, skip_init),
{
    let elements: usize = table.len() / elem_sz;
    let phase_count: u32 = (elements as u64 % 0x1_0000_0000) as u32;
    let rows: usize = ((phase_count as u64 + 7) / 8) as usize;
    assert(elements * 256 <= table@.len()) by (nonlinear_arith)
        requires
            elements == table@.len() as int / elem_sz as int,
            elem_sz >= 256,
            table@.len() >= 0,
    ;
    let mut data: Vec<u16> = vec![0u16;rows * 256];
    let mut combined: usize = 0;
    while combined < 256
        invariant
            elem_sz == 256 || elem_sz == 1024,
            phase_count == element_count(table@, elem_sz as int),
            rows == phase_rows(phase_count as int),
            rows * 256 <= usize::MAX,
            combined <= 256,
            data@.len() == rows * 256,
            forall|row: int, c: int|
                0 <= row < rows && 0 <= c < combined ==> #[trigger] entry_ok(
                    data@,
                    table@,
                    elem_sz as int,
                    skip_init,
                    row,
                    c,
                ),
            forall|row: int, c: int|
                0 <= row < rows && combined <= c < 256 ==> #[trigger] entry_clear(data@, row, c),
        decreases 256 - combined,
    {
        let column: Vec<u16> = pack_pair(
            table,
            elem_sz,
            phase_count,
            skip_init,
            combined / 16,
            combined % 16,
        );
        let ghost before = data@;
        let mut row: usize = 0;
        while row < column.len()
            invariant
                combined < 256,
                row <= column@.len() <= rows,
                rows * 256 <= usize::MAX,
                data@.len() == rows * 256,
                before.len() == data@.len(),
                forall|r: int, c: int|
                    0 <= r < rows && 0 <= c < 256 ==> #[trigger] data@[r * 256 + c] == if c
                        == combined && r < row {
                        column@[r]
                    } else {
                        before[r * 256 + c]
                    },
            decreases column@.len() - row,
        {
            data[row * 256 + combined] = column[row];
            row += 1;
        }
        proof {
            lemma_column_written(
                before,
                data@,
                column@,
                table@,
                elem_sz as int,
                skip_init,
                rows as int,
                combined as int,
            );
        }
        combined += 1;
    }
    proof {
        assert forall|phase: int, src: int, tgt: int|
            0 <= phase < rows * 8 && 0 <= src < 16 && 0 <= tgt < 16 implies #[trigger] phase_cmd(
            data@,
            phase,
            src,
            tgt,
        ) == cmd_at(
            recorded(pair_cmds(table@, elem_sz as int, src, tgt), skip_init),
            phase,
        ) by {
            let c = src * 16 + tgt;
            assert(entry_ok(data@, table@, elem_sz as int, skip_init, phase / 8, c));
            assert(c / 16 == src && c % 16 == tgt);
            assert(lane_cmd(data@[(phase / 8) * 256 + c], (phase % 8) as u32) == cmd_at(
                recorded(pair_cmds(table@, elem_sz as int, src, tgt), skip_init),
                (phase / 8) * 8 + (phase % 8) as u32,
            ));
        }
    }
    PhaseTable { phase_count, data }
}

/// Copies table data and zeroes the diagonal entries of every row.
fn zero_diagonal(data: &Vec<u16>) -> (r: Vec<u16>)
    ensures
        r@ == without_diagonal(data@),
{
    let mut r: Vec<u16> = Vec::with_capacity(data.len());
    let mut i: usize = 0;
    while i < data.len()
        invariant
            i <= data@.len(),
            r@.len() == i,
            forall|k: int| 0 <= k < i ==> #[trigger] r@[k] == without_diagonal(data@)[k],
        decreases data@.len() - i,
    {
        if (i % 256) / 16 == i % 16 {
            r.push(0);
        } else {
            r.push(data[i]);
        }
        i += 1;
    }
    assert(r@ =~= without_diagonal(data@));
    r
}

/// Builds the tables of one mode, for every temperature index.
pub fn build_mode_table(wbf: &Wbf<'_>, request: WbfMode) -> (r: Result<ModeWaveform, WbfError>)
    requires
        mode_terminated(wbf@, request.mode, 0),
    ensures
        mode_error(wbf@, request.mode, 0) matches Some(e) ==> r == Err::<ModeWaveform, WbfError>(e),
        mode_error(wbf@, request.mode, 0) is None ==> {
            &&& r matches Ok(mw)
            &&& is_mode_waveform(mw, wbf@, request)
        },
{
    let elem_sz: usize = wbf.element_size();
    let last: usize = wbf.temp_count() as usize;
    let mut full: Vec<Arc<PhaseTable>> = Vec::with_capacity(last + 1);
    let mut partial: Vec<Arc<PhaseTable>> = Vec::with_capacity(last + 1);
    let mut temp: usize = 0;
    while temp <= last
        invariant
            elem_sz == element_bytes(wbf@),
            elem_sz == 256 || elem_sz == 1024,
            last == max_temp(wbf@),
            temp <= last + 1,
            mode_error(wbf@, request.mode, 0) == mode_error(wbf@, request.mode, temp as int),
            mode_terminated(wbf@, request.mode, temp as int),
            full@.len() == temp,
            partial@.len() == temp,
            forall|t: int|
                0 <= t < temp ==> is_full_table(
                    *(#[trigger] full@[t]),
                    decoded(wbf@, request.mode, t as u8),
                    elem_sz as int,
                    request.skip_init,
                ),
            forall|t: int|
                0 <= t < temp ==> is_partial_table(
                    *(#[trigger] partial@[t]),
                    *full@[t],
                    request.separate_partial,
                ),
        decreases last + 1 - temp,
    {
        let table: Vec<u8> = match wbf.decode_table(request.mode, temp as u8) {
            Ok(table) => table,
            Err(e) => return Err(e),
        };
        let full_table: PhaseTable = build_phase_table(&table, elem_sz, request.skip_init);
        let partial_data: Vec<u16> = if request.separate_partial {
            zero_diagonal(&full_table.data)
        } else {
            full_table.data.clone()
        };
        assert(!request.separate_partial ==> partial_data@ =~= full_table.data@);
        let partial_table: PhaseTable = PhaseTable {
            phase_count: full_table.phase_count,
            data: partial_data,
        };
        full.push(Arc::new(full_table));
        partial.push(Arc::new(partial_table));
        temp += 1;
    }
    Ok(ModeWaveform { full, partial })
}

/// Builds the INIT pan codes of every temperature index.
pub fn build_init_table(wbf: &Wbf<'_>) -> (r: Result<Vec<InitPhases>, WbfError>)
    requires
        mode_terminated(wbf@, 0, 0),
    ensures
        mode_error(wbf@, 0, 0) matches Some(e) ==> r == Err::<Vec<InitPhases>, WbfError>(e),
        mode_error(wbf@, 0, 0) is None ==> {
            &&& r matches Ok(init)
            &&& is_init_table(init@, wbf@)
        },
{
    let elem_sz: usize = wbf.element_size();
    let last: usize = wbf.temp_count() as usize;
    let mut init: Vec<InitPhases> = Vec::with_capacity(last + 1);
    let mut temp: usize = 0;
    while temp <= last
        invariant
            elem_sz == element_bytes(wbf@),
            elem_sz == 256 || elem_sz == 1024,
            last == max_temp(wbf@),
            temp <= last + 1,
            mode_error(wbf@, 0, 0) == mode_error(wbf@, 0, temp as int),
            mode_terminated(wbf@, 0, temp as int),
            init@.len() == temp,
            forall|t: int|
                0 <= t < temp ==> (#[trigger] init@[t]).pan_codes@ == init_codes(
                    decoded(wbf@, 0, t as u8),
                    elem_sz as int,
                ),
        decreases last + 1 - temp,
    {
        let table: Vec<u8> = match wbf.decode_table(0, temp as u8) {
            Ok(table) => table,
            Err(e) => return Err(e),
        };
        let len: usize = table.len();
        let count: usize = len / elem_sz;
        let mut pan_codes: Vec<u8> = Vec::with_capacity(count);
        let mut i: usize = 0;
        while i < count
            invariant
                elem_sz == 256 || elem_sz == 1024,
                len == table@.len(),
                count == len / elem_sz,
                i <= count,
                pan_codes@.len() == i,
                forall|k: int| 0 <= k < i ==> #[trigger] pan_codes@[k] == table@[k * elem_sz],
            decreases count - i,
        {
            proof {
                lemma_in_element(len as int, elem_sz as int, i as int, 0);
            }
            pan_codes.push(table[i * elem_sz]);
            i += 1;
        }
        assert(pan_codes@ =~= init_codes(table@, elem_sz as int));
        init.push(InitPhases { pan_codes });
        temp += 1;
    }
    Ok(init)
}

/// Whether every table of `mode` that is read before the first error has an END
/// marker, and whether there is no error.
fn scan_mode(wbf: &Wbf<'_>, mode: u8) -> (r: (bool, bool))
    ensures
        r.0 == mode_terminated(wbf@, mode, 0),
        r.1 == (mode_error(wbf@, mode, 0) is None),
{
    let last: usize = wbf.temp_count() as usize;
    let mut all_terminated: bool = true;
    let mut temp: usize = 0;
    while temp <= last
        invariant
            last == max_temp(wbf@),
            temp <= last + 1,
            mode_error(wbf@, mode, 0) == mode_error(wbf@, mode, temp as int),
            mode_terminated(wbf@, mode, 0) == (all_terminated && mode_terminated(
                wbf@,
                mode,
                temp as int,
            )),
        decreases last + 1 - temp,
    {
        if !wbf.is_terminated(mode, temp as u8) {
            all_terminated = false;
        }
        match wbf.table_offset(mode, temp as u8) {
            Ok(_) => {},
            Err(_) => return (all_terminated, false),
        }
        temp += 1;
    }
    (all_terminated, true)
}

impl PhaseTable {
    /// Number of rows of this table; a row covers 8 phases.
    pub fn phase_byte_count(&self) -> (r: usize)
        requires
            self.phase_count + 7 <= usize::MAX,
        ensures
            r == phase_rows(self.phase_count as int),
            r == (self.phase_count + 7) / 8,
    {
        (self.phase_count as usize + 7) / 8
    }

    /// The 256 entries of one row.
    pub fn phase_byte_slice(&self, phase_byte: usize) -> (r: &[u16])
        requires
            (phase_byte + 1) * 256 <= self.data@.len(),
        ensures
            r@ == self.data@.subrange(phase_byte * 256, (phase_byte + 1) * 256),
            r@.len() == 256,
    {
        assert(self.data.len() == self.data@.len());
        let start: usize = phase_byte * 256;
        &self.data[start..start + 256]
    }
}

impl WaveformPack {
    /// Whether the file holds all that [`WaveformPack::from_wbf`] reads.
    pub fn can_build(wbf: &Wbf<'_>, requested_modes: &[WbfMode]) -> (r: bool)
        ensures
            r == pack_readable(wbf@, requested_modes@),
    {
        if !wbf.temp_table_fits() {
            return false;
        }
        let (init_terminated, init_ok): (bool, bool) = scan_mode(wbf, 0);
        if !init_terminated || !init_ok {
            return init_terminated;
        }
        let mut k: usize = 0;
        while k < requested_modes.len()
            invariant
                k <= requested_modes@.len(),
                requests_terminated(wbf@, requested_modes@, 0) == requests_terminated(
                    wbf@,
                    requested_modes@,
                    k as int,
                ),
                has_temp_table(wbf@),
                mode_terminated(wbf@, 0, 0),
                mode_error(wbf@, 0, 0) is None,
            decreases requested_modes@.len() - k,
        {
            let (terminated, ok): (bool, bool) = scan_mode(wbf, requested_modes[k].mode);
            if !terminated || !ok {
                return terminated;
            }
            k += 1;
        }
        true
    }

    /// Builds the pack: the temperature ranges, the INIT pan codes and the tables
    /// of every requested mode.
    pub fn from_wbf(wbf: &Wbf<'_>, requested_modes: &[WbfMode]) -> (r: Result<Self, WbfError>)
        requires
            pack_readable(wbf@, requested_modes@),
        ensures
            pack_error(wbf@, requested_modes@) matches Some(e) ==> r == Err::<Self, WbfError>(e),
            pack_error(wbf@, requested_modes@) is None ==> {
                &&& r matches Ok(pack)
                &&& is_pack(pack, wbf@, requested_modes@)
            },
    {
        let last: usize = wbf.temp_count() as usize;
        let mut temp_ranges: Vec<(u8, u8)> = Vec::with_capacity(last + 1);
        let mut t: usize = 0;
        while t <= last
            invariant
                last == max_temp(wbf@),
                t <= last + 1,
                has_temp_table(wbf@),
                temp_ranges@.len() == t,
                forall|i: int|
                    0 <= i < t ==> #[trigger] temp_ranges@[i] == (
                        boundary(wbf@, i),
                        boundary(wbf@, i + 1),
                    ),
            decreases last + 1 - t,
        {
            let high: u8 = if t == last {
                100
            } else {
                wbf.temp_boundary((t + 1) as u8)
            };
            temp_ranges.push((wbf.temp_boundary(t as u8), high));
            t += 1;
        }
        assert(is_temp_ranges(temp_ranges@, wbf@));
        let init: Vec<InitPhases> = match build_init_table(wbf) {
            Ok(init) => init,
            Err(e) => return Err(e),
        };
        let mut modes: Vec<ModeWaveform> = Vec::with_capacity(requested_modes.len());
        let mut k: usize = 0;
        while k < requested_modes.len()
            invariant
                k <= requested_modes@.len(),
                pack_error(wbf@, requested_modes@) == requests_error(
                    wbf@,
                    requested_modes@,
                    k as int,
                ),
                requests_terminated(wbf@, requested_modes@, k as int),
                modes@.len() == k,
                forall|j: int|
                    0 <= j < k ==> is_mode_waveform(
                        #[trigger] modes@[j],
                        wbf@,
                        requested_modes@[j],
                    ),
            decreases requested_modes@.len() - k,
        {
            match build_mode_table(wbf, requested_modes[k]) {
                Ok(mode) => modes.push(mode),
                Err(e) => return Err(e),
            }
            k += 1;
        }
        Ok(Self { temp_ranges, init, modes })
    }
}

/// The mode list of the stock user interface. For six of them the table records
/// every phase, for the repeated three only those from the first drive on.
pub open spec fn standard_modes() -> Seq<WbfMode> {
    seq![
        WbfMode { mode: 1, separate_partial: false, skip_init: false },
        WbfMode { mode: 2, separate_partial: true, skip_init: false },
        WbfMode { mode: 3, separate_partial: true, skip_init: false },
        WbfMode { mode: 6, separate_partial: false, skip_init: false },
        WbfMode { mode: 7, separate_partial: false, skip_init: false },
        WbfMode { mode: 1, separate_partial: false, skip_init: true },
        WbfMode { mode: 2, separate_partial: true, skip_init: true },
        WbfMode { mode: 7, separate_partial: false, skip_init: true },
        WbfMode { mode: 4, separate_partial: false, skip_init: false },
    ]
}

/// The standard mode list. The waveforms built from it are, by index: 0 DU,
/// 1 GC16, 2 FAST, 3 GLF, 4 DU4, then 5 DU, 6 GC16 and 7 DU4 without their leading
/// phases, and 8 A2.
pub fn standard_xochitl_modes() -> (r: [WbfMode; 9])
    ensures
        r@ == standard_modes(),
{
    let r: [WbfMode; 9] = [
        WbfMode { mode: 1, separate_partial: false, skip_init: false },
        WbfMode { mode: 2, separate_partial: true, skip_init: false },
        WbfMode { mode: 3, separate_partial: true, skip_init: false },
        WbfMode { mode: 6, separate_partial: false, skip_init: false },
        WbfMode { mode: 7, separate_partial: false, skip_init: false },
        WbfMode { mode: 1, separate_partial: false, skip_init: true },
        WbfMode { mode: 2, separate_partial: true, skip_init: true },
        WbfMode { mode: 7, separate_partial: false, skip_init: true },
        WbfMode { mode: 4, separate_partial: false, skip_init: false },
    ];
    assert(r@ =~= standard_modes());
    r
}

} // verus!
