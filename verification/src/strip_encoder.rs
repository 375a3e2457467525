//! Per-strip pixel encoder. Pure functions, no shared state.
//!
//! A *strip* is a run of 8 consecutive pixels of a panel column. Its 8 commands
//! go into the low 16 bits of one pan-buffer cell, lane K into bits
//! `(7 - K) * 2` and the bit above: the panel reads the two highest bits as the
//! first panel row of the strip.
//!
//! A command is looked up by (src, tgt) in a 256-entry table that
//! [`build_phase_cmd_lut`] builds once per phase.
use vstd::prelude::*;

verus! {

/// The 2-bit command that a packed table entry holds for phase lane `lane`.
pub open spec fn lane_cmd(entry: u16, lane: u32) -> u16 {
    (entry >> (lane * 2)) & 3
}

/// The lookup index of a pixel that goes from `src` to `tgt`. Only the low
/// nibbles count.
pub open spec fn pair_index(src: u8, tgt: u8) -> int {
    (src % 16) * 16 + tgt % 16
}

/// The command of lane `lane` of a strip.
pub open spec fn strip_cmd(src8: Seq<u8>, tgt8: Seq<u8>, lut: Seq<u8>, lane: int) -> u8 {
    lut[pair_index(src8[lane], tgt8[lane])]
}

/// The cell word whose 8 lanes hold `c0` to `c7`.
pub open spec fn pack8(
    c0: u16,
    c1: u16,
    c2: u16,
    c3: u16,
    c4: u16,
    c5: u16,
    c6: u16,
    c7: u16,
) -> u16 {
    (c0 << 14) | (c1 << 12) | (c2 << 10) | (c3 << 8) | (c4 << 6) | (c5 << 4) | (c6 << 2) | c7
}

/// The low half of the cell of a strip.
pub open spec fn strip_word(src8: Seq<u8>, tgt8: Seq<u8>, lut: Seq<u8>) -> u16 {
    pack8(
        strip_cmd(src8, tgt8, lut, 0) as u16,
        strip_cmd(src8, tgt8, lut, 1) as u16,
        strip_cmd(src8, tgt8, lut, 2) as u16,
        strip_cmd(src8, tgt8, lut, 3) as u16,
        strip_cmd(src8, tgt8, lut, 4) as u16,
        strip_cmd(src8, tgt8, lut, 5) as u16,
        strip_cmd(src8, tgt8, lut, 6) as u16,
        strip_cmd(src8, tgt8, lut, 7) as u16,
    )
}

/// A table of commands holds 2-bit values.
pub open spec fn is_cmd_lut(lut: Seq<u8>) -> bool {
    lut.len() == 256 && forall|i: int| 0 <= i < 256 ==> #[trigger] lut[i] < 4
}

proof fn lemma_pack8_lanes(
    c0: u16,
    c1: u16,
    c2: u16,
    c3: u16,
    c4: u16,
    c5: u16,
    c6: u16,
    c7: u16,
)
    by (bit_vector)
    requires
        c0 < 4,
        c1 < 4,
        c2 < 4,
        c3 < 4,
        c4 < 4,
        c5 < 4,
        c6 < 4,
        c7 < 4,
    ensures
        lane_cmd(pack8(c0, c1, c2, c3, c4, c5, c6, c7), 7) == c0,
        lane_cmd(pack8(c0, c1, c2, c3, c4, c5, c6, c7), 6) == c1,
        lane_cmd(pack8(c0, c1, c2, c3, c4, c5, c6, c7), 5) == c2,
        lane_cmd(pack8(c0, c1, c2, c3, c4, c5, c6, c7), 4) == c3,
        lane_cmd(pack8(c0, c1, c2, c3, c4, c5, c6, c7), 3) == c4,
        lane_cmd(pack8(c0, c1, c2, c3, c4, c5, c6, c7), 2) == c5,
        lane_cmd(pack8(c0, c1, c2, c3, c4, c5, c6, c7), 1) == c6,
        lane_cmd(pack8(c0, c1, c2, c3, c4, c5, c6, c7), 0) == c7,
{
}

proof fn lemma_pack8_zero()
    by (bit_vector)
    ensures
        pack8(0, 0, 0, 0, 0, 0, 0, 0) == 0,
{
}

/// Lane K of a strip ends up in bits `(7 - K) * 2` and `(7 - K) * 2 + 1`, and
/// nothing else is in the word.
pub proof fn law_lane_to_bits(src8: Seq<u8>, tgt8: Seq<u8>, lut: Seq<u8>, lane: int)
    requires
        is_cmd_lut(lut),
        0 <= lane < 8,
    ensures
        lane_cmd(strip_word(src8, tgt8, lut), (7 - lane) as u32) == strip_cmd(
            src8,
            tgt8,
            lut,
            lane,
        ),
{
    lemma_pack8_lanes(
        strip_cmd(src8, tgt8, lut, 0) as u16,
        strip_cmd(src8, tgt8, lut, 1) as u16,
        strip_cmd(src8, tgt8, lut, 2) as u16,
        strip_cmd(src8, tgt8, lut, 3) as u16,
        strip_cmd(src8, tgt8, lut, 4) as u16,
        strip_cmd(src8, tgt8, lut, 5) as u16,
        strip_cmd(src8, tgt8, lut, 6) as u16,
        strip_cmd(src8, tgt8, lut, 7) as u16,
    );
}

/// A strip's word has, in the bits of each lane, the command that the table holds at
/// 16 times the low nibble of the source and the low nibble of the target. The first
/// lane has the two highest bits.
pub proof fn law_strip_looks_up_each_lane(src8: Seq<u8>, tgt8: Seq<u8>, lut: Seq<u8>, lane: int)
    requires
        lut.len() == 256,
        forall|i: int| 0 <= i < 256 ==> #[trigger] lut[i] < 4,
        0 <= lane < 8,
    ensures
        (strip_word(src8, tgt8, lut) >> (14 - 2 * lane)) & 3 == lut[(src8[lane] % 16) * 16
            + tgt8[lane] % 16],
{
    law_lane_to_bits(src8, tgt8, lut, lane);
}

/// Whatever the table holds, the word is its 8 entries, each shifted to its lane and
/// OR-ed together.
pub proof fn law_strip_ors_its_lanes(src8: Seq<u8>, tgt8: Seq<u8>, lut: Seq<u8>, entries: Seq<u16>)
    requires
        entries.len() == 8,
        forall|k: int|
            0 <= k < 8 ==> #[trigger] entries[k] == lut[(src8[k] % 16) * 16 + tgt8[k] % 16],
    ensures
        strip_word(src8, tgt8, lut) == (entries[0] << 14) | (entries[1] << 12) | (entries[2] << 10)
            | (entries[3] << 8) | (entries[4] << 6) | (entries[5] << 4) | (entries[6] << 2)
            | entries[7],
{
    assert(entries[0] == strip_cmd(src8, tgt8, lut, 0));
    assert(entries[1] == strip_cmd(src8, tgt8, lut, 1));
    assert(entries[2] == strip_cmd(src8, tgt8, lut, 2));
    assert(entries[3] == strip_cmd(src8, tgt8, lut, 3));
    assert(entries[4] == strip_cmd(src8, tgt8, lut, 4));
    assert(entries[5] == strip_cmd(src8, tgt8, lut, 5));
    assert(entries[6] == strip_cmd(src8, tgt8, lut, 6));
    assert(entries[7] == strip_cmd(src8, tgt8, lut, 7));
}

/// The high nibble of a pixel never reaches the output: strips whose low
/// nibbles agree encode alike.
pub proof fn law_high_nibbles_ignored(
    src8: Seq<u8>,
    tgt8: Seq<u8>,
    other_src8: Seq<u8>,
    other_tgt8: Seq<u8>,
    lut: Seq<u8>,
)
    requires
        forall|k: int| 0 <= k < 8 ==> #[trigger] src8[k] % 16 == other_src8[k] % 16,
        forall|k: int| 0 <= k < 8 ==> #[trigger] tgt8[k] % 16 == other_tgt8[k] % 16,
    ensures
        strip_word(src8, tgt8, lut) == strip_word(other_src8, other_tgt8, lut),
{
    assert forall|k: int| 0 <= k < 8 implies #[trigger] strip_cmd(src8, tgt8, lut, k) == strip_cmd(
        other_src8,
        other_tgt8,
        lut,
        k,
    ) by {
        assert(src8[k] % 16 == other_src8[k] % 16);
        assert(tgt8[k] % 16 == other_tgt8[k] % 16);
    }
}

/// A strip whose lanes all look up command 0 leaves the panel undriven: its word
/// is 0.
pub proof fn law_no_commands_no_drive(src8: Seq<u8>, tgt8: Seq<u8>, lut: Seq<u8>)
    requires
        forall|k: int| 0 <= k < 8 ==> #[trigger] strip_cmd(src8, tgt8, lut, k) == 0,
    ensures
        strip_word(src8, tgt8, lut) == 0,
{
    lemma_pack8_zero();
    assert(strip_cmd(src8, tgt8, lut, 0) == 0);
    assert(strip_cmd(src8, tgt8, lut, 1) == 0);
    assert(strip_cmd(src8, tgt8, lut, 2) == 0);
    assert(strip_cmd(src8, tgt8, lut, 3) == 0);
    assert(strip_cmd(src8, tgt8, lut, 4) == 0);
    assert(strip_cmd(src8, tgt8, lut, 5) == 0);
    assert(strip_cmd(src8, tgt8, lut, 6) == 0);
    assert(strip_cmd(src8, tgt8, lut, 7) == 0);
}

/// Builds the 256-byte command lookup table for one phase.
///
/// `phase_table` is the row of the packed waveform table that covers the phase;
/// `phase_lane` is the phase index modulo 8.
pub fn build_phase_cmd_lut(phase_table: &[u16; 256], phase_lane: u32) -> (lut: [u8; 256])
    requires
        phase_lane < 8,
    ensures
        is_cmd_lut(lut@),
        forall|i: int|
            0 <= i < 256 ==> #[trigger] lut@[i] == lane_cmd(phase_table@[i], phase_lane),
        forall|i: int|
            0 <= i < 256 ==> #[trigger] lut@[i] == (phase_table@[i] >> (phase_lane * 2)) & 3,
{
    let shift: u32 = phase_lane * 2;
    let mut lut: [u8; 256] = [0u8;256];
    let mut i: usize = 0;
    while i < 256
        invariant
            i <= 256,
            phase_lane < 8,
            shift == phase_lane * 2,
            forall|k: int| 0 <= k < i ==> #[trigger] lut@[k] < 4,
            forall|k: int|
                0 <= k < i ==> #[trigger] lut@[k] == lane_cmd(phase_table@[k], phase_lane),
        decreases 256 - i,
    {
        let entry: u16 = phase_table[i];
        assert((entry >> shift) & 3 < 4) by (bit_vector);
        lut[i] = ((entry >> shift) & 3) as u8;
        i += 1;
    }
    lut
}

/// The lanes below `n`, OR-ed together one after the other.
spec fn or_lanes(src8: Seq<u8>, tgt8: Seq<u8>, lut: Seq<u8>, n: int) -> u16
    decreases n,
{
    if n <= 0 {
        0
    } else {
        or_lanes(src8, tgt8, lut, n - 1) | ((strip_cmd(src8, tgt8, lut, n - 1) as u16) << ((8 - n)
            * 2))
    }
}

proof fn lemma_or_order(
    c0: u16,
    c1: u16,
    c2: u16,
    c3: u16,
    c4: u16,
    c5: u16,
    c6: u16,
    c7: u16,
)
    by (bit_vector)
    ensures
        ((((((((0 | (c0 << 14)) | (c1 << 12)) | (c2 << 10)) | (c3 << 8)) | (c4 << 6)) | (c5 << 4))
            | (c6 << 2)) | (c7 << 0)) == pack8(c0, c1, c2, c3, c4, c5, c6, c7),
        (((c0 << 14) | (c4 << 6)) | ((c2 << 10) | (c6 << 2))) | (((c1 << 12) | (c5 << 4)) | ((c3
            << 8) | (c7 << 0))) == pack8(c0, c1, c2, c3, c4, c5, c6, c7),
{
}

proof fn lemma_or_lanes(src8: Seq<u8>, tgt8: Seq<u8>, lut: Seq<u8>)
    ensures
        or_lanes(src8, tgt8, lut, 8) == strip_word(src8, tgt8, lut),
{
    reveal_with_fuel(or_lanes, 9);
    lemma_or_order(
        strip_cmd(src8, tgt8, lut, 0) as u16,
        strip_cmd(src8, tgt8, lut, 1) as u16,
        strip_cmd(src8, tgt8, lut, 2) as u16,
        strip_cmd(src8, tgt8, lut, 3) as u16,
        strip_cmd(src8, tgt8, lut, 4) as u16,
        strip_cmd(src8, tgt8, lut, 5) as u16,
        strip_cmd(src8, tgt8, lut, 6) as u16,
        strip_cmd(src8, tgt8, lut, 7) as u16,
    );
}

/// Scalar encoder: looks up and packs one lane after the other.
pub fn encode_strip_scalar(src8: &[u8; 8], tgt8: &[u8; 8], cmd_lut: &[u8; 256]) -> (packed: u16)
    ensures
        packed == strip_word(src8@, tgt8@, cmd_lut@),
{
    let mut packed: u16 = 0;
    let mut lane: usize = 0;
    while lane < 8
        invariant
            lane <= 8,
            packed == or_lanes(src8@, tgt8@, cmd_lut@, lane as int),
        decreases 8 - lane,
    {
        let s: usize = (src8[lane] % 16) as usize;
        let t: usize = (tgt8[lane] % 16) as usize;
        let cmd: u8 = cmd_lut[s * 16 + t];
        packed = packed | ((cmd as u16) << ((7 - lane) * 2));
        lane += 1;
    }
    proof {
        lemma_or_lanes(src8@, tgt8@, cmd_lut@);
    }
    packed
}

/// Lane-parallel encoder, in the steps of a NEON unit: gather the 8 commands,
/// shift every lane to its place, then OR the lanes together in three halvings.
/// Bit-exact with [`encode_strip_scalar`].
pub fn encode_strip_neon(src8: &[u8; 8], tgt8: &[u8; 8], cmd_lut: &[u8; 256]) -> (packed: u16)
    ensures
        packed == strip_word(src8@, tgt8@, cmd_lut@),
{
    let mut shifted: [u16; 8] = [0u16;8];
    let mut lane: usize = 0;
    while lane < 8
        invariant
            lane <= 8,
            forall|k: int|
                0 <= k < lane ==> #[trigger] shifted@[k] == (strip_cmd(
                    src8@,
                    tgt8@,
                    cmd_lut@,
                    k,
                ) as u16) << ((7 - k) * 2),
        decreases 8 - lane,
    {
        let s: usize = (src8[lane] % 16) as usize;
        let t: usize = (tgt8[lane] % 16) as usize;
        let cmd: u8 = cmd_lut[s * 16 + t];
        shifted[lane] = (cmd as u16) << ((7 - lane) * 2);
        lane += 1;
    }
    let r4: [u16; 4] = [
        shifted[0] | shifted[4],
        shifted[1] | shifted[5],
        shifted[2] | shifted[6],
        shifted[3] | shifted[7],
    ];
    let r2: [u16; 2] = [r4[0] | r4[2], r4[1] | r4[3]];
    proof {
        lemma_or_order(
            strip_cmd(src8@, tgt8@, cmd_lut@, 0) as u16,
            strip_cmd(src8@, tgt8@, cmd_lut@, 1) as u16,
            strip_cmd(src8@, tgt8@, cmd_lut@, 2) as u16,
            strip_cmd(src8@, tgt8@, cmd_lut@, 3) as u16,
            strip_cmd(src8@, tgt8@, cmd_lut@, 4) as u16,
            strip_cmd(src8@, tgt8@, cmd_lut@, 5) as u16,
            strip_cmd(src8@, tgt8@, cmd_lut@, 6) as u16,
            strip_cmd(src8@, tgt8@, cmd_lut@, 7) as u16,
        );
    }
    r2[0] | r2[1]
}

/// The encoder that the generator uses.
pub fn encode_strip(src8: &[u8; 8], tgt8: &[u8; 8], cmd_lut: &[u8; 256]) -> (packed: u16)
    ensures
        packed == strip_word(src8@, tgt8@, cmd_lut@),
{
    encode_strip_scalar(src8, tgt8, cmd_lut)
}

} // verus!
