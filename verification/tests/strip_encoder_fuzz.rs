//! Bit-exact validation of the strip encoder.

use swtcon::strip_encoder::{
    build_phase_cmd_lut, encode_strip, encode_strip_neon, encode_strip_scalar,
};

/// Small generator, deterministic across runs and architectures.
struct Lcg(u64);

impl Lcg {
    fn new(seed: u64) -> Self {
        Self(seed.wrapping_add(0x9E37_79B9_7F4A_7C15))
    }
    fn next_u32(&mut self) -> u32 {
        self.0 = self.0.wrapping_mul(6364136223846793005).wrapping_add(1442695040888963407);
        (self.0 >> 32) as u32
    }
    fn next_u8(&mut self) -> u8 {
        self.next_u32() as u8
    }
    fn next_nibble(&mut self) -> u8 {
        (self.next_u32() & 0xF) as u8
    }
    fn next_phase(&mut self) -> u32 {
        self.next_u32() % 32
    }
}

/// A table of 32 phases: 4 rows of 256 entries.
fn fake_waveform() -> Vec<u16> {
    let mut rng = Lcg::new(0xC0FFEE);
    (0..(256 * 4)).map(|_| rng.next_u32() as u16).collect()
}

fn phase_table(wf: &[u16], phase_idx: u32) -> &[u16; 256] {
    let off = (phase_idx >> 3) as usize * 256;
    <&[u16; 256]>::try_from(&wf[off..off + 256]).unwrap()
}

/// One strip, looked up lane by lane.
fn encode_strip_spec(
    src8: &[u8; 8],
    tgt8: &[u8; 8],
    phase_table: &[u16; 256],
    phase_lane: u32,
) -> u16 {
    let mut packed: u16 = 0;
    for lane in 0..8 {
        let s = src8[lane] & 0xF;
        let t = tgt8[lane] & 0xF;
        let entry = phase_table[((s << 4) | t) as usize];
        let cmd = ((entry >> (phase_lane * 2)) & 0x3) as u8;
        packed |= (cmd as u16) << ((7 - lane) * 2);
    }
    packed
}

#[test]
fn lane_to_bit_mapping() {
    let mut cmd_lut = [0u8; 256];
    cmd_lut[(0 << 4) | 0] = 0;
    cmd_lut[(0 << 4) | 1] = 1;
    cmd_lut[(0 << 4) | 2] = 2;
    cmd_lut[(0 << 4) | 3] = 3;

    let src = [0u8; 8];
    let tgt = [0, 1, 2, 3, 0, 1, 2, 3];

    // Lane 0 is in bits 14 and 15, lane 7 in bits 0 and 1.
    assert_eq!(encode_strip_scalar(&src, &tgt, &cmd_lut), 0x1B1B);
}

#[test]
fn high_nibbles_masked() {
    let wf = fake_waveform();
    let cmd_lut = build_phase_cmd_lut(phase_table(&wf, 5), 5);

    let src_dirty = [0xAB, 0x3C, 0xFF, 0x00, 0x99, 0x4D, 0x71, 0xE2];
    let tgt_dirty = [0xF0, 0x55, 0xCC, 0x12, 0x88, 0xA3, 0x6E, 0x40];
    let mut src_low = [0u8; 8];
    let mut tgt_low = [0u8; 8];
    for i in 0..8 {
        src_low[i] = src_dirty[i] & 0xF;
        tgt_low[i] = tgt_dirty[i] & 0xF;
    }
    assert_eq!(
        encode_strip_scalar(&src_dirty, &tgt_dirty, &cmd_lut),
        encode_strip_scalar(&src_low, &tgt_low, &cmd_lut),
    );
}

#[test]
fn scalar_matches_spec() {
    let wf = fake_waveform();
    let mut rng = Lcg::new(0xBEEF);

    for _ in 0..5000 {
        let mut src = [0u8; 8];
        let mut tgt = [0u8; 8];
        for i in 0..8 {
            src[i] = rng.next_nibble();
            tgt[i] = rng.next_nibble();
        }
        let phase_idx = rng.next_phase();
        let phase_lane = phase_idx & 7;
        let pt = phase_table(&wf, phase_idx);

        let cmd_lut = build_phase_cmd_lut(pt, phase_lane);

        let got = encode_strip_scalar(&src, &tgt, &cmd_lut);
        let want = encode_strip_spec(&src, &tgt, pt, phase_lane);
        assert_eq!(got, want, "phase={} src={:?} tgt={:?}", phase_idx, src, tgt);
    }
}

#[test]
fn neon_matches_scalar() {
    let wf = fake_waveform();
    let mut rng = Lcg::new(0xC0DE);

    for _ in 0..200_000 {
        let mut src = [0u8; 8];
        let mut tgt = [0u8; 8];
        for i in 0..8 {
            src[i] = rng.next_u8();
            tgt[i] = rng.next_u8();
        }
        let phase_idx = rng.next_phase();
        let phase_lane = phase_idx & 7;
        let cmd_lut = build_phase_cmd_lut(phase_table(&wf, phase_idx), phase_lane);

        let scalar = encode_strip_scalar(&src, &tgt, &cmd_lut);
        let neon = encode_strip_neon(&src, &tgt, &cmd_lut);
        assert_eq!(scalar, neon, "phase={} src={:?} tgt={:?}", phase_idx, src, tgt);
    }
}

#[test]
fn command_table_takes_its_lane() {
    let mut entries = [0u16; 256];
    entries[0x12] = 0b11_10_01_00_11_10_01_00;
    for lane in 0..8 {
        let lut = build_phase_cmd_lut(&entries, lane);
        assert_eq!(lut[0x12] as u32, lane % 4);
        assert_eq!(lut[0x21], 0);
    }
}

#[test]
fn no_commands_no_drive() {
    let lut = [0u8; 256];
    assert_eq!(encode_strip(&[0x5a; 8], &[0xc3; 8], &lut), 0);
}

#[test]
fn encode_strip_is_the_scalar_one() {
    let wf = fake_waveform();
    let lut = build_phase_cmd_lut(phase_table(&wf, 9), 1);
    let src = [1, 2, 3, 4, 5, 6, 7, 8];
    let tgt = [15, 14, 13, 12, 11, 10, 9, 8];
    assert_eq!(encode_strip(&src, &tgt, &lut), encode_strip_scalar(&src, &tgt, &lut));
    assert_eq!(encode_strip(&src, &tgt, &lut), encode_strip_spec(&src, &tgt, phase_table(&wf, 9), 1));
}
