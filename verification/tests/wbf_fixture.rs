//! A waveform file with the figures of an ED103TC2M1 panel: its signature, its
//! temperature ranges and its phase counts at index 7.

use swtcon::waveform::{standard_xochitl_modes, WaveformPack};
use swtcon::wbf::Wbf;

const END: u8 = 0xff;
const TOGGLE: u8 = 0xfc;
const BOUNDS: [u8; 14] = [0, 3, 6, 9, 12, 15, 18, 21, 24, 27, 30, 33, 38, 43];

/// Number of phases of a mode at a temperature index.
fn phases(mode: usize, temp: usize) -> usize {
    let at_seven = [111, 25, 46, 46, 38, 1, 10, 12][mode];
    at_seven + 7 - temp.min(7)
}

fn put24(file: &mut [u8], at: usize, value: usize) {
    file[at] = value as u8;
    file[at + 1] = (value >> 8) as u8;
    file[at + 2] = (value >> 16) as u8;
}

/// A table: per phase one element of 64 literal bytes, as a run.
fn encoded_table(mode: usize, temp: usize) -> Vec<u8> {
    let mut table = Vec::new();
    for phase in 0..phases(mode, temp) {
        table.push([0x55, 0xaa, 0x1b, 0x00][(phase + mode) % 4]);
        table.push(63);
    }
    table.push(END);
    table
}

fn fixture_bytes() -> Vec<u8> {
    let mut file = vec![0u8; 0x30];
    file.extend_from_slice(&BOUNDS);
    let modes_at = file.len();
    file.resize(modes_at + 8 * 4, 0);
    for mode in 0..8 {
        let temps_at = file.len();
        put24(&mut file, modes_at + mode * 4, temps_at);
        file.resize(temps_at + 14 * 4, 0);
        for temp in 0..14 {
            let table_at = file.len();
            put24(&mut file, temps_at + temp * 4, table_at);
            file.extend_from_slice(&encoded_table(mode, temp));
        }
    }
    let size = file.len() as u32;
    file[4..8].copy_from_slice(&size.to_le_bytes());
    file[0x0e..0x10].copy_from_slice(&327u16.to_le_bytes());
    put24(&mut file, 0x20, modes_at);
    file[0x25] = 7;
    file[0x26] = 13;
    file[0x28] = END;
    file[0x29] = TOGGLE;
    file
}

#[test]
fn header_matches_device_observation() {
    let raw = fixture_bytes();
    let wbf = Wbf::parse(&raw).expect("wbf parses");

    assert_eq!(wbf.fpl_lot(), 327, "fpl_lot");
    assert_eq!(wbf.temp_count(), 13, "temp_count");
    assert_eq!(wbf.temp_boundary(0), 0);
    assert_eq!(wbf.temp_boundary(1), 3);
    assert_eq!(wbf.temp_boundary(13), 43);
    assert_eq!(wbf.temp_boundary(14), 100);
}

#[test]
fn temp_ranges_match_device_observation() {
    let raw = fixture_bytes();
    let wbf = Wbf::parse(&raw).expect("wbf parses");
    assert!(WaveformPack::can_build(&wbf, &standard_xochitl_modes()));
    let pack = WaveformPack::from_wbf(&wbf, &standard_xochitl_modes()).expect("pack builds");

    let expected = [
        (0, 3), (3, 6), (6, 9), (9, 12), (12, 15), (15, 18), (18, 21),
        (21, 24), (24, 27), (27, 30), (30, 33), (33, 38), (38, 43), (43, 100),
    ];
    assert_eq!(pack.temp_ranges, expected);
}

#[test]
fn init_phase_count_matches_device_observation() {
    let raw = fixture_bytes();
    let wbf = Wbf::parse(&raw).expect("wbf parses");
    let pack = WaveformPack::from_wbf(&wbf, &standard_xochitl_modes()).expect("pack builds");

    assert_eq!(pack.init[7].pan_codes.len(), 111, "init phase count at tempIdx=7");
}

#[test]
fn fast_and_gc16_phase_counts_at_temp7() {
    let raw = fixture_bytes();
    let wbf = Wbf::parse(&raw).expect("wbf parses");
    let pack = WaveformPack::from_wbf(&wbf, &standard_xochitl_modes()).expect("pack builds");

    assert_eq!(pack.modes[0].full[7].phase_count, 25, "DU (mode 1)");
    assert_eq!(pack.modes[1].full[7].phase_count, 46, "GC16 (mode 2)");
    assert_eq!(pack.modes[2].full[7].phase_count, 46, "FAST (mode 3)");
}

#[test]
fn partial_table_zeros_diagonal() {
    let raw = fixture_bytes();
    let wbf = Wbf::parse(&raw).expect("wbf parses");
    let pack = WaveformPack::from_wbf(&wbf, &standard_xochitl_modes()).expect("pack builds");

    let gc16 = &pack.modes[1];
    for (temp_idx, pt) in gc16.partial.iter().enumerate() {
        for phase_byte in 0..pt.phase_byte_count() {
            for sg in 0..16usize {
                let combined = (sg << 4) | sg;
                let v = pt.data[phase_byte * 256 + combined];
                assert_eq!(
                    v, 0,
                    "GC16 partial: temp={} phase_byte={} sg={} expected 0 got 0x{:04x}",
                    temp_idx, phase_byte, sg, v
                );
            }
        }
    }
}

#[test]
fn full_and_partial_agree_off_diagonal() {
    let raw = fixture_bytes();
    let wbf = Wbf::parse(&raw).expect("wbf parses");
    let pack = WaveformPack::from_wbf(&wbf, &standard_xochitl_modes()).expect("pack builds");

    let gc16 = &pack.modes[1];
    for (temp_idx, (full, partial)) in gc16.full.iter().zip(gc16.partial.iter()).enumerate() {
        for phase_byte in 0..full.phase_byte_count() {
            for src in 0..16usize {
                for tgt in 0..16usize {
                    if src == tgt {
                        continue;
                    }
                    let combined = (src << 4) | tgt;
                    let f = full.data[phase_byte * 256 + combined];
                    let p = partial.data[phase_byte * 256 + combined];
                    assert_eq!(
                        f, p,
                        "off-diag mismatch: temp={} phase_byte={} src={} tgt={}",
                        temp_idx, phase_byte, src, tgt
                    );
                }
            }
        }
    }
}

#[test]
fn full_table_drives_the_diagonal() {
    let raw = fixture_bytes();
    let wbf = Wbf::parse(&raw).expect("wbf parses");
    let pack = WaveformPack::from_wbf(&wbf, &standard_xochitl_modes()).expect("pack builds");
    assert!(pack.modes[1].full[7].data[0] != 0);
    assert_eq!(pack.modes.len(), 9);
    assert_eq!(pack.modes[8].full[7].phase_count, 38);
    assert_eq!(pack.modes[3].partial[7].phase_count, 10);
    // Without a separate partial the two tables are the same.
    assert_eq!(pack.modes[0].full[7].data, pack.modes[0].partial[7].data);
}

#[test]
fn tables_are_packed_phase_by_phase() {
    let raw = fixture_bytes();
    let wbf = Wbf::parse(&raw).expect("wbf parses");
    let pack = WaveformPack::from_wbf(&wbf, &standard_xochitl_modes()).expect("pack builds");
    let decoded = wbf.decode_table(2, 7).expect("decodes");
    assert_eq!(decoded.len(), 46 * 256);
    let table = &pack.modes[1].full[7];
    assert_eq!(table.phase_byte_count(), 6);
    assert_eq!(table.data.len(), 6 * 256);
    for phase in 0..48usize {
        for src in 0..16usize {
            for tgt in 0..16usize {
                let entry = table.phase_byte_slice(phase / 8)[src * 16 + tgt];
                let cmd = (entry >> ((phase % 8) * 2)) & 3;
                let want = if phase < 46 { decoded[phase * 256 + src + tgt * 16] as u16 } else { 0 };
                assert_eq!(cmd, want, "phase={phase} src={src} tgt={tgt}");
            }
        }
    }
}
