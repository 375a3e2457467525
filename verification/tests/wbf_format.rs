//! The WBF format: the header, the indirections, the run-length code and the errors.

use swtcon::bytes::{read_le16, read_le24, read_le32};
use swtcon::waveform::{standard_xochitl_modes, WaveformPack, WbfMode};
use swtcon::wbf::{Wbf, WbfError};

const END: u8 = 0xee;
const TOGGLE: u8 = 0xdd;

/// A file with one mode and one temperature, whose table is given.
fn one_table(flags: u8, table: &[u8]) -> Vec<u8> {
    let mut file = vec![0u8; 0x31];
    file[0x30] = 5;
    let modes_at = file.len() as u32;
    file.extend_from_slice(&(modes_at + 4).to_le_bytes());
    file.extend_from_slice(&(modes_at + 8).to_le_bytes());
    file.extend_from_slice(table);
    let size = file.len() as u32;
    file[4..8].copy_from_slice(&size.to_le_bytes());
    file[0x20..0x23].copy_from_slice(&modes_at.to_le_bytes()[..3]);
    file[0x24] = flags;
    file[0x28] = END;
    file[0x29] = TOGGLE;
    file
}

fn parse(file: &[u8]) -> Wbf<'_> {
    Wbf::parse(file).expect("parses")
}

#[test]
fn too_small_and_size_mismatch() {
    assert_eq!(Wbf::parse(&[0u8; 0x30]).err(), Some(WbfError::TooSmall));
    let mut file = one_table(0, &[END]);
    file[4] += 1;
    let actual = file.len();
    let header = actual as u32 + 1;
    assert_eq!(Wbf::parse(&file).err(), Some(WbfError::SizeMismatch { header, actual }));
}

#[test]
fn header_fields() {
    let mut file = one_table(0x04, &[END]);
    file[0x0e] = 0x47;
    file[0x0f] = 0x01;
    let wbf = parse(&file);
    assert_eq!(wbf.fpl_lot(), 327);
    assert_eq!((wbf.mode_count(), wbf.temp_count()), (0, 0));
    assert_eq!(wbf.element_size(), 1024);
    assert_eq!((wbf.end_byte(), wbf.toggle_byte()), (END, TOGGLE));
    assert_eq!((wbf.temp_boundary(0), wbf.temp_boundary(1), wbf.temp_boundary(200)), (5, 100, 100));
    assert_eq!(parse(&one_table(0x08, &[END])).element_size(), 256);
    assert_eq!(parse(&one_table(0x0c, &[END])).element_size(), 256);
    assert_eq!(parse(&one_table(0xf7, &[END])).element_size(), 1024);
}

#[test]
fn out_of_range_mode_and_temp() {
    let file = one_table(0, &[END]);
    let wbf = parse(&file);
    assert_eq!(wbf.decode_table(1, 0), Err(WbfError::ModeOutOfRange { mode: 1, max: 0 }));
    assert_eq!(wbf.decode_table(0, 3), Err(WbfError::TempOutOfRange { temp: 3, max: 0 }));
    // The mode is looked at first.
    assert_eq!(wbf.decode_table(2, 3), Err(WbfError::ModeOutOfRange { mode: 2, max: 0 }));
}

#[test]
fn pointers_past_the_end() {
    let mut file = one_table(0, &[END]);
    let size = file.len();
    // The table itself.
    file[0x35..0x38].copy_from_slice(&(size as u32).to_le_bytes()[..3]);
    assert_eq!(
        parse(&file).decode_table(0, 0),
        Err(WbfError::OffsetOutOfBounds { offset: size, size })
    );
    // The table of temperatures.
    let mut file = one_table(0, &[END]);
    file[0x31..0x34].copy_from_slice(&(size as u32 - 2).to_le_bytes()[..3]);
    assert_eq!(
        parse(&file).decode_table(0, 0),
        Err(WbfError::OffsetOutOfBounds { offset: size - 2, size })
    );
    // The table of modes.
    let mut file = one_table(0, &[END]);
    file[0x20..0x23].copy_from_slice(&[0xff, 0xff, 0xff]);
    assert_eq!(
        parse(&file).decode_table(0, 0),
        Err(WbfError::OffsetOutOfBounds { offset: 0xff_ffff, size })
    );
}

#[test]
fn pointers_have_24_bits() {
    let mut file = one_table(0, &[0x1b, 0, END]);
    file[0x34] = 0x77;
    file[0x38] = 0x88;
    assert_eq!(parse(&file).table_offset(0, 0), Ok(0x39));
    assert_eq!(parse(&file).decode_table(0, 0), Ok(vec![3, 2, 1, 0]));
}

#[test]
fn runs_and_literals() {
    // At first a byte is followed by its run length less one.
    let file = one_table(0, &[0x1b, 1, TOGGLE, 0xe4, 0x00, TOGGLE, 0x55, 0, END]);
    let wbf = parse(&file);
    assert!(wbf.is_terminated(0, 0));
    assert_eq!(
        wbf.decode_table(0, 0),
        Ok(vec![3, 2, 1, 0, 3, 2, 1, 0, 0, 1, 2, 3, 0, 0, 0, 0, 1, 1, 1, 1])
    );
    assert_eq!(parse(&one_table(0, &[END])).decode_table(0, 0), Ok(vec![]));
    assert_eq!(parse(&one_table(0, &[TOGGLE, END])).decode_table(0, 0), Ok(vec![]));
    // A run length may look like a control byte.
    let file = one_table(0, &[0x02, END, END]);
    assert_eq!(parse(&file).decode_table(0, 0).map(|t| t.len()), Ok(4 * 0xef));
}

#[test]
fn tables_without_an_end_marker_are_noticed() {
    assert!(!parse(&one_table(0, &[0x1b, 0])).is_terminated(0, 0));
    assert!(!parse(&one_table(0, &[0x1b])).is_terminated(0, 0));
    assert!(!parse(&one_table(0, &[0x1b, END])).is_terminated(0, 0));
    assert!(!parse(&one_table(0, &[TOGGLE])).is_terminated(0, 0));
    // There is no table to read, so nothing is missing.
    assert!(parse(&one_table(0, &[0x1b])).is_terminated(9, 0));
    let file = one_table(0, &[0x1b, 0]);
    assert!(!WaveformPack::can_build(&parse(&file), &[]));
    // 256 temperatures need 256 boundaries.
    let mut file = one_table(0, &[END]);
    file[0x26] = 0xff;
    assert!(!parse(&file).temp_table_fits());
    assert!(!WaveformPack::can_build(&parse(&file), &[]));
}

#[test]
fn pack_reports_the_first_error() {
    let file = one_table(0, &[END]);
    let wbf = parse(&file);
    let modes = [WbfMode { mode: 3, separate_partial: false, skip_init: false }];
    assert!(WaveformPack::can_build(&wbf, &modes));
    assert_eq!(
        WaveformPack::from_wbf(&wbf, &modes).err(),
        Some(WbfError::ModeOutOfRange { mode: 3, max: 0 })
    );
    let pack = WaveformPack::from_wbf(&wbf, &[]).expect("builds");
    assert_eq!(pack.temp_ranges, [(5, 100)]);
    assert!(pack.init[0].pan_codes.is_empty());
    assert!(pack.modes.is_empty());
}

/// Elements of 256 bytes whose bytes are all `cmds[i]`.
fn uniform(cmds: &[u8]) -> Vec<u8> {
    let mut table = Vec::new();
    for c in cmds {
        table.push(c * 0x55);
        table.push(63);
    }
    table.push(END);
    table
}

#[test]
fn skip_init_drops_leading_zeros() {
    let file = one_table(0, &uniform(&[0, 0, 1, 0, 2, 1, 0, 0, 2, 1]));
    let wbf = parse(&file);
    let plain = WbfMode { mode: 0, separate_partial: false, skip_init: false };
    let short = WbfMode { mode: 0, separate_partial: true, skip_init: true };
    let pack = WaveformPack::from_wbf(&wbf, &[plain, short]).expect("builds");
    let all = &pack.modes[0].full[0];
    assert_eq!(all.phase_count, 10);
    assert_eq!(all.data[0x23], 0b00_00_01_10_00_01_00_00);
    assert_eq!(all.data[256 + 0x23], 0b01_10);
    let skipped = &pack.modes[1].full[0];
    assert_eq!(skipped.phase_count, 10);
    assert_eq!(skipped.data[0x23], 0b01_10_00_00_01_10_00_01);
    assert_eq!(skipped.data[256 + 0x23], 0);
    // Only leading zeros go, pair by pair.
    let cmd = |t: &[u16], p: usize| (t[(p / 8) * 256 + 0x23] >> ((p % 8) * 2)) & 3;
    assert_eq!(all.data.len(), skipped.data.len());
    for p in 0..10 {
        let want = if p + 2 < 10 { cmd(&all.data, p + 2) } else { 0 };
        assert_eq!(cmd(&skipped.data, p), want);
    }
    assert_eq!(pack.modes[1].partial[0].data[0x22], 0);
    assert_eq!(pack.modes[1].partial[0].data[0x23], skipped.data[0x23]);
    assert_eq!(pack.init[0].pan_codes, [0, 0, 1, 0, 2, 1, 0, 0, 2, 1]);
}

#[test]
fn large_elements_have_their_own_strides() {
    // One element of 1024 bytes: literal byte k holds commands 4k to 4k + 3.
    let mut table = vec![TOGGLE];
    for k in 0..256usize {
        table.push(if k == 17 { 0x10 } else { 0x00 });
    }
    table.push(END);
    let file = one_table(0x04, &table);
    let wbf = parse(&file);
    let mode = WbfMode { mode: 0, separate_partial: false, skip_init: false };
    let pack = WaveformPack::from_wbf(&wbf, &[mode]).expect("builds");
    let table = &pack.modes[0].full[0];
    assert_eq!(table.phase_count, 1);
    // Byte 70 = 3 * 2 + 1 * 64 belongs to the pair (3, 1).
    for pair in 0..256usize {
        assert_eq!(table.data[pair], if pair == 0x31 { 1 } else { 0 }, "pair {pair:#x}");
    }
}

#[test]
fn the_standard_modes() {
    let modes = standard_xochitl_modes();
    let numbers: Vec<u8> = modes.iter().map(|m| m.mode).collect();
    assert_eq!(numbers, [1, 2, 3, 6, 7, 1, 2, 7, 4]);
    let separate: Vec<bool> = modes.iter().map(|m| m.separate_partial).collect();
    assert_eq!(separate, [false, true, true, false, false, false, true, false, false]);
    let skip: Vec<bool> = modes.iter().map(|m| m.skip_init).collect();
    assert_eq!(skip, [false, false, false, false, false, true, true, true, false]);
}

#[test]
fn wbf_errors_in_words() {
    assert_eq!(WbfError::TooSmall.message(), "wbf: file smaller than header");
    assert_eq!(
        WbfError::SizeMismatch { header: 4294967295, actual: 10 }.message(),
        "wbf: size header 4294967295 != actual 10"
    );
    assert_eq!(WbfError::ModeOutOfRange { mode: 9, max: 7 }.message(), "wbf: mode 9 > max 7");
    assert_eq!(WbfError::TempOutOfRange { temp: 255, max: 13 }.message(), "wbf: temp 255 > max 13");
    assert_eq!(
        WbfError::OffsetOutOfBounds { offset: 0xffffff, size: 0x1a0 }.message(),
        "wbf: offset 0xffffff >= size 0x1a0"
    );
}

#[test]
fn little_endian_reads() {
    let bytes = [0x11, 0x22, 0x33, 0x44, 0x85];
    assert_eq!(read_le16(&bytes, 1), 0x3322);
    assert_eq!(read_le24(&bytes, 2), 0x854433);
    assert_eq!(read_le32(&bytes, 1), 0x85443322);
    for w in [0u32, 1, 0x4300_0000, 0x1234_5678, u32::MAX] {
        assert_eq!(read_le32(&w.to_le_bytes(), 0), w);
    }
}
