//! The library's front: modes, rectangles, temperature, messages, INIT clear.

use std::sync::Arc;

use swtcon::runtime::{PanelRect, SharedState, UpdateMsg};
use swtcon::sensor::{parse_temperature, probe, Probe};
use swtcon::slots::{
    clear_dirty_buffer, commit_change_tracking, encode_phase_into, new_change_tracking,
    new_dirty_row, zero_content_line,
};
use swtcon::swtcon::{build_msg_buffer, init_clear_plan, lookup, pick_temp_idx, InitStep};
use swtcon::text::{push_decimal, push_hexadecimal};
use swtcon::waveform::{ModeWaveform, PhaseTable, WaveformPack};
use swtcon::wbf::WbfError;
use swtcon::{Error, Mode, Rect, Swtcon};

const PIXELS: usize = 1404 * 1872;

fn put24(file: &mut [u8], at: usize, value: usize) {
    file[at..at + 3].copy_from_slice(&(value as u32).to_le_bytes()[..3]);
}

/// A file with 8 modes and the given temperature bounds. Mode `m` has `m + 1`
/// phases; all of its commands are 1.
fn small_file(bounds: &[u8]) -> Vec<u8> {
    let mut file = vec![0u8; 0x30];
    file.extend_from_slice(bounds);
    let modes_at = file.len();
    file.resize(modes_at + 32, 0);
    for mode in 0..8 {
        let temps_at = file.len();
        put24(&mut file, modes_at + mode * 4, temps_at);
        file.resize(temps_at + bounds.len() * 4, 0);
        for temp in 0..bounds.len() {
            let table_at = file.len();
            put24(&mut file, temps_at + temp * 4, table_at);
            for _ in 0..mode + 1 {
                file.extend_from_slice(&[0x55, 63]);
            }
            file.push(0xff);
        }
    }
    let size = file.len() as u32;
    file[4..8].copy_from_slice(&size.to_le_bytes());
    put24(&mut file, 0x20, modes_at);
    file[0x25] = 7;
    file[0x26] = bounds.len() as u8 - 1;
    file[0x28] = 0xff;
    file[0x29] = 0xfc;
    file
}

#[test]
fn modes_find_their_tables() {
    let front = Swtcon::open(&small_file(&[0, 10]), Some(3)).expect("opens");
    let image = vec![0u16; PIXELS];
    let rect = Rect { x1: 0, y1: 0, x2: 0, y2: 0 };
    // The number of phases tells the WBF mode.
    for (mode, index, phases) in [
        (Mode::Du, 0, 2),
        (Mode::Gc16, 1, 3),
        (Mode::Gc16Fast, 2, 4),
        (Mode::Glf, 3, 7),
        (Mode::Du4, 4, 8),
        (Mode::A2, 8, 5),
    ] {
        assert_eq!(mode.pack_index(), index);
        let msg = front.update_message(&image, rect, mode, None).expect("message");
        assert_eq!(msg.waveform.phase_count, phases, "{mode:?}");
    }
}

#[test]
fn opening_reports_file_errors() {
    assert_eq!(Swtcon::open(&[], None).err(), Some(Error::Wbf(WbfError::TooSmall)));
    let mut file = small_file(&[0]);
    file.push(0);
    assert_eq!(
        Swtcon::open(&file, None).err(),
        Some(Error::Wbf(WbfError::SizeMismatch {
            header: file.len() as u32 - 1,
            actual: file.len(),
        }))
    );
    let mut file = small_file(&[0]);
    file[0x25] = 3;
    assert_eq!(
        Swtcon::open(&file, None).err(),
        Some(Error::Wbf(WbfError::ModeOutOfRange { mode: 6, max: 3 }))
    );
}

#[test]
fn temperature_index() {
    let ranges = [(0, 3), (3, 6), (6, 9), (9, 100)];
    assert_eq!(pick_temp_idx(&ranges, Some(-40)), 0);
    assert_eq!(pick_temp_idx(&ranges, Some(2)), 0);
    assert_eq!(pick_temp_idx(&ranges, Some(3)), 1);
    assert_eq!(pick_temp_idx(&ranges, Some(8)), 2);
    assert_eq!(pick_temp_idx(&ranges, Some(9)), 3);
    assert_eq!(pick_temp_idx(&ranges, Some(500)), 3);
    assert_eq!(pick_temp_idx(&ranges, None), 3);
    assert_eq!(pick_temp_idx(&[(0, 1); 14], None), 7);
    assert_eq!(pick_temp_idx(&[(0, 1); 8], None), 7);
    assert_eq!(pick_temp_idx(&[(0, 1); 7], None), 6);
    assert_eq!(pick_temp_idx(&[], None), 0);
    assert_eq!(pick_temp_idx(&[], Some(20)), 0);
}

#[test]
fn opening_picks_the_temperature() {
    let file = small_file(&[0, 10, 20]);
    assert_eq!(Swtcon::open(&file, Some(15)).expect("opens").temp_idx(), 1);
    assert_eq!(Swtcon::open(&file, Some(99)).expect("opens").temp_idx(), 2);
    let front = Swtcon::open(&file, None).expect("opens");
    assert_eq!(front.temp_idx(), 2);
    assert_eq!(front.waveforms().temp_ranges, [(0, 10), (10, 20), (20, 100)]);
    assert_eq!(front.waveforms().modes.len(), 9);
}

#[test]
fn sensor_texts() {
    assert_eq!(parse_temperature("24\n"), Some(24));
    assert_eq!(parse_temperature("  -7 "), Some(-7));
    assert_eq!(parse_temperature("+30"), Some(30));
    assert_eq!(parse_temperature("\u{2003}0012\u{a0}"), Some(12));
    assert_eq!(parse_temperature("-0"), Some(0));
    assert_eq!(parse_temperature("2147483647"), Some(i32::MAX));
    assert_eq!(parse_temperature("-2147483648"), Some(i32::MIN));
    assert_eq!(parse_temperature("2147483648"), None);
    assert_eq!(parse_temperature("-2147483649"), None);
    assert_eq!(parse_temperature("99999999999999999999999999"), None);
    assert_eq!(parse_temperature(""), None);
    assert_eq!(parse_temperature(" \n"), None);
    assert_eq!(parse_temperature("-"), None);
    assert_eq!(parse_temperature("+"), None);
    assert_eq!(parse_temperature("+-1"), None);
    assert_eq!(parse_temperature("2 4"), None);
    assert_eq!(parse_temperature("24C"), None);
    assert_eq!(parse_temperature("\u{661}"), None);
    for text in ["0", "7", "-19", "  100\t", "12x", "٣", "+", "--1", "000"] {
        assert_eq!(parse_temperature(text), text.trim().parse::<i32>().ok(), "{text}");
    }
}

#[test]
fn sensor_names() {
    assert_eq!(probe(Some("sy7636a_temperature\n")), Probe::Read);
    assert_eq!(probe(Some(" sy7636a_temperature")), Probe::Read);
    assert_eq!(probe(Some("sy7636a_temperatur")), Probe::Skip);
    assert_eq!(probe(Some("max77818-charger\n")), Probe::Skip);
    assert_eq!(probe(Some("")), Probe::Skip);
    assert_eq!(probe(None), Probe::GiveUp);
}

#[test]
fn rectangles_on_the_panel() {
    assert_eq!(Rect::full(), Rect { x1: 0, y1: 0, x2: 1403, y2: 1871 });
    assert_eq!(
        Rect::full().to_panel(),
        PanelRect { row_min: 0, row_max: 1871, col_min: 0, col_max: 1403 }
    );
    // Both axes flip, and rows are rounded outward.
    assert_eq!(
        Rect { x1: 10, y1: 20, x2: 12, y2: 21 }.to_panel(),
        PanelRect { row_min: 1848, row_max: 1855, col_min: 1391, col_max: 1393 }
    );
    // What lies off the screen is cut to its edge.
    assert_eq!(
        Rect { x1: 1400, y1: 1870, x2: 65535, y2: 65535 }.to_panel(),
        PanelRect { row_min: 0, row_max: 7, col_min: 0, col_max: 3 }
    );
    assert!(Rect::full().is_ordered());
    assert!(!Rect { x1: 5, y1: 0, x2: 4, y2: 0 }.is_ordered());
    assert!(!Rect { x1: 0, y1: 100, x2: 0, y2: 0 }.is_ordered());
    // Rounding can put the rows back in order.
    assert!(Rect { x1: 0, y1: 1871, x2: 0, y2: 1870 }.is_ordered());
    assert!(Rect { x1: 2000, y1: 0, x2: 1900, y2: 0 }.is_ordered());
}

#[test]
fn message_buffer_is_rotated() {
    let image: Vec<u16> = (0..PIXELS).map(|i| ((i * 7) % 65536) as u16).collect();
    let rect = Rect { x1: 100, y1: 200, x2: 102, y2: 216 };
    let (panel, buffer, width) = build_msg_buffer(&image, rect);
    assert_eq!(panel, PanelRect { row_min: 1648, row_max: 1671, col_min: 1301, col_max: 1303 });
    assert_eq!(width, 24);
    assert_eq!(buffer.len(), 3 * 24);
    for col in 1301..=1303usize {
        for row in 1648..=1671usize {
            let pixel = image[(1871 - row) * 1404 + (1403 - col)];
            let gray = ((pixel & 0xff) >> 1) & 0xf;
            assert_eq!(buffer[(col - 1301) * 24 + (row - 1648)] as u16, gray);
        }
    }
}

#[test]
fn gray_levels() {
    let mut image = vec![0u16; PIXELS];
    // The corner (1403, 1871) is panel position (0, 0).
    image[PIXELS - 1] = 0x001e;
    image[PIXELS - 1404 - 1] = 0xff01;
    image[PIXELS - 2 * 1404 - 1] = 0x00ff;
    image[PIXELS - 3 * 1404 - 1] = 0x0020;
    let rect = Rect { x1: 1403, y1: 1871, x2: 1403, y2: 1871 };
    let (_, buffer, _) = build_msg_buffer(&image, rect);
    assert_eq!(buffer, [15, 0, 15, 0, 0, 0, 0, 0]);
}

#[test]
fn updates_are_enqueued_or_refused() {
    let front = Swtcon::open(&small_file(&[0]), None).expect("opens");
    let mut state = SharedState::new();
    let short = vec![0u16; 10];
    assert_eq!(
        front.update(&mut state, &short, Rect::full(), Mode::Du),
        Err(Error::BufferSize { expected: 2628288, got: 10 })
    );
    assert_eq!(front.pending(&state), 0);
    let image = vec![0x001eu16; PIXELS];
    let rect = Rect { x1: 0, y1: 0, x2: 3, y2: 7 };
    assert_eq!(front.update(&mut state, &image, rect, Mode::Gc16), Ok(()));
    assert_eq!(
        front.update_with_limit(&mut state, &image, rect, Mode::Glf, Some(3)),
        Ok(())
    );
    assert_eq!(front.pending(&state), 2);
    let first = state.msg_queue.pop_front().expect("queued");
    assert_eq!(first.phase_limit, None);
    assert_eq!(first.rect, PanelRect { row_min: 1864, row_max: 1871, col_min: 1400, col_max: 1403 });
    assert!(first.buffer.iter().all(|g| *g == 15));
    assert!(first.is_valid());
    let second = state.msg_queue.pop_front().expect("queued");
    assert_eq!((second.phase_limit, second.total_phases()), (Some(3), 3));
}

#[test]
fn flushing() {
    let front = Swtcon::open(&small_file(&[0]), None).expect("opens");
    let mut state = SharedState::new();
    assert_eq!(front.flush(&state, true), Some(Ok(())));
    let image = vec![0u16; PIXELS];
    let rect = Rect { x1: 0, y1: 0, x2: 0, y2: 0 };
    front.update(&mut state, &image, rect, Mode::Du).expect("enqueues");
    assert_eq!(front.flush(&state, false), None);
    assert_eq!(front.flush(&state, true), Some(Err(Error::FlushTimeout)));
}

#[test]
fn missing_tables() {
    let table = Arc::new(PhaseTable { phase_count: 1, data: vec![0; 256] });
    let mode = ModeWaveform { full: vec![], partial: vec![table] };
    let pack = WaveformPack { temp_ranges: vec![(0, 100)], init: vec![], modes: vec![mode] };
    assert_eq!(lookup(&pack, 0, Mode::Du).map(|t| t.phase_count), Ok(1));
    assert_eq!(
        lookup(&pack, 1, Mode::Du).err(),
        Some(Error::NoWaveform { mode_idx: 0, temp_idx: 1 })
    );
    assert_eq!(
        lookup(&pack, 0, Mode::A2).err(),
        Some(Error::NoWaveform { mode_idx: 8, temp_idx: 0 })
    );
}

#[test]
fn errors_in_words() {
    assert_eq!(
        Error::BufferSize { expected: 2628288, got: 0 }.message(),
        "image buffer length mismatch: expected 2628288, got 0"
    );
    assert_eq!(
        Error::NoWaveform { mode_idx: 8, temp_idx: 14 }.message(),
        "no waveform for mode_idx=8 temp_idx=14"
    );
    assert_eq!(Error::FlushTimeout.message(), "flush timed out");
    assert_eq!(Error::from(WbfError::TooSmall), Error::Wbf(WbfError::TooSmall));
    assert_eq!(Error::from(WbfError::TooSmall).message(), WbfError::TooSmall.message());
}

#[test]
fn numbers_as_text() {
    for n in [0u64, 9, 10, 15, 16, 255, 256, 1000, 4294967296, u64::MAX] {
        let mut out = String::from("n=");
        push_decimal(&mut out, n);
        assert_eq!(out, format!("n={n}"));
        let mut out = String::new();
        push_hexadecimal(&mut out, n);
        assert_eq!(out, format!("{n:x}"));
    }
}

#[test]
fn init_clear() {
    assert_eq!(init_clear_plan(&[]), []);
    let plan = init_clear_plan(&[0x11, 0x02, 0xf0]);
    assert_eq!(
        plan,
        [
            InitStep::Fill { slot_idx: 0, value: 0 },
            InitStep::Fill { slot_idx: 1, value: 0x5555 },
            InitStep::Fill { slot_idx: 2, value: 0xaaaa },
            InitStep::Unblank { slot_idx: 1 },
            InitStep::Pan { slot_idx: 16 },
            InitStep::Pan { slot_idx: 2 },
            InitStep::Pan { slot_idx: 0 },
            InitStep::Pan { slot_idx: 16 },
            InitStep::Blank,
            InitStep::Fill { slot_idx: 0, value: 0 },
            InitStep::Fill { slot_idx: 1, value: 0 },
            InitStep::Fill { slot_idx: 2, value: 0 },
        ]
    );
    let front = Swtcon::open(&small_file(&[0]), None).expect("opens");
    assert_eq!(front.init_clear(), init_clear_plan(&[1]));
}

#[test]
fn an_update_goes_through_the_slot_operations() {
    let front = Swtcon::open(&small_file(&[0]), None).expect("opens");
    let image = vec![0u16; PIXELS];
    let rect = Rect { x1: 1403, y1: 1864, x2: 1403, y2: 1871 };
    let msg = front.update_message(&image, rect, Mode::Gc16, None).expect("message");
    let mut change = new_change_tracking();
    let mut dirty = new_dirty_row();
    let mut slot = swtcon::fb::allocate_zero_pan_buffer();
    let zero = slot.clone();
    assert!(change.iter().all(|c| *c == 0xff));

    encode_phase_into(&change, &mut slot, &mut dirty, &msg, 0);
    let at = 4 * 1040 + 26 * 4;
    assert_eq!(slot[at..at + 4], [0x55, 0x55, zero[at + 2], zero[at + 3]]);
    assert_eq!(dirty[0], 1);
    clear_dirty_buffer(&mut slot, &mut dirty, &zero_content_line());
    assert!(slot == zero);
    assert_eq!(dirty[0], 0);

    commit_change_tracking(&mut change, &msg);
    // Panel column 0 comes last.
    for row in 0..16 {
        let want = if row < 8 { 0 } else { 0xff };
        assert_eq!(change[1403 * 1872 + row], want);
    }
    // With the pixels committed, the partial table drives nothing.
    encode_phase_into(&change, &mut slot, &mut dirty, &msg, 0);
    assert!(slot == zero);
}

#[test]
fn every_pixel_gets_its_command() {
    let data: Vec<u16> = (0..512u32).map(|i| (i.wrapping_mul(40503) >> 3) as u16).collect();
    let msg = UpdateMsg {
        rect: PanelRect { row_min: 8, row_max: 23, col_min: 7, col_max: 8 },
        buffer: (0..32u8).map(|i| i.wrapping_mul(37)).collect(),
        width: 16,
        waveform: Arc::new(PhaseTable { phase_count: 11, data: data.clone() }),
        phase_limit: None,
    };
    let mut change = new_change_tracking();
    for (i, c) in change.iter_mut().enumerate() {
        *c = (i % 251) as u8;
    }
    for phase in 0..11usize {
        let mut slot = swtcon::fb::allocate_zero_pan_buffer();
        let mut dirty = new_dirty_row();
        encode_phase_into(&change, &mut slot, &mut dirty, &msg, phase as u32);
        for col in 7..=8usize {
            for row in 8..=23usize {
                let at = (4 + col) * 1040 + (26 + row / 8) * 4;
                let word = u16::from_le_bytes([slot[at], slot[at + 1]]);
                let src = (change[(1403 - col) * 1872 + row] & 0xf) as usize;
                let tgt = (msg.buffer[(col - 7) * 16 + (row - 8)] & 0xf) as usize;
                let entry = data[(phase / 8) * 256 + src * 16 + tgt];
                let want = (entry >> ((phase % 8) * 2)) & 3;
                assert_eq!((word >> ((7 - row % 8) * 2)) & 3, want, "{phase} {col} {row}");
            }
        }
    }
}
