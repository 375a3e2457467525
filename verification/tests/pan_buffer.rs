//! The pan-buffer fill, cell by cell. The panel reads these control bits and
//! silently misbehaves if any are wrong.

use swtcon::constants::{
    PAN_BITS_PER_PIXEL, PAN_BUFFERS_COUNT, PAN_BUFFER_SIZE, PAN_LINE_SIZE, SCREEN_HEIGHT,
    SCREEN_WIDTH,
};
use swtcon::fb::{
    allocate_zero_pan_buffer, fill_first_line, fill_line, fill_pan_buffer, map_len, or_in_range,
    pan_offset, screen_geometry, slot_offset, unblank_step, UnblankStep, PREAMBLE_ROWS, SLOT_BYTES,
};

const CELLS_PER_LINE: usize = PAN_LINE_SIZE / 4;

fn cells_of(buf: &[u8]) -> Vec<u32> {
    buf.chunks_exact(4)
        .map(|c| u32::from_le_bytes([c[0], c[1], c[2], c[3]]))
        .collect()
}

#[test]
fn first_line_base_pattern() {
    let mut line = vec![0u32; CELLS_PER_LINE];
    fill_first_line(&mut line);
    assert_eq!(line[0], 0x0043_0000, "cell 0 base");
    assert_eq!(line[15], 0x0043_0000, "cell 15 (before any overlay)");
    assert_eq!(line[19], 0x0043_0000, "cell 19 (just before 0x40000 range)");
    assert_eq!(line[143], 0x0043_0000, "cell 143 (just after 0x40000 range)");
    assert_eq!(line[CELLS_PER_LINE - 1], 0x0043_0000, "last cell");
}

#[test]
fn first_line_or_overlay() {
    let mut line = vec![0u32; CELLS_PER_LINE];
    fill_first_line(&mut line);
    for i in 20..143 {
        assert_eq!(line[i] & 0x0004_0000, 0x0004_0000, "cell {i} should have 0x40000");
    }
    assert_eq!(line[19] & 0x0004_0000, 0);
    assert_eq!(line[143] & 0x0004_0000, 0);
}

#[test]
fn first_line_clear_mask() {
    let mut line = vec![0u32; CELLS_PER_LINE];
    fill_first_line(&mut line);
    for i in 40..103 {
        assert_eq!(line[i] & 0x0002_0000, 0, "cell {i} should have bit 17 cleared");
    }
}

#[test]
fn fill_line_no_value() {
    let mut line = vec![0u32; CELLS_PER_LINE];
    fill_line(&mut line, None);
    assert_eq!(line[0], 0x0041_0000, "cell 0 base");
    for i in 8..19 {
        assert_eq!(line[i] & 0x0020_0000, 0x0020_0000, "cell {i} +0x200000");
    }
    for i in 55..255 {
        assert_eq!(line[i] & 0x0002_0000, 0x0002_0000, "cell {i} +0x20000");
    }
    for i in 0x1a..0x1a + 0xea {
        assert_eq!(line[i] & 0x0010_0000, 0, "cell {i} no 0x100000");
        assert_eq!(line[i] & 0x0000_ffff, 0, "cell {i} no pixel data");
    }
}

#[test]
fn fill_line_with_value() {
    let mut line = vec![0u32; CELLS_PER_LINE];
    fill_line(&mut line, Some(0xABCD));
    for i in 0x1a..0x1a + 0xea {
        assert_eq!(line[i] & 0x0010_0000, 0x0010_0000, "cell {i} +0x100000");
        assert_eq!(line[i] & 0x0000_ffff, 0xABCD, "cell {i} pixel = 0xABCD");
    }
    assert_eq!(line[0x19] & 0x0000_ffff, 0);
}

#[test]
fn pan_buffer_layout() {
    let mut buf = vec![0u8; PAN_BUFFER_SIZE * PAN_LINE_SIZE];
    fill_pan_buffer(&mut buf, 0);
    let cells = cells_of(&buf);

    let mut expected_row0 = vec![0u32; CELLS_PER_LINE];
    fill_first_line(&mut expected_row0);
    assert_eq!(&cells[0..CELLS_PER_LINE], &expected_row0[..], "row 0");

    let mut expected_preamble = vec![0u32; CELLS_PER_LINE];
    fill_line(&mut expected_preamble, None);
    assert_eq!(&cells[CELLS_PER_LINE..2 * CELLS_PER_LINE], &expected_preamble[..], "row 1");
    assert_eq!(&cells[2 * CELLS_PER_LINE..3 * CELLS_PER_LINE], &expected_preamble[..], "row 2");

    let mut expected_template = vec![0u32; CELLS_PER_LINE];
    fill_line(&mut expected_template, Some(0));
    assert_eq!(
        &cells[3 * CELLS_PER_LINE..4 * CELLS_PER_LINE],
        &expected_template[..],
        "row 3 template"
    );

    for line_idx in 0..SCREEN_WIDTH {
        let row_start = (4 + line_idx) * CELLS_PER_LINE;
        assert_eq!(
            &cells[row_start..row_start + CELLS_PER_LINE],
            &expected_template[..],
            "row {} should be a copy of row 3",
            4 + line_idx
        );
    }
}

#[test]
fn pan_buffer_value_propagates() {
    let mut buf = vec![0u8; PAN_BUFFER_SIZE * PAN_LINE_SIZE];
    fill_pan_buffer(&mut buf, 0xDEAD);
    let cells = cells_of(&buf);

    let row3_start = 3 * CELLS_PER_LINE;
    assert_eq!(cells[row3_start + 0x1a] & 0xffff, 0xDEAD);
    let row99_start = (4 + 99) * CELLS_PER_LINE;
    assert_eq!(cells[row99_start + 0x80] & 0xffff, 0xDEAD);
}

#[test]
fn only_the_low_half_of_a_pixel_word_is_used() {
    let mut line = vec![0u32; CELLS_PER_LINE];
    fill_line(&mut line, Some(0xFFFF_1234));
    assert_eq!(line[25], 0x0041_0000);
    assert_eq!(line[26], 0x0051_1234);
    assert_eq!(line[60], 0x0053_1234);
    assert_eq!(line[259], 0x0051_1234);
}

#[test]
fn filling_leaves_what_follows_alone() {
    let mut line = vec![7u32; CELLS_PER_LINE + 2];
    fill_line(&mut line, None);
    assert_eq!(&line[CELLS_PER_LINE..], &[7, 7]);
    fill_first_line(&mut line);
    assert_eq!(&line[CELLS_PER_LINE..], &[7, 7]);

    let mut buf = vec![9u8; SLOT_BYTES + 3];
    fill_pan_buffer(&mut buf, 1);
    assert_eq!(&buf[SLOT_BYTES..], &[9, 9, 9]);
    assert_eq!(buf[0..4], [0, 0, 0x43, 0]);
}

#[test]
fn or_in_range_touches_its_range_only() {
    let mut line = vec![0x1u32; 8];
    or_in_range(&mut line, 0x6, 2, 3);
    assert_eq!(line, [1, 1, 7, 7, 7, 1, 1, 1]);
    or_in_range(&mut line, 0x8, 8, 0);
    assert_eq!(line, [1, 1, 7, 7, 7, 1, 1, 1]);
}

#[test]
fn flags_do_not_depend_on_the_value() {
    let zero = allocate_zero_pan_buffer();
    let mut other = vec![0u8; SLOT_BYTES];
    fill_pan_buffer(&mut other, 0xaaaa);
    assert_eq!(zero.len(), SLOT_BYTES);
    for i in 0..SLOT_BYTES / 4 {
        assert_eq!(zero[4 * i + 2], other[4 * i + 2]);
        assert_eq!(zero[4 * i + 3], other[4 * i + 3]);
    }
    assert_eq!(other[3 * PAN_LINE_SIZE + 26 * 4], 0xaa);
}

#[test]
fn dimensions() {
    assert_eq!((SCREEN_WIDTH, SCREEN_HEIGHT), (1404, 1872));
    assert_eq!((PAN_BUFFERS_COUNT, PAN_BUFFER_SIZE, PAN_LINE_SIZE), (16, 1408, 1040));
    assert_eq!(PAN_BITS_PER_PIXEL, 4);
    assert_eq!(PREAMBLE_ROWS + SCREEN_WIDTH, PAN_BUFFER_SIZE);
    assert_eq!(SLOT_BYTES, PAN_BUFFER_SIZE * PAN_LINE_SIZE);
}

#[test]
fn geometry_of_the_ring() {
    let g = screen_geometry(16);
    assert_eq!((g.xres, g.yres), (260, 1408));
    assert_eq!((g.xres_virtual, g.yres_virtual), (260, 17 * 1408));
    assert_eq!((g.xoffset, g.yoffset), (0, 16 * 1408));
    assert_eq!((g.bits_per_pixel, g.pixclock), (32, 0x7080));
    assert_eq!((g.left_margin, g.right_margin, g.upper_margin, g.lower_margin), (1, 1, 1, 143));
    assert_eq!((g.hsync_len, g.vsync_len), (1, 1));
    assert_eq!(map_len(16), 17 * 1464320);
    assert_eq!(slot_offset(16, 16), 16 * 1464320);
    assert_eq!(pan_offset(3), 4224);
    for i in 0..16 {
        assert_eq!(slot_offset(16, i) + SLOT_BYTES, slot_offset(16, i + 1));
    }
}

#[test]
fn unblanking_is_tried_five_times() {
    assert_eq!(unblank_step(1, true), UnblankStep::Done);
    assert_eq!(unblank_step(1, false), UnblankStep::Retry);
    assert_eq!(unblank_step(4, false), UnblankStep::Retry);
    assert_eq!(unblank_step(5, false), UnblankStep::GiveUp);
    assert_eq!(unblank_step(5, true), UnblankStep::Done);
}
