use palit_led::led::{
    blend_in_range, dump, dump_registers, off, read_fw_id, set_color, temp_to_color, TempColor,
    REG_COLORTBL, REG_COMMIT, REG_FWID, REG_PACKET,
};

fn solid(c: TempColor) -> (u8, u8, u8) {
    match c {
        TempColor::Solid(rgb) => rgb,
        TempColor::Blend { .. } => panic!("expected a solid color"),
    }
}

fn blend(c: TempColor) -> ((u8, u8, u8), (u8, u8, u8), i32, i32) {
    match c {
        TempColor::Blend { from, to, num, den } => (from, to, num, den),
        TempColor::Solid(_) => panic!("expected a blend"),
    }
}

#[test]
fn set_color_writes_table_packet_commit() {
    let w = set_color(0x12, 0x34, 0x56, 80);
    assert_eq!(w.len(), 3);
    assert_eq!(w[0].reg, REG_COLORTBL);
    assert_eq!(w[0].data, vec![0x12, 0x34, 0x56, 80, 0x12, 0x34, 0x56, 80]);
    assert_eq!(w[1].reg, REG_PACKET);
    assert_eq!(w[1].data, vec![0, 0, 0, 0, 0x12, 0x34, 0x56, 80, 5]);
    assert_eq!(w[2].reg, REG_COMMIT);
    assert_eq!(w[2].data, vec![1]);
}

#[test]
fn off_is_black_at_zero_brightness() {
    let w = off();
    assert_eq!(w[0].data, vec![0; 8]);
    assert_eq!(w[1].data, vec![0, 0, 0, 0, 0, 0, 0, 0, 5]);
    assert_eq!(w[2].data, vec![1]);
}

#[test]
fn discrete_zones() {
    assert_eq!(solid(temp_to_color(57, 57, 68, 75, 82, false)), (0, 255, 0));
    assert_eq!(solid(temp_to_color(58, 57, 68, 75, 82, false)), (255, 255, 0));
    assert_eq!(solid(temp_to_color(68, 57, 68, 75, 82, false)), (255, 255, 0));
    assert_eq!(solid(temp_to_color(75, 57, 68, 75, 82, false)), (255, 140, 0));
    assert_eq!(solid(temp_to_color(76, 57, 68, 75, 82, false)), (255, 0, 0));
    assert_eq!(solid(temp_to_color(-40, 57, 68, 75, 82, false)), (0, 255, 0));
}

#[test]
fn smooth_blends_and_ends() {
    assert_eq!(solid(temp_to_color(40, 57, 68, 75, 82, true)), (0, 255, 0));
    assert_eq!(blend(temp_to_color(60, 57, 68, 75, 82, true)), ((0, 255, 0), (255, 255, 0), 3, 11));
    assert_eq!(blend(temp_to_color(70, 57, 68, 75, 82, true)), ((255, 255, 0), (255, 140, 0), 2, 7));
    assert_eq!(blend(temp_to_color(80, 57, 68, 75, 82, true)), ((255, 140, 0), (255, 0, 0), 5, 7));
    assert_eq!(solid(temp_to_color(82, 57, 68, 75, 82, true)), (255, 0, 0));
    assert_eq!(solid(temp_to_color(99, 57, 68, 75, 82, true)), (255, 0, 0));
    // upper bound of the yellow zone: a complete blend onto yellow
    assert_eq!(blend(temp_to_color(68, 57, 68, 75, 82, true)), ((0, 255, 0), (255, 255, 0), 11, 11));
}

#[test]
fn smooth_zone_widths_must_fit_i32() {
    assert!(blend_in_range(0, -2_000_000_000, 2_000_000_000, 2_000_000_001, 2_000_000_002, false));
    assert!(!blend_in_range(0, -2_000_000_000, 2_000_000_000, 2_000_000_001, 2_000_000_002, true));
    assert!(blend_in_range(60, 57, 68, 75, 82, true));
}

#[test]
fn fw_id_keeps_printable_ascii() {
    let data = vec![b'P', b'A', b'L', b'I', b'T', 0, 0x7F, b' ', b'1', 0xFF, b'~', 31, b'5', b'0', b'2', b'!'];
    assert_eq!(read_fw_id(&data), "PALIT.. 1.~.502!");
    assert_eq!(read_fw_id(&[]), "");
}

#[test]
fn dump_reads_five_registers_and_keeps_successes() {
    let regs = dump_registers();
    assert_eq!(regs, vec![0x60, 0x6C, 0xB0, 0xE0, REG_FWID]);
    let reads = vec![
        (0x60, Some(vec![1u8, 2])),
        (0x6C, None),
        (0xB0, Some(vec![])),
        (0xE0, None),
        (0xF0, Some(vec![9u8])),
    ];
    assert_eq!(dump(&reads), vec![(0x60, vec![1, 2]), (0xB0, vec![]), (0xF0, vec![9])]);
}
