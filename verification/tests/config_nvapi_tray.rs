use palit_led::config::{GpuSel, StaticCfg, TempCfg};
use palit_led::nvapi::{
    check_gpu_index, i2c_status, make_info, thermal_core_temp, thermal_request, I2cOp,
    I2C_INFO_VERSION,
};
use palit_led::tray::{set_tip, tray_interval, tray_tip, wide};

#[test]
fn resolve_selections() {
    assert_eq!(GpuSel::All("all".to_string()).resolve(3), vec![0, 1, 2]);
    assert_eq!(GpuSel::All("aLL".to_string()).resolve(2), vec![0, 1]);
    assert_eq!(GpuSel::All("some".to_string()).resolve(3), vec![0]);
    assert_eq!(GpuSel::All("all".to_string()).resolve(0), Vec::<usize>::new());
    assert_eq!(GpuSel::List(vec![3, 0, 5, 1]).resolve(4), vec![3, 0, 1]);
    assert_eq!(GpuSel::default().resolve(2), vec![0]);
}

#[test]
fn default_settings() {
    let t = TempCfg::default();
    assert_eq!((t.interval_ms, t.green_max, t.yellow_max, t.orange_max, t.red_full, t.smooth), (1000, 57, 68, 75, 82, true));
    let s = StaticCfg::default();
    assert_eq!(s.color, "00FF00");
}

#[test]
fn i2c_descriptor() {
    let i = make_info(0x92, 9, 1);
    assert_eq!(i.version, I2C_INFO_VERSION);
    assert_eq!(i.version, 0x0003_0040);
    assert_eq!((i.dev_addr, i.reg_size, i.cb_size, i.i2c_speed, i.port_id, i.is_port_set), (0x92, 1, 9, 0xFFFF, 1, 1));
    assert_eq!(make_info(0x92, 16, 0).is_port_set, 0);
}

#[test]
fn thermal_buffer_and_decode() {
    let mut b = thermal_request();
    assert_eq!(b.len(), 84);
    assert_eq!(&b[0..4], &[0x44, 0x00, 0x02, 0x00]);
    assert!(b[4..].iter().all(|&x| x == 0));
    b[20..24].copy_from_slice(&57i32.to_le_bytes());
    assert_eq!(thermal_core_temp(&b), 57);
    b[20..24].copy_from_slice(&(-5i32).to_le_bytes());
    assert_eq!(thermal_core_temp(&b), -5);
    b[20..24].copy_from_slice(&i32::MIN.to_le_bytes());
    assert_eq!(thermal_core_temp(&b), i32::MIN);
}

#[test]
fn gpu_index_and_status_messages() {
    assert_eq!(check_gpu_index(0, 1), Ok(()));
    assert_eq!(check_gpu_index(2, 2), Err("GPU index 2 out of range (have 2)".to_string()));
    assert_eq!(i2c_status(I2cOp::Write, 0), Ok(()));
    assert_eq!(i2c_status(I2cOp::Write, -5), Err("I2CWriteEx status -5".to_string()));
    assert_eq!(i2c_status(I2cOp::Read, 12), Err("I2CReadEx status 12".to_string()));
}

#[test]
fn wide_strings() {
    assert_eq!(wide("Exit"), vec![69, 120, 105, 116, 0]);
    assert_eq!(wide(""), vec![0]);
    let s = "aé€😀";
    let mut expected: Vec<u16> = s.encode_utf16().collect();
    expected.push(0);
    assert_eq!(wide(s), expected);
}

#[test]
fn tooltip_text_and_buffer() {
    assert_eq!(tray_tip(&[0, 1], &[57, -3]), "palit-led  GPU0 57C  GPU1 -3C");
    assert_eq!(tray_tip(&[], &[]), "palit-led  ");
    let mut tip = [7u16; 6];
    set_tip(&mut tip, "ab");
    assert_eq!(tip, [97, 98, 0, 7, 7, 7]);
    let mut small = [7u16; 3];
    set_tip(&mut small, "abcdef");
    assert_eq!(small, [97, 98, 99]);
}

#[test]
fn tray_interval_at_least_200() {
    assert_eq!(tray_interval(1000), 1000);
    assert_eq!(tray_interval(10), 200);
    assert_eq!(tray_interval(u64::from(u32::MAX) + 1), 0);
}
