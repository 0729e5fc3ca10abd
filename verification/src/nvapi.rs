//! The data of the NvAPI calls that drive the LED: the I2C request descriptor, the
//! thermal-settings buffer, and the checks on GPU indices and call status. The calls
//! themselves (through `nvapi64.dll`) are made by the program around this library.

use vstd::prelude::*;
use crate::text::{dec_digits, push_dec, push_signed_dec, push_str, signed_dec_digits};

verus! {

/// Version tag of `NV_I2C_INFO_V3` (64 bytes).
pub const I2C_INFO_VERSION: u32 = 0x0003_0040;
/// Version tag of `NV_GPU_THERMAL_SETTINGS_V2`.
pub const THERMAL_VERSION: u32 = 0x0002_0044;
/// Size of the thermal-settings buffer, in bytes.
pub const THERMAL_BUF_LEN: usize = 84;
/// Sensor selector for "all sensors".
pub const THERMAL_ALL_SENSORS: u32 = 15;
/// Offset of sensor 0's current temperature in the thermal-settings buffer.
pub const THERMAL_TEMP_OFFSET: usize = 20;
/// Number of register-address bytes sent with each I2C transfer.
pub const I2C_REG_SIZE: u32 = 1;
/// I2C speed field sent with every transfer.
pub const I2C_SPEED_DEFAULT: u32 = 0xFFFF;

/// The plain fields of `NV_I2C_INFO_V3`; the register and data buffer addresses are
/// filled in by the caller that owns the buffers.
pub struct I2cInfo {
    pub version: u32,
    pub display_mask: u32,
    pub is_ddc: u8,
    pub dev_addr: u8,
    pub reg_size: u32,
    pub cb_size: u32,
    pub i2c_speed: u32,
    pub speed_khz: u32,
    pub port_id: u8,
    pub is_port_set: u32,
}

/// The descriptor of one I2C transfer of `data_len` bytes to or from device `dev`, at a
/// one-byte register address, on `port` (port 0 means "not set").
pub fn make_info(dev: u8, data_len: usize, port: u8) -> (info: I2cInfo)
    ensures
        info.version == I2C_INFO_VERSION,
        info.display_mask == 0,
        info.is_ddc == 0,
        info.dev_addr == dev,
        info.reg_size == I2C_REG_SIZE,
        info.cb_size == data_len as u32,
        info.i2c_speed == I2C_SPEED_DEFAULT,
        info.speed_khz == 0,
        info.port_id == port,
        info.is_port_set == (if port != 0 { 1u32 } else { 0u32 }),
{
    I2cInfo {
        version: I2C_INFO_VERSION,
        display_mask: 0,
        is_ddc: 0,
        dev_addr: dev,
        reg_size: I2C_REG_SIZE,
        cb_size: data_len as u32,
        i2c_speed: I2C_SPEED_DEFAULT,
        speed_khz: 0,
        port_id: port,
        is_port_set: if port != 0 { 1 } else { 0 },
    }
}

/// The little-endian bytes of a `u32`.
pub open spec fn le_bytes(v: u32) -> Seq<u8> {
    seq![(v % 256) as u8, ((v / 256) % 256) as u8, ((v / 65536) % 256) as u8, (v / 16777216) as u8]
}

/// The buffer handed to `GetThermalSettings`: its version tag in little-endian order,
/// then zeros.
pub fn thermal_request() -> (buf: Vec<u8>)
    ensures
        buf@.len() == THERMAL_BUF_LEN,
        buf@.take(4) == le_bytes(THERMAL_VERSION),
        forall|i: int| 4 <= i < THERMAL_BUF_LEN ==> buf@[i] == 0,
{
    let mut buf: Vec<u8> = vec![0u8; THERMAL_BUF_LEN];
    let v: u32 = THERMAL_VERSION;
    buf.set(0, (v & 0xFF) as u8);
    buf.set(1, ((v >> 8) & 0xFF) as u8);
    buf.set(2, ((v >> 16) & 0xFF) as u8);
    buf.set(3, ((v >> 24) & 0xFF) as u8);
    assert((v & 0xFF) == v % 256) by (bit_vector);
    assert(((v >> 8) & 0xFF) == (v / 256) % 256) by (bit_vector);
    assert(((v >> 16) & 0xFF) == (v / 65536) % 256) by (bit_vector);
    assert(((v >> 24) & 0xFF) == v / 16777216) by (bit_vector);
    assert(buf@.take(4) =~= le_bytes(THERMAL_VERSION));
    buf
}

/// The `i32` stored little-endian in four bytes.
pub open spec fn le_i32(b0: u8, b1: u8, b2: u8, b3: u8) -> int {
    let u: int = b0 + 256 * b1 + 65536 * b2 + 16777216 * b3;
    if u >= 0x8000_0000 {
        u - 0x1_0000_0000
    } else {
        u
    }
}

/// GPU core temperature in degrees C: sensor 0's current temperature, stored
/// little-endian at byte `THERMAL_TEMP_OFFSET` of the thermal-settings buffer.
pub fn thermal_core_temp(buf: &[u8]) -> (t: i32)
    requires
        buf@.len() >= THERMAL_TEMP_OFFSET + 4,
    ensures
        t as int == le_i32(buf@[20], buf@[21], buf@[22], buf@[23]),
{
    let b0: u8 = buf[20];
    let b1: u8 = buf[21];
    let b2: u8 = buf[22];
    let b3: u8 = buf[23];
    let u: u32 = (b0 as u32) | ((b1 as u32) << 8) | ((b2 as u32) << 16) | ((b3 as u32) << 24);
    assert(u == b0 + 256 * b1 + 65536 * b2 + 16777216 * b3) by (bit_vector)
        requires
            u == (b0 as u32) | ((b1 as u32) << 8) | ((b2 as u32) << 16) | ((b3 as u32) << 24),
    ;
    if u >= 0x8000_0000 {
        ((u - 0x8000_0000) as i32) - 0x7FFF_FFFF - 1
    } else {
        u as i32
    }
}

/// The message for a GPU index that is out of range.
pub open spec fn index_error(idx: usize, count: usize) -> Seq<char> {
    "GPU index "@ + dec_digits(idx as nat) + " out of range (have "@ + dec_digits(count as nat)
        + ")"@
}

/// The check made before using GPU `idx` when `count` GPUs were found.
pub fn check_gpu_index(idx: usize, count: usize) -> (r: Result<(), String>)
    ensures
        match r {
            Ok(()) => idx < count,
            Err(m) => idx >= count && m@ == index_error(idx, count),
        },
{
    if idx < count {
        return Ok(());
    }
    let mut m: String = String::new();
    push_str(&mut m, "GPU index ");
    push_dec(&mut m, idx as u64);
    push_str(&mut m, " out of range (have ");
    push_dec(&mut m, count as u64);
    push_str(&mut m, ")");
    assert(m@ =~= index_error(idx, count));
    Err(m)
}

/// Which I2C transfer a status belongs to.
pub enum I2cOp {
    Write,
    Read,
}

/// The message for a failed I2C transfer.
pub open spec fn i2c_error(op: I2cOp, status: i32) -> Seq<char> {
    match op {
        I2cOp::Write => "I2CWriteEx status "@ + signed_dec_digits(status as int),
        I2cOp::Read => "I2CReadEx status "@ + signed_dec_digits(status as int),
    }
}

/// The outcome of an I2C transfer from its NvAPI status: 0 is success.
pub fn i2c_status(op: I2cOp, status: i32) -> (r: Result<(), String>)
    ensures
        match r {
            Ok(()) => status == 0,
            Err(m) => status != 0 && m@ == i2c_error(op, status),
        },
{
    if status == 0 {
        return Ok(());
    }
    let mut m: String = String::new();
    match op {
        I2cOp::Write => push_str(&mut m, "I2CWriteEx status "),
        I2cOp::Read => push_str(&mut m, "I2CReadEx status "),
    }
    push_signed_dec(&mut m, status as i64);
    Err(m)
}

} // verus!
