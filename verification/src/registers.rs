//! The inverter's holding registers: where each metric lives, how it is
//! encoded, and how a block of registers read in one request is decoded.

use vstd::prelude::*;
use vstd::utf8::*;
use crate::text::{trim_whitespace, utf8_lossy, utf8_lossy_chars, trimmed};
use crate::value::Value;

verus! {

/// How a metric is encoded in its registers.
#[derive(Debug, Clone, Copy, PartialEq, Eq, Structural)]
pub enum DataType {
    /// Text spanning the register's length, two bytes per register.
    String,
    Uint16,
    Int16,
    Uint32,
    Acc32,
    Int32,
    Uint64,
    Float32,
}

/// One metric: its name, first register, length in registers and encoding.
#[derive(Debug, Clone, Copy)]
pub struct RegDef {
    pub name: &'static str,
    pub addr: u16,
    pub len: u16,
    pub dtype: DataType,
}

/// The two registers `hi`, `lo` read as one big-endian 32-bit number.
pub open spec fn be32(hi: u16, lo: u16) -> int {
    hi * 0x1_0000 + lo
}

/// Four registers read as one big-endian 64-bit number.
pub open spec fn be64(r0: u16, r1: u16, r2: u16, r3: u16) -> int {
    ((r0 * 0x1_0000 + r1) * 0x1_0000 + r2) * 0x1_0000 + r3
}

/// An unsigned number read as two's complement, where `half` is the first
/// value whose top bit is set (`2^(bits - 1)`).
pub open spec fn signed(v: int, half: int) -> int {
    if v >= half {
        v - 2 * half
    } else {
        v
    }
}

/// The IEEE-754 single-precision pattern `bits` is a NaN:
/// all exponent bits set and a non-zero fraction.
pub open spec fn is_nan_bits(bits: u32) -> bool {
    (bits / 0x80_0000) % 0x100 == 0xff && bits % 0x80_0000 != 0
}

/// SunSpec's "not implemented" marker for a metric of type `d` whose
/// registers read `raw`.
pub open spec fn not_implemented(raw: Seq<u16>, d: DataType) -> bool {
    match d {
        DataType::Uint16 => raw.len() >= 1 && raw[0] == 0xFFFF,
        DataType::Int16 => raw.len() >= 1 && raw[0] == 0x8000,
        DataType::Uint32 | DataType::Acc32 => raw.len() >= 2 && raw[0] == 0xFFFF && raw[1] == 0xFFFF,
        DataType::Int32 => raw.len() >= 2 && raw[0] == 0x8000 && raw[1] == 0x0000,
        DataType::Uint64 => raw.len() >= 4 && forall|i: int| 0 <= i < raw.len() ==> raw[i] == 0xFFFF,
        DataType::Float32 => raw.len() >= 2 ==> {
            let bits = be32(raw[0], raw[1]);
            bits == 0x7fc0_0000 || bits == 0xFFFF_FFFF || is_nan_bits(bits as u32)
        },
        DataType::String => false,
    }
}

/// The number of registers that decoding a value of type `d` reads.
pub open spec fn decode_len(d: DataType) -> nat {
    match d {
        DataType::String => 0,
        DataType::Uint16 | DataType::Int16 => 1,
        DataType::Uint32 | DataType::Acc32 | DataType::Int32 | DataType::Float32 => 2,
        DataType::Uint64 => 4,
    }
}

/// A byte, kept unless it is zero.
pub open spec fn keep_nonzero(b: int) -> Seq<u8> {
    if b == 0 {
        seq![]
    } else {
        seq![b as u8]
    }
}

/// The bytes of text registers, high byte first, with the zero bytes left out.
pub open spec fn text_bytes(raw: Seq<u16>) -> Seq<u8>
    decreases raw.len(),
{
    if raw.len() == 0 {
        seq![]
    } else {
        text_bytes(raw.drop_last()) + keep_nonzero(raw.last() as int / 0x100) + keep_nonzero(
            raw.last() as int % 0x100,
        )
    }
}

/// The text that registers holding a string read as: their non-zero bytes,
/// decoded as UTF-8 with malformed sequences replaced, and trimmed of
/// surrounding whitespace.
pub open spec fn register_text(raw: Seq<u16>) -> Seq<char> {
    trimmed(utf8_lossy_chars(text_bytes(raw)))
}

/// `v` is what registers `raw` holding a metric of type `d` decode to.
pub open spec fn decodes_to(raw: Seq<u16>, d: DataType, v: Value) -> bool {
    match d {
        DataType::String => v matches Value::Str(s) && s@ == register_text(raw),
        DataType::Uint16 => v == Value::Int(raw[0] as i64),
        DataType::Int16 => v == Value::Int(signed(raw[0] as int, 0x8000) as i64),
        DataType::Uint32 | DataType::Acc32 => v == Value::Int(be32(raw[0], raw[1]) as i64),
        DataType::Int32 => v == Value::Int(signed(be32(raw[0], raw[1]), 0x8000_0000) as i64),
        DataType::Uint64 => v == Value::Int(signed(be64(raw[0], raw[1], raw[2], raw[3]), 0x8000_0000_0000_0000) as i64),
        DataType::Float32 => v == Value::Float(be32(raw[0], raw[1]) as u32),
    }
}

proof fn lemma_be32_bits(hi: u16, lo: u16)
    ensures
        ((hi as u32) << 16u32) | (lo as u32) == be32(hi, lo),
        be32(hi, lo) <= u32::MAX,
{
    assert(((hi as u32) << 16u32) | (lo as u32) == (hi as u32) * 0x1_0000u32 + (lo as u32))
        by (bit_vector);
}

proof fn lemma_nan_bits(bits: u32)
    ensures
        ((bits & 0x7f80_0000u32) == 0x7f80_0000u32 && (bits & 0x007f_ffffu32) != 0) == is_nan_bits(
            bits,
        ),
{
    assert((bits & 0x7f80_0000u32) == 0x7f80_0000u32 <==> (bits / 0x80_0000u32) % 0x100u32
        == 0xffu32) by (bit_vector);
    assert((bits & 0x007f_ffffu32) == bits % 0x80_0000u32) by (bit_vector);
}

/// Whether the registers of a metric carry SunSpec's "not implemented" marker.
pub fn is_not_implemented(raw: &[u16], dtype: DataType) -> (r: bool)
    ensures
        r == not_implemented(raw@, dtype),
{
    match dtype {
        DataType::Uint16 => raw.len() >= 1 && raw[0] == 0xFFFF,
        DataType::Int16 => raw.len() >= 1 && raw[0] == 0x8000,
        DataType::Uint32 | DataType::Acc32 => raw.len() >= 2 && raw[0] == 0xFFFF && raw[1]
            == 0xFFFF,
        DataType::Int32 => raw.len() >= 2 && raw[0] == 0x8000 && raw[1] == 0x0000,
        DataType::Uint64 => {
            if raw.len() < 4 {
                return false;
            }
            let mut i: usize = 0;
            while i < raw.len()
                invariant
                    dtype == DataType::Uint64,
                    raw@.len() >= 4,
                    i <= raw@.len(),
                    forall|j: int| 0 <= j < i ==> raw@[j] == 0xFFFF,
                decreases raw@.len() - i,
            {
                if raw[i] != 0xFFFF {
                    assert(raw@[i as int] != 0xFFFF);
                    return false;
                }
                i = i + 1;
            }
            true
        },
        DataType::Float32 => {
            if raw.len() >= 2 {
                let bits: u32 = ((raw[0] as u32) << 16u32) | (raw[1] as u32);
                proof {
                    lemma_be32_bits(raw@[0], raw@[1]);
                    lemma_nan_bits(bits);
                }
                bits == 0x7fc0_0000 || bits == 0xFFFF_FFFF || ((bits & 0x7f80_0000) == 0x7f80_0000
                    && (bits & 0x007f_ffff) != 0)
            } else {
                true
            }
        },
        DataType::String => false,
    }
}

/// The non-zero bytes of text registers, high byte first.
fn collect_text_bytes(raw: &[u16]) -> (bytes: Vec<u8>)
    ensures
        bytes@ == text_bytes(raw@),
{
    let mut bytes: Vec<u8> = Vec::new();
    let mut i: usize = 0;
    while i < raw.len()
        invariant
            i <= raw@.len(),
            bytes@ == text_bytes(raw@.take(i as int)),
        decreases raw@.len() - i,
    {
        let r = raw[i];
        let hi: u8 = (r / 256) as u8;
        let lo: u8 = (r % 256) as u8;
        let ghost before = bytes@;
        if hi != 0 {
            bytes.push(hi);
        }
        if lo != 0 {
            bytes.push(lo);
        }
        proof {
            let t = raw@.take(i + 1);
            assert(t.drop_last() =~= raw@.take(i as int));
            assert(t.last() == r);
            assert(bytes@ =~= before + keep_nonzero(r as int / 0x100) + keep_nonzero(r as int % 0x100));
        }
        i = i + 1;
    }
    assert(raw@.take(raw@.len() as int) =~= raw@);
    bytes
}

/// Decodes the registers of a metric that does not carry the
/// "not implemented" marker.
pub fn decode(raw: &[u16], dtype: DataType) -> (v: Value)
    requires
        raw@.len() >= decode_len(dtype),
    ensures
        decodes_to(raw@, dtype, v),
        dtype == DataType::String && valid_utf8(text_bytes(raw@)) ==> (v matches Value::Str(s)
            && s@ == trimmed(decode_utf8(text_bytes(raw@)))),
{
    match dtype {
        DataType::String => {
            let bytes = collect_text_bytes(raw);
            let text = utf8_lossy(bytes.as_slice());
            let s = trim_whitespace(text.as_str());
            Value::Str(s)
        },
        DataType::Uint16 => Value::Int(raw[0] as i64),
        DataType::Int16 => {
            let x = raw[0];
            if x >= 0x8000 {
                Value::Int(x as i64 - 0x1_0000)
            } else {
                Value::Int(x as i64)
            }
        },
        DataType::Uint32 | DataType::Acc32 => {
            let v: u32 = ((raw[0] as u32) << 16u32) | (raw[1] as u32);
            proof {
                lemma_be32_bits(raw@[0], raw@[1]);
            }
            Value::Int(v as i64)
        },
        DataType::Int32 => {
            let v: u32 = ((raw[0] as u32) << 16u32) | (raw[1] as u32);
            proof {
                lemma_be32_bits(raw@[0], raw@[1]);
            }
            if v >= 0x8000_0000 {
                Value::Int(v as i64 - 0x1_0000_0000)
            } else {
                Value::Int(v as i64)
            }
        },
        DataType::Uint64 => {
            let v: u64 = (raw[0] as u64) * 0x1_0000_0000_0000 + (raw[1] as u64) * 0x1_0000_0000
                + (raw[2] as u64) * 0x1_0000 + (raw[3] as u64);
            if v >= 0x8000_0000_0000_0000 {
                Value::Int((v - 0x8000_0000_0000_0000) as i64 - 0x4000_0000_0000_0000
                    - 0x4000_0000_0000_0000)
            } else {
                Value::Int(v as i64)
            }
        },
        DataType::Float32 => {
            let bits: u32 = ((raw[0] as u32) << 16u32) | (raw[1] as u32);
            proof {
                lemma_be32_bits(raw@[0], raw@[1]);
            }
            Value::Float(bits)
        },
    }
}

/// Registers of request 1.
pub open spec fn spec_batch0() -> Seq<RegDef> {
    seq![
        RegDef { name: "c_id", addr: 0x9c40, len: 2, dtype: DataType::String },
        RegDef { name: "c_did", addr: 0x9c42, len: 1, dtype: DataType::Uint16 },
        RegDef { name: "c_length", addr: 0x9c43, len: 1, dtype: DataType::Uint16 },
        RegDef { name: "c_manufacturer", addr: 0x9c44, len: 16, dtype: DataType::String },
        RegDef { name: "c_model", addr: 0x9c54, len: 16, dtype: DataType::String },
        RegDef { name: "c_version", addr: 0x9c6c, len: 8, dtype: DataType::String },
        RegDef { name: "c_serialnumber", addr: 0x9c74, len: 16, dtype: DataType::String },
        RegDef { name: "c_deviceaddress", addr: 0x9c84, len: 1, dtype: DataType::Uint16 },
    ]
}

/// Registers of request 2.
pub open spec fn spec_batch1() -> Seq<RegDef> {
    seq![
        RegDef { name: "c_sunspec_did", addr: 0x9c85, len: 1, dtype: DataType::Uint16 },
        RegDef { name: "c_sunspec_length", addr: 0x9c86, len: 1, dtype: DataType::Uint16 },
        RegDef { name: "current", addr: 0x9c87, len: 1, dtype: DataType::Uint16 },
        RegDef { name: "l1_current", addr: 0x9c88, len: 1, dtype: DataType::Uint16 },
        RegDef { name: "l2_current", addr: 0x9c89, len: 1, dtype: DataType::Uint16 },
        RegDef { name: "l3_current", addr: 0x9c8a, len: 1, dtype: DataType::Uint16 },
        RegDef { name: "current_scale", addr: 0x9c8b, len: 1, dtype: DataType::Int16 },
        RegDef { name: "l1_voltage", addr: 0x9c8c, len: 1, dtype: DataType::Uint16 },
        RegDef { name: "l2_voltage", addr: 0x9c8d, len: 1, dtype: DataType::Uint16 },
        RegDef { name: "l3_voltage", addr: 0x9c8e, len: 1, dtype: DataType::Uint16 },
        RegDef { name: "l1n_voltage", addr: 0x9c8f, len: 1, dtype: DataType::Uint16 },
        RegDef { name: "l2n_voltage", addr: 0x9c90, len: 1, dtype: DataType::Uint16 },
        RegDef { name: "l3n_voltage", addr: 0x9c91, len: 1, dtype: DataType::Uint16 },
        RegDef { name: "voltage_scale", addr: 0x9c92, len: 1, dtype: DataType::Int16 },
        RegDef { name: "power_ac", addr: 0x9c93, len: 1, dtype: DataType::Int16 },
        RegDef { name: "power_ac_scale", addr: 0x9c94, len: 1, dtype: DataType::Int16 },
        RegDef { name: "frequency", addr: 0x9c95, len: 1, dtype: DataType::Uint16 },
        RegDef { name: "frequency_scale", addr: 0x9c96, len: 1, dtype: DataType::Int16 },
        RegDef { name: "power_apparent", addr: 0x9c97, len: 1, dtype: DataType::Int16 },
        RegDef { name: "power_apparent_scale", addr: 0x9c98, len: 1, dtype: DataType::Int16 },
        RegDef { name: "power_reactive", addr: 0x9c99, len: 1, dtype: DataType::Int16 },
        RegDef { name: "power_reactive_scale", addr: 0x9c9a, len: 1, dtype: DataType::Int16 },
        RegDef { name: "power_factor", addr: 0x9c9b, len: 1, dtype: DataType::Int16 },
        RegDef { name: "power_factor_scale", addr: 0x9c9c, len: 1, dtype: DataType::Int16 },
        RegDef { name: "energy_total", addr: 0x9c9d, len: 2, dtype: DataType::Acc32 },
        RegDef { name: "energy_total_scale", addr: 0x9c9f, len: 1, dtype: DataType::Int16 },
        RegDef { name: "current_dc", addr: 0x9ca0, len: 1, dtype: DataType::Uint16 },
        RegDef { name: "current_dc_scale", addr: 0x9ca1, len: 1, dtype: DataType::Int16 },
        RegDef { name: "voltage_dc", addr: 0x9ca2, len: 1, dtype: DataType::Uint16 },
        RegDef { name: "voltage_dc_scale", addr: 0x9ca3, len: 1, dtype: DataType::Int16 },
        RegDef { name: "power_dc", addr: 0x9ca4, len: 1, dtype: DataType::Int16 },
        RegDef { name: "power_dc_scale", addr: 0x9ca5, len: 1, dtype: DataType::Int16 },
        RegDef { name: "temperature", addr: 0x9ca7, len: 1, dtype: DataType::Int16 },
        RegDef { name: "temperature_scale", addr: 0x9caa, len: 1, dtype: DataType::Int16 },
        RegDef { name: "status", addr: 0x9cab, len: 1, dtype: DataType::Uint16 },
        RegDef { name: "vendor_status", addr: 0x9cac, len: 1, dtype: DataType::Uint16 },
    ]
}

/// Registers of request 3.
pub open spec fn spec_batch2() -> Seq<RegDef> {
    seq![
        RegDef { name: "rrcr_state", addr: 0xf000, len: 1, dtype: DataType::Uint16 },
        RegDef { name: "active_power_limit", addr: 0xf001, len: 1, dtype: DataType::Uint16 },
        RegDef { name: "cosphi", addr: 0xf002, len: 2, dtype: DataType::Float32 },
    ]
}

/// Registers of request 4.
pub open spec fn spec_batch3() -> Seq<RegDef> {
    seq![
        RegDef { name: "commit_power_control_settings", addr: 0xf100, len: 1, dtype: DataType::Int16 },
        RegDef { name: "restore_power_control_default_settings", addr: 0xf101, len: 1, dtype: DataType::Int16 },
        RegDef { name: "reactive_power_config", addr: 0xf103, len: 2, dtype: DataType::Int32 },
        RegDef { name: "reactive_power_response_time", addr: 0xf105, len: 2, dtype: DataType::Uint32 },
        RegDef { name: "advanced_power_control_enable", addr: 0xf142, len: 2, dtype: DataType::Uint16 },
    ]
}

/// Registers of request 5.
pub open spec fn spec_batch4() -> Seq<RegDef> {
    seq![
        RegDef { name: "export_control_mode", addr: 0xf700, len: 1, dtype: DataType::Uint16 },
        RegDef { name: "export_control_limit_mode", addr: 0xf701, len: 1, dtype: DataType::Uint16 },
        RegDef { name: "export_control_site_limit", addr: 0xf702, len: 2, dtype: DataType::Float32 },
    ]
}

fn batch0() -> (v: Vec<RegDef>)
    ensures
        v@ == spec_batch0(),
{
    let v = vec![
        RegDef { name: "c_id", addr: 0x9c40, len: 2, dtype: DataType::String },
        RegDef { name: "c_did", addr: 0x9c42, len: 1, dtype: DataType::Uint16 },
        RegDef { name: "c_length", addr: 0x9c43, len: 1, dtype: DataType::Uint16 },
        RegDef { name: "c_manufacturer", addr: 0x9c44, len: 16, dtype: DataType::String },
        RegDef { name: "c_model", addr: 0x9c54, len: 16, dtype: DataType::String },
        RegDef { name: "c_version", addr: 0x9c6c, len: 8, dtype: DataType::String },
        RegDef { name: "c_serialnumber", addr: 0x9c74, len: 16, dtype: DataType::String },
        RegDef { name: "c_deviceaddress", addr: 0x9c84, len: 1, dtype: DataType::Uint16 },
    ];
    assert(v@ =~= spec_batch0());
    v
}

fn batch1() -> (v: Vec<RegDef>)
    ensures
        v@ == spec_batch1(),
{
    let v = vec![
        RegDef { name: "c_sunspec_did", addr: 0x9c85, len: 1, dtype: DataType::Uint16 },
        RegDef { name: "c_sunspec_length", addr: 0x9c86, len: 1, dtype: DataType::Uint16 },
        RegDef { name: "current", addr: 0x9c87, len: 1, dtype: DataType::Uint16 },
        RegDef { name: "l1_current", addr: 0x9c88, len: 1, dtype: DataType::Uint16 },
        RegDef { name: "l2_current", addr: 0x9c89, len: 1, dtype: DataType::Uint16 },
        RegDef { name: "l3_current", addr: 0x9c8a, len: 1, dtype: DataType::Uint16 },
        RegDef { name: "current_scale", addr: 0x9c8b, len: 1, dtype: DataType::Int16 },
        RegDef { name: "l1_voltage", addr: 0x9c8c, len: 1, dtype: DataType::Uint16 },
        RegDef { name: "l2_voltage", addr: 0x9c8d, len: 1, dtype: DataType::Uint16 },
        RegDef { name: "l3_voltage", addr: 0x9c8e, len: 1, dtype: DataType::Uint16 },
        RegDef { name: "l1n_voltage", addr: 0x9c8f, len: 1, dtype: DataType::Uint16 },
        RegDef { name: "l2n_voltage", addr: 0x9c90, len: 1, dtype: DataType::Uint16 },
        RegDef { name: "l3n_voltage", addr: 0x9c91, len: 1, dtype: DataType::Uint16 },
        RegDef { name: "voltage_scale", addr: 0x9c92, len: 1, dtype: DataType::Int16 },
        RegDef { name: "power_ac", addr: 0x9c93, len: 1, dtype: DataType::Int16 },
        RegDef { name: "power_ac_scale", addr: 0x9c94, len: 1, dtype: DataType::Int16 },
        RegDef { name: "frequency", addr: 0x9c95, len: 1, dtype: DataType::Uint16 },
        RegDef { name: "frequency_scale", addr: 0x9c96, len: 1, dtype: DataType::Int16 },
        RegDef { name: "power_apparent", addr: 0x9c97, len: 1, dtype: DataType::Int16 },
        RegDef { name: "power_apparent_scale", addr: 0x9c98, len: 1, dtype: DataType::Int16 },
        RegDef { name: "power_reactive", addr: 0x9c99, len: 1, dtype: DataType::Int16 },
        RegDef { name: "power_reactive_scale", addr: 0x9c9a, len: 1, dtype: DataType::Int16 },
        RegDef { name: "power_factor", addr: 0x9c9b, len: 1, dtype: DataType::Int16 },
        RegDef { name: "power_factor_scale", addr: 0x9c9c, len: 1, dtype: DataType::Int16 },
        RegDef { name: "energy_total", addr: 0x9c9d, len: 2, dtype: DataType::Acc32 },
        RegDef { name: "energy_total_scale", addr: 0x9c9f, len: 1, dtype: DataType::Int16 },
        RegDef { name: "current_dc", addr: 0x9ca0, len: 1, dtype: DataType::Uint16 },
        RegDef { name: "current_dc_scale", addr: 0x9ca1, len: 1, dtype: DataType::Int16 },
        RegDef { name: "voltage_dc", addr: 0x9ca2, len: 1, dtype: DataType::Uint16 },
        RegDef { name: "voltage_dc_scale", addr: 0x9ca3, len: 1, dtype: DataType::Int16 },
        RegDef { name: "power_dc", addr: 0x9ca4, len: 1, dtype: DataType::Int16 },
        RegDef { name: "power_dc_scale", addr: 0x9ca5, len: 1, dtype: DataType::Int16 },
        RegDef { name: "temperature", addr: 0x9ca7, len: 1, dtype: DataType::Int16 },
        RegDef { name: "temperature_scale", addr: 0x9caa, len: 1, dtype: DataType::Int16 },
        RegDef { name: "status", addr: 0x9cab, len: 1, dtype: DataType::Uint16 },
        RegDef { name: "vendor_status", addr: 0x9cac, len: 1, dtype: DataType::Uint16 },
    ];
    assert(v@ =~= spec_batch1());
    v
}

fn batch2() -> (v: Vec<RegDef>)
    ensures
        v@ == spec_batch2(),
{
    let v = vec![
        RegDef { name: "rrcr_state", addr: 0xf000, len: 1, dtype: DataType::Uint16 },
        RegDef { name: "active_power_limit", addr: 0xf001, len: 1, dtype: DataType::Uint16 },
        RegDef { name: "cosphi", addr: 0xf002, len: 2, dtype: DataType::Float32 },
    ];
    assert(v@ =~= spec_batch2());
    v
}

fn batch3() -> (v: Vec<RegDef>)
    ensures
        v@ == spec_batch3(),
{
    let v = vec![
        RegDef { name: "commit_power_control_settings", addr: 0xf100, len: 1, dtype: DataType::Int16 },
        RegDef { name: "restore_power_control_default_settings", addr: 0xf101, len: 1, dtype: DataType::Int16 },
        RegDef { name: "reactive_power_config", addr: 0xf103, len: 2, dtype: DataType::Int32 },
        RegDef { name: "reactive_power_response_time", addr: 0xf105, len: 2, dtype: DataType::Uint32 },
        RegDef { name: "advanced_power_control_enable", addr: 0xf142, len: 2, dtype: DataType::Uint16 },
    ];
    assert(v@ =~= spec_batch3());
    v
}

fn batch4() -> (v: Vec<RegDef>)
    ensures
        v@ == spec_batch4(),
{
    let v = vec![
        RegDef { name: "export_control_mode", addr: 0xf700, len: 1, dtype: DataType::Uint16 },
        RegDef { name: "export_control_limit_mode", addr: 0xf701, len: 1, dtype: DataType::Uint16 },
        RegDef { name: "export_control_site_limit", addr: 0xf702, len: 2, dtype: DataType::Float32 },
    ];
    assert(v@ =~= spec_batch4());
    v
}

/// The number of requests that together read every metric.
pub const BATCH_COUNT: usize = 5;

/// The registers of request `i`: common block, inverter block, RRCR and
/// power limit, power-control settings, export control.
pub open spec fn spec_register_batch(i: int) -> Seq<RegDef> {
    if i == 0 {
        spec_batch0()
    } else if i == 1 {
        spec_batch1()
    } else if i == 2 {
        spec_batch2()
    } else if i == 3 {
        spec_batch3()
    } else {
        spec_batch4()
    }
}

/// The register just past the last one that a request reads.
pub open spec fn span_end(regs: Seq<RegDef>) -> int {
    regs.last().addr + regs.last().len
}

/// A request can be read in one go: every metric lies between the first
/// metric's register and the end of the last one, that end is a register
/// address, and each metric has the registers that its encoding reads.
pub open spec fn batch_wf(regs: Seq<RegDef>) -> bool {
    regs.len() > 0 ==> {
        &&& span_end(regs) <= u16::MAX
        &&& forall|i: int|
            0 <= i < regs.len() ==> {
                &&& regs[0].addr <= #[trigger] regs[i].addr
                &&& regs[i].addr + regs[i].len <= span_end(regs)
                &&& (regs[i].dtype != DataType::Float32 ==> decode_len(regs[i].dtype)
                    <= regs[i].len)
            }
    }
}

/// The registers of request `index`.
pub fn register_batch(index: usize) -> (v: Vec<RegDef>)
    requires
        index < BATCH_COUNT,
    ensures
        v@ == spec_register_batch(index as int),
        batch_wf(v@),
        v@.len() > 0,
{
    if index == 0 {
        batch0()
    } else if index == 1 {
        batch1()
    } else if index == 2 {
        batch2()
    } else if index == 3 {
        batch3()
    } else {
        batch4()
    }
}

/// The first register and the number of registers that one read of `regs`
/// covers, or `None` when there is nothing to read.
pub fn batch_request(regs: &[RegDef]) -> (r: Option<(u16, u16)>)
    requires
        batch_wf(regs@),
    ensures
        r is None <==> regs@.len() == 0,
        r matches Some((start, count)) ==> start == regs@[0].addr && count == span_end(regs@)
            - regs@[0].addr,
{
    if regs.len() == 0 {
        return None;
    }
    let start = regs[0].addr;
    let last = regs[regs.len() - 1];
    assert(regs@[0].addr <= regs@[regs@.len() - 1].addr);
    let end = last.addr + last.len;
    Some((start, end - start))
}

/// A read returned fewer registers than requested.
#[derive(Debug, Clone, Copy, PartialEq, Eq, Structural)]
pub struct ShortRead {
    pub start: u16,
    pub expected: u16,
    pub got: usize,
}

/// The registers of the metric `reg` within data read from `start` on.
pub open spec fn registers_of(data: Seq<u16>, start: int, reg: RegDef) -> Seq<u16> {
    data.subrange(reg.addr - start, reg.addr - start + reg.len)
}

/// The error for a read of `regs` that returned `got` registers.
pub open spec fn short_read_for(regs: Seq<RegDef>, got: nat) -> ShortRead {
    ShortRead {
        start: regs[0].addr,
        expected: (span_end(regs) - regs[0].addr) as u16,
        got: got as usize,
    }
}

/// A read of `regs` that returned `data` came up short.
pub open spec fn is_short(regs: Seq<RegDef>, data: Seq<u16>) -> bool {
    regs.len() > 0 && data.len() < span_end(regs) - regs[0].addr
}

/// The metrics of `regs` whose registers, within data read from `start` on,
/// do not carry the "not implemented" marker, in their order.
pub open spec fn implemented_regs(regs: Seq<RegDef>, data: Seq<u16>, start: int) -> Seq<RegDef>
    decreases regs.len(),
{
    if regs.len() == 0 {
        seq![]
    } else {
        let rest = implemented_regs(regs.drop_last(), data, start);
        let r = regs.last();
        if not_implemented(registers_of(data, start, r), r.dtype) {
            rest
        } else {
            rest.push(r)
        }
    }
}

/// `v` names, in order, exactly the metrics of `regs` that do not carry the
/// "not implemented" marker, each with its decoded value, taken from the
/// registers `data` read from the first metric's register on.
pub open spec fn decoded_batch(regs: Seq<RegDef>, data: Seq<u16>, v: Seq<(String, Value)>) -> bool {
    let kept = implemented_regs(regs, data, regs[0].addr as int);
    &&& v.len() == kept.len()
    &&& forall|i: int|
        0 <= i < kept.len() ==> {
            &&& (#[trigger] v[i]).0@ == kept[i].name@
            &&& decodes_to(registers_of(data, regs[0].addr as int, kept[i]), kept[i].dtype, v[i].1)
        }
}

/// The named value of every metric of `regs`, taken from the registers read
/// from the first metric's register on, skipping the metrics that report
/// SunSpec's "not implemented" marker; or the error when fewer registers came
/// back than the request covers.
pub fn decode_batch(regs: &[RegDef], data: &[u16]) -> (r: Result<Vec<(String, Value)>, ShortRead>)
    requires
        batch_wf(regs@),
    ensures
        is_short(regs@, data@) == (r is Err),
        r matches Err(e) ==> e == short_read_for(regs@, data@.len()),
        r matches Ok(v) ==> decoded_batch(regs@, data@, v@),
{
    let mut out: Vec<(String, Value)> = Vec::new();
    if regs.len() == 0 {
        return Ok(out);
    }
    let (start, count) = match batch_request(regs) {
        Some(p) => p,
        None => {
            return Ok(out);
        },
    };
    if data.len() < count as usize {
        return Err(ShortRead { start, expected: count, got: data.len() });
    }
    let mut i: usize = 0;
    while i < regs.len()
        invariant
            batch_wf(regs@),
            regs@.len() > 0,
            start == regs@[0].addr,
            count == span_end(regs@) - start,
            data@.len() >= count,
            i <= regs@.len(),
            out@.len() == implemented_regs(regs@.take(i as int), data@, start as int).len(),
            forall|j: int|
                0 <= j < out@.len() ==> {
                    let kept = implemented_regs(regs@.take(i as int), data@, start as int);
                    &&& (#[trigger] out@[j]).0@ == kept[j].name@
                    &&& decodes_to(registers_of(data@, start as int, kept[j]), kept[j].dtype, out@[j].1)
                },
        decreases regs@.len() - i,
    {
        let reg = regs[i];
        assert(regs@[0].addr <= regs@[i as int].addr);
        let offset = (reg.addr - start) as usize;
        let end = offset + reg.len as usize;
        let raw = slice_range(data, offset, end);
        proof {
            assert(raw@ == registers_of(data@, start as int, regs@[i as int]));
            let t = regs@.take(i + 1);
            assert(t.drop_last() =~= regs@.take(i as int));
            assert(t.last() == regs@[i as int]);
        }
        if !is_not_implemented(raw, reg.dtype) {
            let value = decode(raw, reg.dtype);
            out.push((reg.name.to_owned(), value));
        }
        i = i + 1;
    }
    assert(regs@.take(regs@.len() as int) =~= regs@);
    Ok(out)
}

/// The registers from `start` up to `end`.
fn slice_range(data: &[u16], start: usize, end: usize) -> (s: &[u16])
    requires
        start <= end <= data@.len(),
    ensures
        s@ == data@.subrange(start as int, end as int),
{
    vstd::slice::slice_subrange(data, start, end)
}

/// The metrics of the common block, as SunSpec and SolarEdge document them:
/// name, first register, number of registers, encoding.
pub open spec fn documented_map0() -> Seq<(Seq<char>, int, int, DataType)> {
    seq![
        ("c_id"@, 0x9c40, 2, DataType::String),
        ("c_did"@, 0x9c42, 1, DataType::Uint16),
        ("c_length"@, 0x9c43, 1, DataType::Uint16),
        ("c_manufacturer"@, 0x9c44, 16, DataType::String),
        ("c_model"@, 0x9c54, 16, DataType::String),
        ("c_version"@, 0x9c6c, 8, DataType::String),
        ("c_serialnumber"@, 0x9c74, 16, DataType::String),
        ("c_deviceaddress"@, 0x9c84, 1, DataType::Uint16),
    ]
}

/// The metrics of the inverter block, as SunSpec and SolarEdge document them:
/// name, first register, number of registers, encoding.
pub open spec fn documented_map1() -> Seq<(Seq<char>, int, int, DataType)> {
    seq![
        ("c_sunspec_did"@, 0x9c85, 1, DataType::Uint16),
        ("c_sunspec_length"@, 0x9c86, 1, DataType::Uint16),
        ("current"@, 0x9c87, 1, DataType::Uint16),
        ("l1_current"@, 0x9c88, 1, DataType::Uint16),
        ("l2_current"@, 0x9c89, 1, DataType::Uint16),
        ("l3_current"@, 0x9c8a, 1, DataType::Uint16),
        ("current_scale"@, 0x9c8b, 1, DataType::Int16),
        ("l1_voltage"@, 0x9c8c, 1, DataType::Uint16),
        ("l2_voltage"@, 0x9c8d, 1, DataType::Uint16),
        ("l3_voltage"@, 0x9c8e, 1, DataType::Uint16),
        ("l1n_voltage"@, 0x9c8f, 1, DataType::Uint16),
        ("l2n_voltage"@, 0x9c90, 1, DataType::Uint16),
        ("l3n_voltage"@, 0x9c91, 1, DataType::Uint16),
        ("voltage_scale"@, 0x9c92, 1, DataType::Int16),
        ("power_ac"@, 0x9c93, 1, DataType::Int16),
        ("power_ac_scale"@, 0x9c94, 1, DataType::Int16),
        ("frequency"@, 0x9c95, 1, DataType::Uint16),
        ("frequency_scale"@, 0x9c96, 1, DataType::Int16),
        ("power_apparent"@, 0x9c97, 1, DataType::Int16),
        ("power_apparent_scale"@, 0x9c98, 1, DataType::Int16),
        ("power_reactive"@, 0x9c99, 1, DataType::Int16),
        ("power_reactive_scale"@, 0x9c9a, 1, DataType::Int16),
        ("power_factor"@, 0x9c9b, 1, DataType::Int16),
        ("power_factor_scale"@, 0x9c9c, 1, DataType::Int16),
        ("energy_total"@, 0x9c9d, 2, DataType::Acc32),
        ("energy_total_scale"@, 0x9c9f, 1, DataType::Int16),
        ("current_dc"@, 0x9ca0, 1, DataType::Uint16),
        ("current_dc_scale"@, 0x9ca1, 1, DataType::Int16),
        ("voltage_dc"@, 0x9ca2, 1, DataType::Uint16),
        ("voltage_dc_scale"@, 0x9ca3, 1, DataType::Int16),
        ("power_dc"@, 0x9ca4, 1, DataType::Int16),
        ("power_dc_scale"@, 0x9ca5, 1, DataType::Int16),
        ("temperature"@, 0x9ca7, 1, DataType::Int16),
        ("temperature_scale"@, 0x9caa, 1, DataType::Int16),
        ("status"@, 0x9cab, 1, DataType::Uint16),
        ("vendor_status"@, 0x9cac, 1, DataType::Uint16),
    ]
}

/// The metrics of the RRCR state and power limit, as SunSpec and SolarEdge document them:
/// name, first register, number of registers, encoding.
pub open spec fn documented_map2() -> Seq<(Seq<char>, int, int, DataType)> {
    seq![
        ("rrcr_state"@, 0xf000, 1, DataType::Uint16),
        ("active_power_limit"@, 0xf001, 1, DataType::Uint16),
        ("cosphi"@, 0xf002, 2, DataType::Float32),
    ]
}

/// The metrics of the power-control settings, as SunSpec and SolarEdge document them:
/// name, first register, number of registers, encoding.
pub open spec fn documented_map3() -> Seq<(Seq<char>, int, int, DataType)> {
    seq![
        ("commit_power_control_settings"@, 0xf100, 1, DataType::Int16),
        ("restore_power_control_default_settings"@, 0xf101, 1, DataType::Int16),
        ("reactive_power_config"@, 0xf103, 2, DataType::Int32),
        ("reactive_power_response_time"@, 0xf105, 2, DataType::Uint32),
        ("advanced_power_control_enable"@, 0xf142, 2, DataType::Uint16),
    ]
}

/// The metrics of export control, as SunSpec and SolarEdge document them:
/// name, first register, number of registers, encoding.
pub open spec fn documented_map4() -> Seq<(Seq<char>, int, int, DataType)> {
    seq![
        ("export_control_mode"@, 0xf700, 1, DataType::Uint16),
        ("export_control_limit_mode"@, 0xf701, 1, DataType::Uint16),
        ("export_control_site_limit"@, 0xf702, 2, DataType::Float32),
    ]
}

/// A metric of the register map as plain values: name, first register,
/// number of registers, encoding.
pub open spec fn map_entry(r: RegDef) -> (Seq<char>, int, int, DataType) {
    (r.name@, r.addr as int, r.len as int, r.dtype)
}

/// The documented metrics of request `i`.
pub open spec fn documented_map(i: int) -> Seq<(Seq<char>, int, int, DataType)> {
    if i == 0 {
        documented_map0()
    } else if i == 1 {
        documented_map1()
    } else if i == 2 {
        documented_map2()
    } else if i == 3 {
        documented_map3()
    } else {
        documented_map4()
    }
}

/// The registers of a documented metric within data read from `start` on.
pub open spec fn documented_registers(data: Seq<u16>, start: int, e: (Seq<char>, int, int, DataType)) -> Seq<u16> {
    data.subrange(e.1 - start, e.1 - start + e.2)
}

/// `e` is the `p`-th documented metric of `doc` under its name, decoded from
/// its documented registers by its documented encoding.
pub open spec fn holds_metric(
    doc: Seq<(Seq<char>, int, int, DataType)>,
    data: Seq<u16>,
    p: int,
    e: (String, Value),
) -> bool {
    &&& e.0@ == doc[p].0
    &&& decodes_to(documented_registers(data, doc[0].1, doc[p]), doc[p].3, e.1)
}

/// Each request reads exactly the documented metrics, in the documented
/// order, each from its documented registers with its documented encoding.
pub proof fn law_register_map(i: int)
    requires
        0 <= i < BATCH_COUNT,
    ensures
        spec_register_batch(i).map_values(|r: RegDef| map_entry(r)) == documented_map(i),
{
    if i == 0 {
        assert(spec_batch0().map_values(|r: RegDef| map_entry(r)) =~= documented_map0());
    } else if i == 1 {
        assert(spec_batch1().map_values(|r: RegDef| map_entry(r)) =~= documented_map1());
    } else if i == 2 {
        assert(spec_batch2().map_values(|r: RegDef| map_entry(r)) =~= documented_map2());
    } else if i == 3 {
        assert(spec_batch3().map_values(|r: RegDef| map_entry(r)) =~= documented_map3());
    } else {
        assert(spec_batch4().map_values(|r: RegDef| map_entry(r)) =~= documented_map4());
    }
}

/// The metrics that survive the "not implemented" check are metrics of the
/// request, and each metric without the marker survives it.
proof fn lemma_implemented_regs(regs: Seq<RegDef>, data: Seq<u16>, start: int)
    ensures
        forall|j: int|
            0 <= j < implemented_regs(regs, data, start).len() ==> exists|p: int|
                0 <= p < regs.len() && #[trigger] implemented_regs(regs, data, start)[j] == regs[p]
                    && !not_implemented(registers_of(data, start, regs[p]), regs[p].dtype),
        forall|p: int|
            0 <= p < regs.len() && !not_implemented(registers_of(data, start, regs[p]), regs[p].dtype)
                ==> exists|j: int|
                0 <= j < implemented_regs(regs, data, start).len() && implemented_regs(regs, data, start)[j]
                    == #[trigger] regs[p],
    decreases regs.len(),
{
    if regs.len() > 0 {
        let pre = regs.drop_last();
        lemma_implemented_regs(pre, data, start);
        let rest = implemented_regs(pre, data, start);
        let kept = implemented_regs(regs, data, start);
        let last = regs.len() - 1;
        assert forall|j: int| 0 <= j < kept.len() implies exists|p: int|
            0 <= p < regs.len() && #[trigger] kept[j] == regs[p]
                && !not_implemented(registers_of(data, start, regs[p]), regs[p].dtype) by {
            if j < rest.len() {
                assert(kept[j] == rest[j]);
                let p = choose|p: int|
                    0 <= p < pre.len() && rest[j] == pre[p]
                        && !not_implemented(registers_of(data, start, pre[p]), pre[p].dtype);
                assert(regs[p] == pre[p]);
            } else {
                assert(kept[j] == regs[last]);
            }
        }
        assert forall|p: int|
            0 <= p < regs.len() && !not_implemented(registers_of(data, start, regs[p]), regs[p].dtype)
                implies exists|j: int| 0 <= j < kept.len() && kept[j] == #[trigger] regs[p] by {
            if p < last {
                assert(regs[p] == pre[p]);
                let j = choose|j: int| 0 <= j < rest.len() && rest[j] == pre[p];
                assert(kept[j] == rest[j]);
            } else {
                assert(kept[rest.len() as int] == regs[p]);
            }
        }
    }
}

/// `e` is a documented metric of `doc`, decoded from its documented registers.
pub open spec fn is_documented_metric(doc: Seq<(Seq<char>, int, int, DataType)>, data: Seq<u16>, e: (String, Value)) -> bool {
    exists|p: int| 0 <= p < doc.len() && holds_metric(doc, data, p, e)
}

/// The `p`-th documented metric of `doc` is among the decoded metrics `v`.
pub open spec fn has_metric(
    doc: Seq<(Seq<char>, int, int, DataType)>,
    data: Seq<u16>,
    v: Seq<(String, Value)>,
    p: int,
) -> bool {
    exists|j: int| 0 <= j < v.len() && holds_metric(doc, data, p, v[j])
}

/// What a decoded list of metrics holds, stated over a register map given
/// as plain values.
proof fn lemma_decoded_entries(
    regs: Seq<RegDef>,
    doc: Seq<(Seq<char>, int, int, DataType)>,
    data: Seq<u16>,
    v: Seq<(String, Value)>,
)
    requires
        regs.len() > 0,
        regs.map_values(|r: RegDef| map_entry(r)) == doc,
        decoded_batch(regs, data, v),
    ensures
        forall|j: int| 0 <= j < v.len() ==> is_documented_metric(doc, data, #[trigger] v[j]),
        forall|p: int|
            0 <= p < doc.len() && !not_implemented(documented_registers(data, doc[0].1, #[trigger] doc[p]), doc[p].3)
                ==> has_metric(doc, data, v, p),
{
    let start = regs[0].addr as int;
    assert(doc.len() == regs.len());
    assert forall|p: int| 0 <= p < regs.len() implies #[trigger] doc[p] == map_entry(regs[p]) by {}
    assert(doc[0] == map_entry(regs[0]));
    lemma_implemented_regs(regs, data, start);
    let kept = implemented_regs(regs, data, start);
    assert forall|j: int| 0 <= j < v.len() implies is_documented_metric(doc, data, #[trigger] v[j]) by {
        assert(0 <= j < kept.len());
        let p = choose|p: int|
            0 <= p < regs.len() && kept[j] == regs[p]
                && !not_implemented(registers_of(data, start, regs[p]), regs[p].dtype);
        assert(doc[p] == map_entry(regs[p]));
        assert(holds_metric(doc, data, p, v[j]));
    }
    assert forall|p: int|
        0 <= p < doc.len() && !not_implemented(documented_registers(data, doc[0].1, #[trigger] doc[p]), doc[p].3)
            implies has_metric(doc, data, v, p) by {
        assert(doc[p] == map_entry(regs[p]));
        assert(registers_of(data, start, regs[p]) == documented_registers(data, doc[0].1, doc[p]));
        assert(!not_implemented(registers_of(data, start, regs[p]), regs[p].dtype));
        let j = choose|j: int| 0 <= j < kept.len() && kept[j] == regs[p];
        assert(holds_metric(doc, data, p, v[j]));
    }
}

/// A decoded request holds only documented metrics of that request, each
/// under its name with the value that its documented registers give by its
/// documented encoding; and it holds every documented metric whose registers
/// do not carry the "not implemented" marker.
pub proof fn law_decoded_metrics(i: int, data: Seq<u16>, v: Seq<(String, Value)>)
    requires
        0 <= i < BATCH_COUNT,
        decoded_batch(spec_register_batch(i), data, v),
    ensures
        forall|j: int| 0 <= j < v.len() ==> is_documented_metric(documented_map(i), data, #[trigger] v[j]),
        forall|p: int|
            0 <= p < documented_map(i).len() && !not_implemented(
                documented_registers(data, documented_map(i)[0].1, #[trigger] documented_map(i)[p]),
                documented_map(i)[p].3,
            ) ==> has_metric(documented_map(i), data, v, p),
{
    law_register_map(i);
    assert(spec_register_batch(i).len() > 0);
    lemma_decoded_entries(spec_register_batch(i), documented_map(i), data, v);
}

/// A single-precision metric carries the "not implemented" marker exactly
/// when its two registers hold all ones or an IEEE-754 NaN (exponent bits all
/// set, fraction not zero), or when fewer than two registers are given. Every
/// other pattern, 0.0 among them, is a reading that is kept.
pub proof fn law_float32_marker(raw: Seq<u16>)
    ensures
        not_implemented(raw, DataType::Float32) <==> (raw.len() < 2 || (raw[0] == 0xFFFF && raw[1]
            == 0xFFFF) || ((raw[0] / 0x80) % 0x100 == 0xff && (raw[0] % 0x80 != 0 || raw[1] != 0))),
{
    if raw.len() >= 2 {
        let hi: u32 = raw[0] as u32;
        let lo: u32 = raw[1] as u32;
        lemma_be32_bits(raw[0], raw[1]);
        let bits: u32 = (hi << 16u32) | lo;
        assert(bits == be32(raw[0], raw[1]));
        lemma_nan_bits(bits);
        assert(hi <= 0xffff && lo <= 0xffff ==> {
            &&& (bits == 0xFFFF_FFFFu32 <==> (hi == 0xffff && lo == 0xffff))
            &&& (bits == 0x7fc0_0000u32 ==> (bits & 0x7f80_0000u32) == 0x7f80_0000u32 && (bits
                & 0x007f_ffffu32) != 0)
            &&& ((bits & 0x7f80_0000u32) == 0x7f80_0000u32 <==> (hi / 0x80u32) % 0x100u32 == 0xffu32)
            &&& ((bits & 0x007f_ffffu32) != 0 <==> (hi % 0x80u32 != 0 || lo != 0))
        }) by (bit_vector)
            requires
                bits == (hi << 16u32) | lo,
        ;
    }
}

/// A numeric metric reads its registers big-endian. An unsigned one is the
/// registers' number itself; a signed one is read as two's complement, so it
/// lies in the type's range and agrees with the registers' number modulo its
/// size (a 16-bit word `w >= 0x8000` reads as `w - 0x10000`); a 64-bit one is
/// that number taken modulo `2^64` into `i64`; a single-precision one keeps the
/// 32 bits of the registers.
pub proof fn law_number_decoding(raw: Seq<u16>, v: Value)
    ensures
        raw.len() >= 1 && decodes_to(raw, DataType::Uint16, v) ==> v == Value::Int(raw[0] as i64),
        raw.len() >= 1 && decodes_to(raw, DataType::Int16, v) ==> (v matches Value::Int(x) && -0x8000
            <= x < 0x8000 && (x - raw[0]) % 0x1_0000 == 0),
        raw.len() >= 1 && raw[0] >= 0x8000 && decodes_to(raw, DataType::Int16, v) ==> v
            == Value::Int((raw[0] - 0x1_0000) as i64),
        raw.len() >= 2 && (decodes_to(raw, DataType::Uint32, v) || decodes_to(raw, DataType::Acc32, v))
            ==> (v matches Value::Int(x) && 0 <= x < 0x1_0000_0000 && x == raw[0] * 0x1_0000 + raw[1]),
        raw.len() >= 2 && decodes_to(raw, DataType::Int32, v) ==> (v matches Value::Int(x)
            && -0x8000_0000 <= x < 0x8000_0000 && (x - (raw[0] * 0x1_0000 + raw[1])) % 0x1_0000_0000
            == 0),
        raw.len() >= 4 && decodes_to(raw, DataType::Uint64, v) ==> (v matches Value::Int(x) && (x
            - (raw[0] * 0x1_0000_0000_0000 + raw[1] * 0x1_0000_0000 + raw[2] * 0x1_0000 + raw[3]))
            % 0x1_0000_0000_0000_0000 == 0),
        raw.len() >= 2 && decodes_to(raw, DataType::Float32, v) ==> v == Value::Float(
            (raw[0] * 0x1_0000 + raw[1]) as u32,
        ),
{
    if raw.len() >= 4 {
        assert(be64(raw[0], raw[1], raw[2], raw[3]) == raw[0] * 0x1_0000_0000_0000 + raw[1]
            * 0x1_0000_0000 + raw[2] * 0x1_0000 + raw[3]) by (nonlinear_arith);
    }
}

/// SunSpec marks a missing integer metric with an extreme of its type: an
/// unsigned metric is "not implemented" exactly when it reads its largest
/// value, a signed one exactly when it reads its smallest, and a 64-bit one
/// exactly when all its bits are set (which reads as -1).
pub proof fn law_markers_are_extremes(raw: Seq<u16>, d: DataType, v: Value)
    requires
        raw.len() == decode_len(d),
        decodes_to(raw, d, v),
    ensures
        d == DataType::Uint16 ==> (not_implemented(raw, d) <==> v == Value::Int(0xFFFF)),
        d == DataType::Int16 ==> (not_implemented(raw, d) <==> v == Value::Int(-0x8000i64)),
        d == DataType::Uint32 || d == DataType::Acc32 ==> (not_implemented(raw, d) <==> v
            == Value::Int(0xFFFF_FFFF)),
        d == DataType::Int32 ==> (not_implemented(raw, d) <==> v == Value::Int(-0x8000_0000i64)),
        d == DataType::Uint64 ==> (not_implemented(raw, d) <==> v == Value::Int(-1i64)),
{
    if d == DataType::Uint32 || d == DataType::Acc32 || d == DataType::Int32 {
        let hi = raw[0] as int;
        let lo = raw[1] as int;
        assert(0 <= hi < 0x1_0000 && 0 <= lo < 0x1_0000 ==> (hi * 0x1_0000 + lo == 0xFFFF_FFFF
            <==> hi == 0xFFFF && lo == 0xFFFF)) by (nonlinear_arith);
        assert(0 <= hi < 0x1_0000 && 0 <= lo < 0x1_0000 ==> (hi * 0x1_0000 + lo == 0x8000_0000
            <==> hi == 0x8000 && lo == 0)) by (nonlinear_arith);
    }
    if d == DataType::Uint64 {
        let x1 = raw[0] as int;
        let x2 = x1 * 0x1_0000 + raw[1];
        let x3 = x2 * 0x1_0000 + raw[2];
        let x4 = x3 * 0x1_0000 + raw[3];
        lemma_word_split(x1, raw[1] as int, 0xFFFF);
        lemma_word_split(x2, raw[2] as int, 0xFFFF_FFFF);
        lemma_word_split(x3, raw[3] as int, 0xFFFF_FFFF_FFFF);
        assert(x4 == be64(raw[0], raw[1], raw[2], raw[3]));
        assert(x4 < 0x1_0000_0000_0000_0000) by {
            lemma_word_bound(x1, raw[1] as int, 0x1_0000);
            lemma_word_bound(x2, raw[2] as int, 0x1_0000_0000);
            lemma_word_bound(x3, raw[3] as int, 0x1_0000_0000_0000);
        }
        assert(not_implemented(raw, d) <==> (raw[0] == 0xFFFF && raw[1] == 0xFFFF && raw[2]
            == 0xFFFF && raw[3] == 0xFFFF)) by {
            if raw[0] == 0xFFFF && raw[1] == 0xFFFF && raw[2] == 0xFFFF && raw[3] == 0xFFFF {
                assert forall|i: int| 0 <= i < raw.len() implies raw[i] == 0xFFFF by {}
            }
            if not_implemented(raw, d) {
                assert(raw[0] == 0xFFFF && raw[1] == 0xFFFF && raw[2] == 0xFFFF && raw[3] == 0xFFFF);
            }
        }
    }
}

/// A number followed by one more 16-bit word is all ones exactly when the
/// number and the word are.
proof fn lemma_word_split(x: int, w: int, k: int)
    requires
        0 <= x,
        0 <= w < 0x1_0000,
    ensures
        x * 0x1_0000 + w == k * 0x1_0000 + 0xFFFF <==> x == k && w == 0xFFFF,
{
    if x * 0x1_0000 + w == k * 0x1_0000 + 0xFFFF {
        assert((x - k) * 0x1_0000 == 0xFFFF - w) by (nonlinear_arith)
            requires
                x * 0x1_0000 + w == k * 0x1_0000 + 0xFFFF,
        ;
        assert(x == k) by (nonlinear_arith)
            requires
                (x - k) * 0x1_0000 == 0xFFFF - w,
                0 <= w < 0x1_0000,
        ;
    }
}

/// A number below `b` followed by one more 16-bit word is below `b * 2^16`.
proof fn lemma_word_bound(x: int, w: int, b: int)
    requires
        0 <= x < b,
        0 <= w < 0x1_0000,
    ensures
        0 <= x * 0x1_0000 + w < b * 0x1_0000,
{
    assert(0 <= x * 0x1_0000 + w < b * 0x1_0000) by (nonlinear_arith)
        requires
            0 <= x < b,
            0 <= w < 0x1_0000,
    ;
}

} // verus!
