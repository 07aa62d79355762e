use solaredge_mqtt::registers::{
    batch_request, decode, decode_batch, is_not_implemented, register_batch, DataType, ShortRead,
    BATCH_COUNT,
};
use solaredge_mqtt::value::Value;

#[test]
fn decodes_unsigned_and_signed_16_bit() {
    assert_eq!(decode(&[0x1234], DataType::Uint16), Value::Int(0x1234));
    assert_eq!(decode(&[0xFFFF], DataType::Int16), Value::Int(-1));
    assert_eq!(decode(&[0x8001], DataType::Int16), Value::Int(-32767));
    assert_eq!(decode(&[0x7FFF], DataType::Int16), Value::Int(32767));
}

#[test]
fn decodes_32_bit_registers_big_endian() {
    assert_eq!(decode(&[0x0001, 0x0002], DataType::Uint32), Value::Int(65538));
    assert_eq!(decode(&[0x001C, 0x5A9B], DataType::Acc32), Value::Int(0x001C_5A9B));
    assert_eq!(decode(&[0xFFFF, 0xFFFE], DataType::Int32), Value::Int(-2));
    assert_eq!(decode(&[0x7FFF, 0xFFFF], DataType::Int32), Value::Int(i32::MAX as i64));
}

#[test]
fn decodes_64_bit_registers_as_twos_complement() {
    assert_eq!(decode(&[0, 0, 0x0001, 0x0000], DataType::Uint64), Value::Int(65536));
    assert_eq!(decode(&[0xFFFF, 0xFFFF, 0xFFFF, 0xFFFE], DataType::Uint64), Value::Int(-2));
    assert_eq!(decode(&[0x8000, 0, 0, 0], DataType::Uint64), Value::Int(i64::MIN));
}

#[test]
fn decodes_float_registers_to_their_bits() {
    let bits = 1.5f32.to_bits();
    let v = decode(&[(bits >> 16) as u16, (bits & 0xFFFF) as u16], DataType::Float32);
    assert_eq!(v, Value::Float(bits));
}

#[test]
fn decodes_text_without_zero_bytes_and_trimmed() {
    // "SE", "33", "K ", then padding.
    let raw = [0x5345, 0x3333, 0x4B20, 0x0000, 0x0000];
    assert_eq!(decode(&raw, DataType::String), Value::Str("SE33K".to_string()));
    // zero bytes in the middle are dropped, not kept
    assert_eq!(decode(&[0x4100, 0x0042], DataType::String), Value::Str("AB".to_string()));
    assert_eq!(decode(&[0x2020, 0x2041], DataType::String), Value::Str("A".to_string()));
    assert_eq!(decode(&[], DataType::String), Value::Str(String::new()));
}

#[test]
fn decodes_malformed_text_with_replacement_characters() {
    assert_eq!(decode(&[0x48FF], DataType::String), Value::Str("H\u{FFFD}".to_string()));
}

#[test]
fn recognises_not_implemented_markers() {
    assert!(is_not_implemented(&[0xFFFF], DataType::Uint16));
    assert!(!is_not_implemented(&[0xFFFE], DataType::Uint16));
    assert!(!is_not_implemented(&[], DataType::Uint16));
    assert!(is_not_implemented(&[0x8000], DataType::Int16));
    assert!(is_not_implemented(&[0xFFFF, 0xFFFF], DataType::Acc32));
    assert!(!is_not_implemented(&[0xFFFF, 0xFFFE], DataType::Uint32));
    assert!(is_not_implemented(&[0x8000, 0x0000], DataType::Int32));
    assert!(is_not_implemented(&[0xFFFF; 4], DataType::Uint64));
    assert!(!is_not_implemented(&[0xFFFF; 3], DataType::Uint64));
    assert!(!is_not_implemented(&[0xFFFF, 0xFFFF, 0xFFFF, 0xFFFF, 0x0000], DataType::Uint64));
    assert!(is_not_implemented(&[0x7FC0, 0x0000], DataType::Float32));
    assert!(is_not_implemented(&[0xFFFF, 0xFFFF], DataType::Float32));
    assert!(is_not_implemented(&[0x7F80, 0x0001], DataType::Float32));
    assert!(!is_not_implemented(&[0x7F80, 0x0000], DataType::Float32));
    assert!(is_not_implemented(&[0x3F80], DataType::Float32));
    assert!(!is_not_implemented(&[0xFFFF], DataType::String));
}

#[test]
fn register_batches_match_the_inverter_map() {
    assert_eq!(BATCH_COUNT, 5);
    let expected = [(0x9c40u16, 0x45u16, 8usize), (0x9c85, 0x28, 36), (0xf000, 4, 3), (0xf100, 0x44, 5), (0xf700, 4, 3)];
    for (i, (start, count, n)) in expected.iter().enumerate() {
        let regs = register_batch(i);
        assert_eq!(regs.len(), *n);
        assert_eq!(batch_request(&regs), Some((*start, *count)));
    }
    let regs = register_batch(1);
    assert_eq!(regs[0].name, "c_sunspec_did");
    assert_eq!(regs[32].name, "temperature");
    assert_eq!(regs[32].addr, 0x9ca7);
    assert_eq!(regs[33].name, "temperature_scale");
    assert_eq!(regs[33].addr, 0x9caa);
}

#[test]
fn empty_request_reads_nothing() {
    assert_eq!(batch_request(&[]), None);
    assert_eq!(decode_batch(&[], &[]).unwrap().len(), 0);
}

#[test]
fn decodes_a_whole_batch() {
    let regs = register_batch(2);
    // rrcr_state, active_power_limit, cosphi = 1.0
    let one = 1.0f32.to_bits();
    let data = [3u16, 100, (one >> 16) as u16, (one & 0xFFFF) as u16];
    let out = decode_batch(&regs, &data).unwrap();
    assert_eq!(out.len(), 3);
    assert_eq!(out[0], ("rrcr_state".to_string(), Value::Int(3)));
    assert_eq!(out[1], ("active_power_limit".to_string(), Value::Int(100)));
    assert_eq!(out[2], ("cosphi".to_string(), Value::Float(one)));
}

#[test]
fn not_implemented_metrics_are_skipped() {
    let regs = register_batch(2);
    let out = decode_batch(&regs, &[0xFFFF, 0xFFFF, 0x7FC0, 0x0000]).unwrap();
    assert!(out.is_empty());
    let out = decode_batch(&regs, &[0xFFFF, 7, 0x7FC0, 0x0000]).unwrap();
    assert_eq!(out, vec![("active_power_limit".to_string(), Value::Int(7))]);
    let regs = register_batch(1);
    let mut data = vec![0u16; 0x28];
    data[(0x9ca7 - 0x9c85) as usize] = 0x8000; // temperature
    let out = decode_batch(&regs, &data).unwrap();
    assert_eq!(out.len(), regs.len() - 1);
    assert!(out.iter().all(|(k, _)| k != "temperature"));
    assert!(out.iter().any(|(k, _)| k == "temperature_scale"));
}

#[test]
fn short_read_is_an_error() {
    let regs = register_batch(0);
    let data = vec![0u16; 0x44];
    assert_eq!(
        decode_batch(&regs, &data),
        Err(ShortRead { start: 0x9c40, expected: 0x45, got: 0x44 })
    );
    assert!(decode_batch(&regs, &vec![0u16; 0x46]).is_ok());
}

#[test]
fn decodes_common_block_text_and_gap() {
    let regs = register_batch(0);
    let mut data = vec![0u16; 0x45];
    data[0] = 0x5375; // "Su"
    data[1] = 0x6e53; // "nS"
    data[2] = 1;
    data[0x44] = 7; // c_deviceaddress
    let out = decode_batch(&regs, &data).unwrap();
    assert_eq!(out[0], ("c_id".to_string(), Value::Str("SunS".to_string())));
    assert_eq!(out[1], ("c_did".to_string(), Value::Int(1)));
    assert_eq!(out[7], ("c_deviceaddress".to_string(), Value::Int(7)));
}
