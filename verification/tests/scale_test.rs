use solaredge_mqtt::registers::{decode_batch, register_batch};
use solaredge_mqtt::map::ValueMap;
use solaredge_mqtt::scale::{apply_scale_factors, as_i64, f32_bits_to_i64, scale_factor_table};
use solaredge_mqtt::value::{Number, Value};

fn map_of(entries: &[(&str, Value)]) -> ValueMap {
    let mut m = ValueMap::new();
    for (k, v) in entries {
        m.insert(k.to_string(), v.clone());
    }
    m
}

#[test]
fn float_truncation_matches_rust_casts() {
    let samples = [
        0.0f32, -0.0, 0.5, -0.5, 1.0, 1.5, -1.5, -2.7, 3.999, 255.0, 32767.9, -32768.0,
        1e10, -1e10, 9.2e18, -9.2e18, 9.3e18, -9.3e18, 1e30, -1e30, f32::INFINITY,
        f32::NEG_INFINITY, f32::NAN, f32::MIN_POSITIVE, 1e-40, 16777216.0, 8388607.5,
    ];
    for x in samples {
        assert_eq!(f32_bits_to_i64(x.to_bits()), x as i64, "for {x}");
    }
}

#[test]
fn scale_factors_read_from_numbers() {
    assert_eq!(as_i64(&Value::Int(-2)), Some(-2));
    assert_eq!(as_i64(&Value::Float((-1.9f32).to_bits())), Some(-1));
    assert_eq!(as_i64(&Value::Str("x".to_string())), None);
}

#[test]
fn scale_table_lists_twelve_factors() {
    let t = scale_factor_table();
    assert_eq!(t.len(), 12);
    assert_eq!(t[0].scale_key, "current_scale");
    assert_eq!(t[0].value_keys, vec!["current", "l1_current", "l2_current", "l3_current"]);
    assert_eq!(t[11].scale_key, "temperature_scale");
}

#[test]
fn applies_scale_and_drops_scale_keys() {
    let mut m = map_of(&[
        ("current", Value::Int(677)),
        ("l1_current", Value::Int(680)),
        ("current_scale", Value::Int(-2)),
        ("power_ac", Value::Int(15574)),
        ("power_ac_scale", Value::Int(-1)),
        ("status", Value::Int(4)),
    ]);
    apply_scale_factors(&mut m);
    let entries = m.into_entries();
    assert_eq!(
        entries,
        vec![
            ("current".to_string(), Value::Scaled { raw: Number::Int(677), exponent: -2 }),
            ("l1_current".to_string(), Value::Scaled { raw: Number::Int(680), exponent: -2 }),
            ("power_ac".to_string(), Value::Scaled { raw: Number::Int(15574), exponent: -1 }),
            ("status".to_string(), Value::Int(4)),
        ]
    );
}

#[test]
fn unusable_factor_scales_nothing_but_is_not_published() {
    let mut m = map_of(&[
        ("temperature", Value::Int(3501)),
        ("temperature_scale", Value::Int(0x8000)),
        ("frequency", Value::Int(5001)),
        ("frequency_scale", Value::Str("n/a".to_string())),
        ("voltage_dc", Value::Int(3800)),
    ]);
    apply_scale_factors(&mut m);
    assert_eq!(m.get("temperature"), Some(&Value::Int(3501)));
    assert_eq!(m.get("temperature_scale"), None);
    assert_eq!(m.get("frequency"), Some(&Value::Int(5001)));
    assert_eq!(m.get("frequency_scale"), None);
    assert_eq!(m.get("voltage_dc"), Some(&Value::Int(3800)));
    assert_eq!(m.len(), 3);
}

#[test]
fn zero_factor_is_still_applied_and_removed() {
    let mut m = map_of(&[("energy_total", Value::Int(1858075)), ("energy_total_scale", Value::Int(0))]);
    apply_scale_factors(&mut m);
    assert_eq!(m.get("energy_total_scale"), None);
    assert_eq!(
        m.get("energy_total"),
        Some(&Value::Scaled { raw: Number::Int(1858075), exponent: 0 })
    );
}

#[test]
fn text_and_floats_under_a_factor() {
    let bits = 2.5f32.to_bits();
    let mut m = map_of(&[
        ("power_dc", Value::Float(bits)),
        ("voltage_dc", Value::Str("x".to_string())),
        ("power_dc_scale", Value::Int(1)),
        ("voltage_dc_scale", Value::Float(2.0f32.to_bits())),
    ]);
    apply_scale_factors(&mut m);
    assert_eq!(m.get("power_dc"), Some(&Value::Scaled { raw: Number::Float(bits), exponent: 1 }));
    assert_eq!(m.get("voltage_dc"), Some(&Value::Str("x".to_string())));
    assert_eq!(m.get("voltage_dc_scale"), None);
    assert_eq!(m.len(), 2);
}

#[test]
fn scaling_twice_is_scaling_once() {
    let mut m = map_of(&[
        ("current", Value::Int(677)),
        ("current_scale", Value::Int(-2)),
        ("temperature_scale", Value::Int(0x8000)),
    ]);
    apply_scale_factors(&mut m);
    let mut again = map_of(&[
        ("current", Value::Scaled { raw: Number::Int(677), exponent: -2 }),
        ("temperature_scale", Value::Int(0x8000)),
    ]);
    apply_scale_factors(&mut again);
    apply_scale_factors(&mut m);
    assert_eq!(m.into_entries(), again.into_entries());
}

#[test]
fn large_factor_exponent_is_truncated_to_32_bits() {
    let mut m = map_of(&[("current", Value::Int(1)), ("current_scale", Value::Int(1i64 << 32 | 3))]);
    apply_scale_factors(&mut m);
    assert_eq!(m.get("current"), Some(&Value::Scaled { raw: Number::Int(1), exponent: 3 }));
}

fn shown(v: &Value) -> String {
    match v {
        Value::Scaled { raw: Number::Int(n), exponent } => {
            let x = (*n as f64 * 10_f64.powi(*exponent) * 1_000_000.0).round() / 1_000_000.0;
            format!("{x}")
        }
        other => panic!("not scaled: {other:?}"),
    }
}

#[test]
fn inverter_block_scales_to_real_world_units() {
    let regs = register_batch(1);
    let mut data = vec![0u16; 0x28];
    let at = |addr: u16| (addr - 0x9c85) as usize;
    data[at(0x9c87)] = 677; // current
    data[at(0x9c8b)] = (-2i16) as u16; // current_scale
    data[at(0x9c8f)] = 2305; // l1n_voltage
    data[at(0x9c92)] = (-1i16) as u16; // voltage_scale
    data[at(0x9c93)] = 15574; // power_ac
    data[at(0x9c94)] = (-1i16) as u16; // power_ac_scale
    data[at(0x9c95)] = 5001; // frequency
    data[at(0x9c96)] = (-2i16) as u16; // frequency_scale
    data[at(0x9c9d)] = 0x0001; // energy_total, high word
    data[at(0x9c9e)] = 0x1B5B; // energy_total, low word: 72539
    data[at(0x9c9f)] = 1; // energy_total_scale
    data[at(0x9ca7)] = 3501; // temperature
    data[at(0x9caa)] = (-2i16) as u16; // temperature_scale
    let mut m = ValueMap::new();
    for (k, v) in decode_batch(&regs, &data).unwrap() {
        m.insert(k, v);
    }
    apply_scale_factors(&mut m);
    assert_eq!(shown(m.get("power_ac").unwrap()), "1557.4");
    assert_eq!(shown(m.get("temperature").unwrap()), "35.01");
    assert_eq!(shown(m.get("l1n_voltage").unwrap()), "230.5");
    assert_eq!(shown(m.get("current").unwrap()), "6.77");
    assert_eq!(shown(m.get("frequency").unwrap()), "50.01");
    assert_eq!(shown(m.get("energy_total").unwrap()), "725390");
    for k in ["current_scale", "voltage_scale", "power_ac_scale", "frequency_scale", "temperature_scale", "energy_total_scale"] {
        assert_eq!(m.get(k), None, "{k}");
    }
    assert_eq!(m.get("status"), Some(&Value::Int(0)));
}

#[test]
fn a_scaled_value_is_scaled_again() {
    let mut m = map_of(&[
        ("current", Value::Scaled { raw: Number::Int(677), exponent: -2 }),
        ("current_scale", Value::Int(1)),
    ]);
    apply_scale_factors(&mut m);
    assert_eq!(
        m.get("current"),
        Some(&Value::Scaled { raw: Number::Scaled(Box::new(Number::Int(677)), -2), exponent: 1 })
    );
    assert_eq!(m.len(), 1);
}
