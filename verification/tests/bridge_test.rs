use solaredge_mqtt::config::{
    default_base_topic, default_client_id, default_modbus_host, default_modbus_port,
    default_modbus_timeout, default_modbus_unit, default_mqtt_host, default_mqtt_port,
    default_poll_interval, ModbusConfig, MqttConfig,
};
use solaredge_mqtt::map::ValueMap;
use solaredge_mqtt::poll::{extend, Poller, ReadAction, ReadAll, MAX_BACKOFF_SECS};
use solaredge_mqtt::publish::{
    inverter_address, mqtt_credentials, payload_text, publish_plan, topic_for,
};
use solaredge_mqtt::value::{Number, Value};

#[test]
fn defaults_match_the_documentation() {
    assert_eq!(default_modbus_host(), "10.2.0.11");
    assert_eq!(default_modbus_port(), 1502);
    assert_eq!(default_modbus_unit(), 1);
    assert_eq!(default_modbus_timeout(), 5);
    assert_eq!(default_mqtt_host(), "localhost");
    assert_eq!(default_mqtt_port(), 1883);
    assert_eq!(default_base_topic(), "solaredge/inverter");
    assert_eq!(default_client_id(), "solaredge_mqtt");
    assert_eq!(default_poll_interval(), 10);
    let m = ModbusConfig::default();
    assert_eq!((m.host.as_str(), m.port, m.unit, m.timeout), ("10.2.0.11", 1502, 1, 5));
    let q = MqttConfig::default();
    assert_eq!(q.host, "localhost");
    assert_eq!(q.port, 1883);
    assert!(q.username.is_none() && q.password.is_none());
    assert_eq!(q.base_topic, "solaredge/inverter");
    assert_eq!(q.client_id, "solaredge_mqtt");
}

#[test]
fn topics_sit_under_the_base_topic() {
    assert_eq!(topic_for("solaredge/inverter", "power_ac"), "solaredge/inverter/power_ac");
    assert_eq!(topic_for("", "x"), "/x");
}

#[test]
fn payloads_of_text_and_integers() {
    assert_eq!(payload_text(&Value::Int(-42)), Some("-42".to_string()));
    assert_eq!(payload_text(&Value::Int(i64::MIN)), Some(i64::MIN.to_string()));
    assert_eq!(payload_text(&Value::Str("SE5000".to_string())), Some("SE5000".to_string()));
    assert_eq!(payload_text(&Value::Float(0)), None);
    assert_eq!(payload_text(&Value::Scaled { raw: Number::Int(1), exponent: 0 }), None);
}

#[test]
fn one_message_per_metric_in_key_order() {
    let mut m = ValueMap::new();
    m.insert("temperature".to_string(), Value::Int(35));
    m.insert("_timestamp".to_string(), Value::Str("t".to_string()));
    let msgs = publish_plan("solaredge/inverter", m);
    assert_eq!(msgs.len(), 2);
    assert_eq!(msgs[0].topic, "solaredge/inverter/_timestamp");
    assert_eq!(msgs[0].value, Value::Str("t".to_string()));
    assert_eq!(msgs[1].topic, "solaredge/inverter/temperature");
    assert_eq!(msgs[1].value, Value::Int(35));
    assert!(msgs.iter().all(|m| m.retain));
}

#[test]
fn inverter_address_joins_host_and_port() {
    assert_eq!(inverter_address(&ModbusConfig::default()), "10.2.0.11:1502");
}

#[test]
fn credentials_only_with_a_user_name() {
    let mut cfg = MqttConfig::default();
    assert_eq!(mqtt_credentials(&cfg), None);
    cfg.password = Some("secret".to_string());
    assert_eq!(mqtt_credentials(&cfg), None);
    cfg.username = Some("admin".to_string());
    assert_eq!(mqtt_credentials(&cfg), Some(("admin".to_string(), "secret".to_string())));
    cfg.password = None;
    assert_eq!(mqtt_credentials(&cfg), Some(("admin".to_string(), String::new())));
}

#[test]
fn extend_lets_later_entries_win() {
    let mut m = ValueMap::new();
    m.insert("a".to_string(), Value::Int(0));
    extend(&mut m, vec![("b".to_string(), Value::Int(1)), ("a".to_string(), Value::Int(2)), ("b".to_string(), Value::Int(3))]);
    assert_eq!(m.get("a"), Some(&Value::Int(2)));
    assert_eq!(m.get("b"), Some(&Value::Int(3)));
    assert_eq!(m.len(), 2);
}

#[test]
fn reading_skips_failed_optional_batches() {
    let (mut r, a) = ReadAll::start();
    assert_eq!(a, ReadAction::ReadBatch(0));
    assert_eq!(r.on_batch_read(vec![("c_id".to_string(), Value::Str("SunS".to_string()))]), ReadAction::ReadBatch(1));
    assert_eq!(r.on_batch_read(vec![("status".to_string(), Value::Int(4))]), ReadAction::ReadBatch(2));
    assert_eq!(r.on_batch_failed(), ReadAction::ReadBatch(3));
    assert_eq!(r.on_batch_read(vec![]), ReadAction::ReadBatch(4));
    assert_eq!(r.on_batch_failed(), ReadAction::Finished);
    let values = r.into_values();
    assert_eq!(values.len(), 2);
    assert_eq!(values.get("status"), Some(&Value::Int(4)));
}

#[test]
fn reading_fails_with_a_required_batch() {
    let (mut r, _) = ReadAll::start();
    assert_eq!(r.on_batch_failed(), ReadAction::Abort(0));
    let (mut r, _) = ReadAll::start();
    r.on_batch_read(vec![]);
    assert_eq!(r.on_batch_failed(), ReadAction::Abort(1));
}

#[test]
fn backoff_doubles_up_to_a_minute() {
    let mut p = Poller::new();
    let waits: Vec<u64> = (0..8).map(|_| p.on_read_error()).collect();
    assert_eq!(waits, vec![2, 4, 8, 16, 32, 60, 60, 60]);
    assert_eq!(p.consecutive_errors(), 8);
    for _ in 0..100 {
        assert_eq!(p.on_read_error(), 60);
    }
    assert_eq!(p.consecutive_errors(), 108);
    assert_eq!(MAX_BACKOFF_SECS, 60);
}

#[test]
fn successful_read_resets_errors_scales_and_stamps() {
    let mut p = Poller::new();
    p.on_read_error();
    p.on_read_error();
    let mut m = ValueMap::new();
    m.insert("temperature".to_string(), Value::Int(3501));
    m.insert("temperature_scale".to_string(), Value::Int(-2));
    let out = p.on_read_ok(m, "2026-12-03T11:30:00+0100".to_string());
    assert_eq!(p.consecutive_errors(), 0);
    assert_eq!(out.len(), 2);
    assert_eq!(out.get("_timestamp"), Some(&Value::Str("2026-12-03T11:30:00+0100".to_string())));
    assert_eq!(out.get("temperature"), Some(&Value::Scaled { raw: Number::Int(3501), exponent: -2 }));
    assert_eq!(p.on_read_error(), 2);
}

#[test]
fn reading_now_is_stamped_with_local_time() {
    let mut p = Poller::new();
    p.on_read_error();
    let mut m = ValueMap::new();
    m.insert("status".to_string(), Value::Int(4));
    let out = p.on_reading(m);
    assert_eq!(p.consecutive_errors(), 0);
    assert_eq!(out.len(), 2);
    match out.get("_timestamp") {
        Some(Value::Str(ts)) => {
            assert_eq!(ts.len(), 24, "{ts}");
            assert_eq!(&ts[4..5], "-");
            assert_eq!(&ts[10..11], "T");
            assert!(ts[19..20] == *"+" || ts[19..20] == *"-");
        }
        other => panic!("unexpected {other:?}"),
    }
}
