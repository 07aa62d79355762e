//! Settings of the bridge and their defaults.

use vstd::prelude::*;

verus! {

/// Top-level configuration.
pub struct Config {
    pub modbus: ModbusConfig,
    pub mqtt: MqttConfig,
    pub poll_interval_seconds: u64,
}

/// Where and how to reach the inverter.
pub struct ModbusConfig {
    pub host: String,
    pub port: u16,
    pub unit: u8,
    pub timeout: u64,
}

/// Where and how to reach the MQTT broker.
pub struct MqttConfig {
    pub host: String,
    pub port: u16,
    pub username: Option<String>,
    pub password: Option<String>,
    pub base_topic: String,
    pub client_id: String,
}

/// Default inverter address.
pub fn default_modbus_host() -> (host: String)
    ensures
        host@ == "10.2.0.11"@,
{
    "10.2.0.11".to_owned()
}

/// Default Modbus TCP port.
pub fn default_modbus_port() -> (port: u16)
    ensures
        port == 1502,
{
    1502
}

/// Default Modbus unit (slave) identifier.
pub fn default_modbus_unit() -> (unit: u8)
    ensures
        unit == 1,
{
    1
}

/// Default connection timeout, in seconds.
pub fn default_modbus_timeout() -> (secs: u64)
    ensures
        secs == 5,
{
    5
}

/// Default broker address.
pub fn default_mqtt_host() -> (host: String)
    ensures
        host@ == "localhost"@,
{
    "localhost".to_owned()
}

/// Default broker port.
pub fn default_mqtt_port() -> (port: u16)
    ensures
        port == 1883,
{
    1883
}

/// Default topic under which every metric is published.
pub fn default_base_topic() -> (topic: String)
    ensures
        topic@ == "solaredge/inverter"@,
{
    "solaredge/inverter".to_owned()
}

/// Default MQTT client identifier.
pub fn default_client_id() -> (id: String)
    ensures
        id@ == "solaredge_mqtt"@,
{
    "solaredge_mqtt".to_owned()
}

/// Default time between two polls, in seconds.
pub fn default_poll_interval() -> (secs: u64)
    ensures
        secs == 10,
{
    10
}

impl ModbusConfig {
    /// The inverter settings that hold when the configuration names none.
    pub open spec fn is_default(&self) -> bool {
        &&& self.host@ == "10.2.0.11"@
        &&& self.port == 1502
        &&& self.unit == 1
        &&& self.timeout == 5
    }
}

impl MqttConfig {
    /// The broker settings that hold when the configuration names none.
    pub open spec fn is_default(&self) -> bool {
        &&& self.host@ == "localhost"@
        &&& self.port == 1883
        &&& self.username is None
        &&& self.password is None
        &&& self.base_topic@ == "solaredge/inverter"@
        &&& self.client_id@ == "solaredge_mqtt"@
    }
}

impl Default for ModbusConfig {
    fn default() -> (cfg: Self)
        ensures
            cfg.is_default(),
    {
        ModbusConfig {
            host: default_modbus_host(),
            port: default_modbus_port(),
            unit: default_modbus_unit(),
            timeout: default_modbus_timeout(),
        }
    }
}

impl Default for MqttConfig {
    fn default() -> (cfg: Self)
        ensures
            cfg.is_default(),
    {
        MqttConfig {
            host: default_mqtt_host(),
            port: default_mqtt_port(),
            username: None,
            password: None,
            base_topic: default_base_topic(),
            client_id: default_client_id(),
        }
    }
}

} // verus!
