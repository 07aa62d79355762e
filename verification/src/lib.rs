//! Verified core of a bridge that polls a SolarEdge inverter over Modbus TCP
//! and publishes each metric as its own retained MQTT topic.

pub mod config;
pub mod map;
pub mod value;
pub mod registers;
pub mod text;
pub mod scale;
pub mod digits;
pub mod publish;
pub mod poll;
pub mod clock;
