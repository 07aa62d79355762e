//! What the bridge publishes: one retained message per metric, under the
//! configured base topic.

use vstd::prelude::*;
use crate::config::{ModbusConfig, MqttConfig};
use crate::digits::{decimal, int_text, join};
use crate::map::ValueMap;
use crate::value::Value;

verus! {

/// The topic of the metric `key`: the base topic, a slash, and the key.
pub fn topic_for(base_topic: &str, key: &str) -> (t: String)
    ensures
        t@ == base_topic@ + seq!['/'] + key@,
{
    let with_slash = join(base_topic, "/");
    proof {
        reveal_strlit("/");
    }
    join(with_slash.as_str(), key)
}

/// The payload of a value that is text or an integer: the text itself, or
/// the integer in decimal. Floats are written by the caller.
pub fn payload_text(v: &Value) -> (r: Option<String>)
    ensures
        match *v {
            Value::Str(s) => r matches Some(t) && t@ == s@,
            Value::Int(n) => r matches Some(t) && t@ == decimal(n as int),
            _ => r is None,
        },
{
    match v {
        Value::Str(s) => Some(s.clone()),
        Value::Int(n) => Some(int_text(*n)),
        _ => None,
    }
}

/// One message to publish: a topic, the value it carries, and whether the
/// broker keeps it for later subscribers.
pub struct Message {
    pub topic: String,
    pub value: Value,
    pub retain: bool,
}

/// One retained message per metric, in ascending key order, each under
/// `base_topic/key`.
pub fn publish_plan(base_topic: &str, values: ValueMap) -> (msgs: Vec<Message>)
    requires
        values.wf(),
    ensures
        msgs@.len() == values.entries().len(),
        forall|i: int|
            0 <= i < msgs@.len() ==> {
                &&& (#[trigger] msgs@[i]).topic@ == base_topic@ + seq!['/'] + values.entries()[i].0@
                &&& msgs@[i].value == values.entries()[i].1
                &&& msgs@[i].retain
            },
        forall|i: int, j: int|
            0 <= i < msgs@.len() && 0 <= j < msgs@.len() && i != j ==> (#[trigger] msgs@[i]).topic@
                != (#[trigger] msgs@[j]).topic@,
{
    let ghost entries = values.entries();
    let mut source = values.into_entries();
    let mut reversed: Vec<Message> = Vec::new();
    // Take the entries from the back, then restore their order.
    while source.len() > 0
        invariant
            source@.len() + reversed@.len() == entries.len(),
            source@ == entries.take(source@.len() as int),
            forall|i: int|
                0 <= i < reversed@.len() ==> {
                    let e = entries[entries.len() - 1 - i];
                    &&& (#[trigger] reversed@[i]).topic@ == base_topic@ + seq!['/'] + e.0@
                    &&& reversed@[i].value == e.1
                    &&& reversed@[i].retain
                },
        decreases source@.len(),
    {
        let ghost before = source@;
        let (key, value) = source.pop().unwrap();
        assert(source@ =~= entries.take(source@.len() as int));
        let topic = topic_for(base_topic, key.as_str());
        reversed.push(Message { topic, value, retain: true });
    }
    let mut msgs: Vec<Message> = Vec::new();
    while reversed.len() > 0
        invariant
            msgs@.len() + reversed@.len() == entries.len(),
            forall|i: int|
                0 <= i < reversed@.len() ==> {
                    let e = entries[entries.len() - 1 - i];
                    &&& (#[trigger] reversed@[i]).topic@ == base_topic@ + seq!['/'] + e.0@
                    &&& reversed@[i].value == e.1
                    &&& reversed@[i].retain
                },
            forall|i: int|
                0 <= i < msgs@.len() ==> {
                    &&& (#[trigger] msgs@[i]).topic@ == base_topic@ + seq!['/'] + entries[i].0@
                    &&& msgs@[i].value == entries[i].1
                    &&& msgs@[i].retain
                },
        decreases reversed@.len(),
    {
        let m = reversed.pop().unwrap();
        msgs.push(m);
    }
    proof {
        assert forall|i: int, j: int|
            0 <= i < msgs@.len() && 0 <= j < msgs@.len() && i != j implies (#[trigger] msgs@[i]).topic@
                != (#[trigger] msgs@[j]).topic@ by {
            if entries[i].0@ == entries[j].0@ {
                crate::map::lemma_sorted_unique(entries, i, j);
            }
            law_topics_distinct(base_topic@, entries[i].0@, entries[j].0@);
        }
    }
    msgs
}

/// Different keys are published under different topics.
pub proof fn law_topics_distinct(base_topic: Seq<char>, k1: Seq<char>, k2: Seq<char>)
    requires
        k1 != k2,
    ensures
        base_topic + seq!['/'] + k1 != base_topic + seq!['/'] + k2,
{
    let p = base_topic + seq!['/'];
    if p + k1 == p + k2 {
        assert(k1 =~= (p + k1).subrange(p.len() as int, (p + k1).len() as int));
        assert(k2 =~= (p + k2).subrange(p.len() as int, (p + k2).len() as int));
    }
}

/// The address of the inverter: host, a colon, and port.
pub fn inverter_address(cfg: &ModbusConfig) -> (a: String)
    ensures
        a@ == cfg.host@ + seq![':'] + decimal(cfg.port as int),
{
    let with_colon = join(cfg.host.as_str(), ":");
    proof {
        reveal_strlit(":");
    }
    let port = int_text(cfg.port as i64);
    join(with_colon.as_str(), port.as_str())
}

/// The credentials to log in to the broker with: the user name, when one
/// is configured, with the password, or an empty one.
pub fn mqtt_credentials(cfg: &MqttConfig) -> (r: Option<(String, String)>)
    ensures
        match cfg.username {
            None => r is None,
            Some(user) => r matches Some((u, p)) && u@ == user@ && p@ == match cfg.password {
                Some(pw) => pw@,
                None => Seq::<char>::empty(),
            },
        },
{
    match &cfg.username {
        None => None,
        Some(user) => {
            let password = match &cfg.password {
                Some(pw) => pw.clone(),
                None => String::new(),
            };
            Some((user.clone(), password))
        },
    }
}

} // verus!
