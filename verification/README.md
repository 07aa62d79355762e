# solaredge_mqtt

A bridge that polls a SolarEdge inverter over Modbus TCP and publishes each
metric as its own retained MQTT topic under a base topic, with SunSpec scale
factors applied.

- `src/` is the verified library (Verus): the register map and its decoding,
  the map of metrics kept in key order, scale-factor application, the topics
  and payloads to publish, and the decisions of the polling loop (which
  register requests may fail, how long to back off).
- `app/` is the program around it: command line, configuration file,
  Modbus and MQTT connections, the clock, and the floating-point arithmetic
  of scaled values.
- `tests/` exercises the library on concrete values.
