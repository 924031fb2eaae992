# mbsim

A Modbus device simulator whose core is verified with Verus.

- `src/config.rs`: the configuration model (devices, holding registers,
  `on_write` sequences of steps) and `Config::validate`, proved to return the
  first problem met and to succeed exactly on well-formed configurations.
- `src/device.rs`: per-device register storage and the `DeviceManager`,
  with contracts over an abstract map from slave id to register values and
  triggered sequences, and laws such as read-after-write.
- `src/server.rs`: dispatch of a Modbus request onto the devices, answering
  with the response and the sequences the request triggered.
- `app/`: the program around the library: command line, YAML reading,
  the Modbus TCP transport, and the timed running of triggered sequences.
