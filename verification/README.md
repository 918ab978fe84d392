# solarman

A client for Solarman data logging sticks (Modbus RTU carried in Solarman V5
frames over TCP) and a Prometheus exporter for the inverter registers read
through it, with its core verified by Verus.

- `src/` is the verified library:
  - `protocol`: the frame format, its checksum, encoding and parsing, with
    the round-trip laws;
  - `codec`: framing over a `BytesMut` byte stream;
  - `modbus`: Modbus functions and replies, and the trusted calls into the
    `modbus-rtu` crate;
  - `client`: the decisions of the Modbus client (next frame to send, what to
    make of each received frame, how replies map to results);
  - `metric`, `mapping`: the register map (metrics, cells, value mappings);
  - `grouping`, `sorting`: the registers to read, grouped into requests;
  - `store`: the register table and the Prometheus text exposition;
  - `decimal`: decimal rendering of integer values.
- `app/` is the exporter program around it: command line, TOML loading,
  the async TCP client loop, floating-point value mappings and the HTTP
  server.
- `tests/` holds the tests of the library.
