# HushWire

A WireGuard-like layer-3 tunnel whose core is verified with Verus.

- `src/` is the verified library: wire format, Noise sessions, replay
  protection, routing, the packet engine and its timers, the plans for host
  routes, firewall and gateway, and the rules behind the C ABI.
- `app/` is the program around it: command line, configuration files, sockets,
  the TUN device, threads, signals, system commands and the exported C
  functions.
- `tests/` exercises the library from outside.

The cryptography comes from `snow`, `x25519-dalek`, `base64` and `rand`. What
the library relies on of them is stated, call by call, in `src/noise.rs` and
`src/config.rs`.

Instants are nanoseconds of one monotonic clock, passed in by the caller.
