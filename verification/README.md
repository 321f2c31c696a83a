# gtc_control

A controller for **GTC Oasis** ventilation units over Modbus TCP: a verified
library and the program around it.

- `src/` is the library, written in Verus. Every function carries a contract
  that is proved; the public proof functions named `law_*` state what holds of
  the library as a whole (no write ever stops a fan, a mode write keeps the
  fourteen bits next to it, what is displayed can be typed back in, and so on).
- `tests/` runs the library on concrete values.
- `app/` is the program: the command line, the settings files, the Modbus TCP
  connection and the terminal.

Temperatures are held in tenths of a degree. Typed numbers are read as
single-precision numbers; `src/binary32.rs` models that rounding exactly, on
integers, and `src/decimal.rs` reads the text.

The operations in `src/app.rs` use a Modbus client through a `Bus`, which keeps
a ghost log of requests and replies. Each call of the bus logs one request and
puts that same request to the client, once. What an operation does is stated by
the events it adds to the log, and by the way these events take the client from
one state to the next (`exchanged` in `src/modbus.rs`). For the in-memory client
the laws named `law_fake_*` say what it then holds.
