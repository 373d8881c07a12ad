# opengyro

Fly-by-wire logic for an RC plane built around an Adafruit Feather M4,
written in Verus.

- `src/` is the verified library: decoding of the Spektrum DSM satellite
  receiver's serial stream into frames and channel pulse widths
  (`myhal_implementations::dsmrx`, and the first 20-byte assembler in
  `dsmrx`), the receiver and servo interfaces (`myhal`), the millisecond
  up-timer (`timer`) and chainable pipeline stages (`pipeline`). Time is
  passed in as the reading of the board's millisecond counter.
- `app/` is the firmware around it: board bring-up, USB serial output, the
  timer interrupt, PWM servo outputs, the IMU and flight modes (which
  compute in floating point), and the main loop.
- `tests/` runs the library on concrete frames and byte streams.
