# swd

A Serial Wire Debug (SWD) host, verified with Verus.

`src/` is the verified library. It decides everything the protocol needs and
touches no pin:

- `dap::sw_dp` gives the pin waveform of each SWD primitive (clock period,
  bit written, bit read, SWJ sequence) and runs a transfer as a small state
  machine: `Swd::swd_transfer` takes the phase reached so far, with the levels
  sampled on SWDIO, and returns the next pin operations and what follows.
- `swd_driver` turns each debug-port operation (connect and power up, DP/AP
  register access, memory word and block access) into a program of commands,
  and `Session` runs such a program: it retries transfers answered with WAIT,
  polls for the power-up acknowledge, and stops at the first failure.
- `constant`, `config` and `error` hold the register maps, link parameters and
  error type.

`app/` holds the pins (embedded-hal `OutputPin`/`InputPin`), performs the pin
operations, computes the bit delay in floating point, and keeps the driver API
(`SwdDriver::read_word` and so on) for users.
