# Vesper

The firmware of a split keyboard with two boards. The first board talks to the host over USB; the
second one reports its keys over a serial line, and is booted and, where needed, programmed by the
first.

- `src/` is the library: what the boards decide and compute, verified with Verus. It neither waits
  nor touches a pin; which of several things that fall due together comes first is up to `app/`. An operation that needs the hardware returns what is to be done, and takes what
  came of it.
- `tests/` runs the library, among other things against a second board made of an array of bytes.
- `app/` is the firmware round the library: pins, serial line, USB, lights and timers.

A build with `--cfg vesper_master` is the first board's program and carries the image of the second
board's from `target/slave.bin`; a build without it is the second board's and carries none. So the
second board's comes first, and `rust-objcopy -O binary` makes the image from it.

The library keeps frames and replies in `Vec`s of std, and `app/` is ordinary std Rust round it, with
std's panics. It fits a target that has std. To run on the bare boards, it takes a `no_std` build
with an allocator and a panic handler besides.

## The library

- `bootloader`: the conversations with the second board's boot loader. `script` says what each one
  consists of, `frame` what goes over the line, `laws` what holds of all of them, and `flash` what
  they do to the second board's flash.
- `button_array`: debouncing, and keys that are held.
- `link`: the frames on the serial line, and the watchdog.
- `hid`: layers, key maps and the reports to the host; `hid::laws` says what holds of every report.
- `led`: the colours of the lights.
- `keyboard`, `command`, `bytes`, `time`: what the others share.
