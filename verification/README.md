# Eruption

The core of Eruption, a user-mode driver for keyboards, mice and other devices with LEDs,
written in [Verus](https://github.com/verus-lang/verus). What the library does is stated in
contracts and proved.

- `src/` is the library. It does no I/O: its threads are state machines that name what is to
  be done outside as a request, and take a step once the reply is known. The laws
  that hold of them stand beside them as public proof functions.
- `tests/` runs the library, and compares paths with those of `std` and colors with single
  precision arithmetic.
- `app/` spawns the threads, performs their requests, and draws the user interface.

Two functions of `src/` are trusted: one decodes bytes by `String::from_utf8_lossy`, one reads
`libc::ENODEV`.

License: GPL-3.0-or-later
