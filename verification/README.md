# Flora

A Wayland compositor on [Smithay](https://smithay.github.io/smithay/) whose
decisions are a Verus library.

- `src/` holds the library: windows and hit tests, the pointer, drags, focus and
  stacking, what a frame shows and in which steps, the choice of devices and modes, the
  course of a session, and the pixels of the round buttons. Every function has a
  contract; `src/laws/` and `src/disc.rs` state what holds across functions.
- `src/ieee/` is binary floating point over integers, with correct rounding
  proved. All coordinates go through it.
- `app/` is the program: it owns the Wayland display, the GPU and the input
  devices, hands the library plain values and performs what the library answers.
- `tests/` run the library, and compare its arithmetic with the machine's.

The program runs nested in another compositor. With `--native` it runs from a
terminal of its own, with access to `/dev/dri` and `/dev/input`. Building it
takes smithay's `backend_udev` feature, which in turn takes libudev.
