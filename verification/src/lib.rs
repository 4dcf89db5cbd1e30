//! The verified core of Eruption, a user-mode driver for keyboards, mice and other
//! devices with LEDs.
//!
//! - `device_io` renders frames and hands them to the devices, `color` blends them, and
//!   `frame` says what is on the canvas that the devices get.
//! - `input` reads the events of input devices, `lua` runs scripts, and `dbus` announces
//!   what changes.
//! - `util`, `profiles` and `path` find profiles, scripts and manifests.
//! - `about` and `text` hold what is shown.
//!
//! The threads are state machines that ask for what is to be done outside. Nothing in
//! this crate does I/O.

pub mod about;
pub mod color;
pub mod dbus;
pub mod device_io;
pub mod frame;
pub mod input;
pub mod lua;
pub mod path;
pub mod profiles;
pub mod text;
pub mod util;
