//! Palit GPU LED control: the verified core of the `palit-led` tool.
//!
//! - `led`: the LED controller protocol (register writes for a static color, firmware id,
//!   register dump) and the temperature-to-color zones.
//! - `config`: GPU selection and the temperature / static-color settings.
//! - `cli`: command-line decisions (commands, options, colors in hex, GPU selection,
//!   which LEDs to rewrite, interruptible waits).
//! - `nvapi`: the I2C request descriptor, the thermal buffer, and NvAPI error texts.
//! - `tray`: UTF-16 strings, the tooltip and the refresh interval of the tray program.
//! - `text`: character-level helpers shared by the others.

pub mod text;
pub mod config;
pub mod led;
pub mod cli;
pub mod nvapi;
pub mod tray;
