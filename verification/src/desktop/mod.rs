//! The logic of the desktop application: device backends, audio, Bluetooth,
//! kernel modules, power, services and system information.
pub mod command;
pub mod audio;
pub mod pulse;
pub mod bluetooth;
pub mod system;
pub mod privileged;
pub mod kernel;
pub mod services;
pub mod power;
pub mod platform;
pub mod winutil;
pub mod details;
pub mod backend;
pub mod commands;
