//! The decisions behind `wadb`, a tool that keeps the ADB server running on Linux so that
//! paired Android phones stay available for wireless debugging.
//!
//! Everything here computes from plain values: text adb printed, an environment already read,
//! the state of a unit. Sockets, processes, files and the screen belong to the program around
//! this library.

pub mod adb;
pub mod daemon;
pub mod discovery;
pub mod laws;
pub mod net;
pub mod num;
pub mod pairing;
pub mod path;
pub mod probe;
pub mod qr;
pub mod report;
pub mod screen;
pub mod service;
pub mod smart_socket;
pub mod text;
pub mod themed_tray;
pub mod tray;
pub mod ui;
