//! What holds of the library as a whole, said of what goes in and what comes out.

pub mod adb;
pub mod daemon;
pub mod icon;
pub mod lists;
pub mod logs;
pub mod net;
pub mod num;
pub mod pairing;
pub mod report;
pub mod server;
pub mod service;
pub mod terminal;
pub mod text;
pub mod tray;
pub mod ui;
