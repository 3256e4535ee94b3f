//! Sessions: what each end decides, from plain values to plain values.

pub mod address;
pub mod autostart;
pub mod config;
pub mod discovery;
pub mod recv;
pub mod send;
pub mod state;
pub mod timing;
