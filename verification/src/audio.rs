//! Audio devices: how they are named, found, paired and opened.

pub mod capture;
pub mod devices;
pub mod render;
pub mod tone;
pub mod virtual_device;
