//! The verified logic of micbridge: carrying a microphone from one machine to
//! another over a local network.
//!
//! * [`protocol`]: the datagrams, the control frames and the messages in them.
//! * [`signal`]: the audio path, from datagrams to the device buffer.
//! * [`audio`]: naming, finding, pairing and opening devices.
//! * [`engine`]: the sessions: handshakes, control loops, discovery.
//! * [`gui`]: what the window shows and decides.
//! * [`cli`]: what the command line asks for and prints.
//!
//! [`bytes`] and [`text`] hold what the others share: big-endian integers and
//! the building of strings.

pub mod audio;
pub mod bytes;
pub mod cli;
pub mod engine;
pub mod gui;
pub mod protocol;
pub mod signal;
pub mod text;
