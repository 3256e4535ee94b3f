//! Session configuration: plain data, shared by every frontend.

use vstd::prelude::*;

use crate::protocol::discovery::DEFAULT_DISCOVERY_PORT;
use crate::protocol::{DEFAULT_CONTROL_PORT, DEFAULT_MEDIA_PORT};

verus! {

/// Frames per media datagram: 5 ms at 48 kHz.
pub const DEFAULT_PACKET_FRAMES: u32 = 240;

/// Jitter-buffer target in milliseconds.
pub const DEFAULT_TARGET_BUFFER_MS: u32 = 20;

/// The bit pattern of a gain of zero decibels: the signal is passed through
/// untouched.
pub const DEFAULT_GAIN_DB_BITS: u32 = 0;

/// Where a sender gets its audio.
#[derive(Debug, Clone, PartialEq, Eq)]
pub enum Source {
    /// A capture device, matched by case-insensitive substring. `None` uses the
    /// system default input.
    Device(Option<String>),
    /// A synthetic sine wave; holds the bit pattern of its frequency in hertz,
    /// double precision.
    Tone(u64),
}

impl Default for Source {
    fn default() -> (source: Self)
        ensures
            source == Source::Device(None),
    {
        Source::Device(None)
    }
}

/// Where a receiver puts audio.
#[derive(Debug, Clone, PartialEq, Eq)]
pub enum Sink {
    /// An output device, matched by case-insensitive substring. `None` uses the
    /// system default output.
    Device(Option<String>),
    /// A WAV file, by its path.
    Wav(String),
}

impl Default for Sink {
    fn default() -> (sink: Self)
        ensures
            sink == Sink::Device(None),
    {
        Sink::Device(None)
    }
}

#[derive(Debug, Clone, PartialEq, Eq)]
pub struct SenderConfig {
    pub host: String,
    pub port: u16,
    pub source: Source,
    /// Override the capture rate. `None` accepts the device's own.
    pub sample_rate: Option<u32>,
    pub channels: Option<u16>,
    pub packet_frames: u32,
    /// Capture callback size in frames. `None` lets the host decide.
    pub capture_frames: Option<u32>,
    /// Stop after this many seconds. `None` runs until stopped.
    pub duration_secs: Option<u64>,
    /// Applied to captured audio before it is sent: the bit pattern of a gain in
    /// decibels, single precision.
    pub gain_db_bits: u32,
}

impl Default for SenderConfig {
    fn default() -> (config: Self)
        ensures
            config.host@ == Seq::<char>::empty(),
            config.port == 42100,
            config.source == Source::Device(None),
            config.sample_rate is None,
            config.channels is None,
            config.packet_frames == 240,
            config.capture_frames is None,
            config.duration_secs is None,
            config.gain_db_bits == 0,
    {
        Self {
            host: String::new(),
            port: DEFAULT_CONTROL_PORT,
            source: Source::default(),
            sample_rate: None,
            channels: None,
            packet_frames: DEFAULT_PACKET_FRAMES,
            capture_frames: None,
            duration_secs: None,
            gain_db_bits: DEFAULT_GAIN_DB_BITS,
        }
    }
}

#[derive(Debug, Clone, PartialEq, Eq)]
pub struct ReceiverConfig {
    pub bind: String,
    pub port: u16,
    /// Preferred media port, reported to the sender in the handshake.
    pub media_port: u16,
    pub sink: Sink,
    pub target_buffer_ms: u32,
    /// Render callback size in frames. `None` lets the host decide.
    pub render_frames: Option<u32>,
    /// Chunk size for the WAV sink, standing in for a device callback.
    pub wav_chunk_frames: u32,
    /// Serve one session and return, rather than waiting for the next sender.
    pub once: bool,
    pub duration_secs: Option<u64>,
    /// Answer discovery probes so a sender can find this machine.
    pub announce: bool,
    /// Port to answer probes on. Zero picks any free port.
    pub discovery_port: u16,
    /// Something human-readable in the reply, to tell two receivers apart.
    pub label: String,
    /// Applied to received audio before it reaches the device: the bit pattern
    /// of a gain in decibels, single precision.
    pub gain_db_bits: u32,
}

impl Default for ReceiverConfig {
    fn default() -> (config: Self)
        ensures
            config.bind@ == "0.0.0.0"@,
            config.port == 42100,
            config.media_port == 42101,
            config.sink == Sink::Device(None),
            config.target_buffer_ms == 20,
            config.render_frames is None,
            config.wav_chunk_frames == 240,
            !config.once,
            config.duration_secs is None,
            config.announce,
            config.discovery_port == 42102,
            config.label@ == Seq::<char>::empty(),
            config.gain_db_bits == 0,
    {
        Self {
            bind: "0.0.0.0".to_owned(),
            port: DEFAULT_CONTROL_PORT,
            media_port: DEFAULT_MEDIA_PORT,
            sink: Sink::default(),
            target_buffer_ms: DEFAULT_TARGET_BUFFER_MS,
            render_frames: None,
            wav_chunk_frames: DEFAULT_PACKET_FRAMES,
            once: false,
            duration_secs: None,
            announce: true,
            discovery_port: DEFAULT_DISCOVERY_PORT,
            label: String::new(),
            gain_db_bits: DEFAULT_GAIN_DB_BITS,
        }
    }
}

} // verus!
