//! Control-channel messages.

use vstd::prelude::*;

verus! {

/// Sample format on the wire. Only signed 16-bit little-endian exists.
#[derive(Debug, Clone, Copy, PartialEq, Eq, Structural)]
pub enum WireSampleFormat {
    S16Le,
}

impl WireSampleFormat {
    pub fn bytes_per_sample(self) -> (n: usize)
        ensures
            n == 2,
    {
        match self {
            WireSampleFormat::S16Le => 2,
        }
    }
}

/// The shape of the PCM stream carried on the media channel.
#[derive(Debug, Clone, Copy, PartialEq, Eq, Structural)]
pub struct StreamFormat {
    pub sample_rate: u32,
    pub channels: u16,
    pub sample_format: WireSampleFormat,
    /// Frames per media datagram, negotiated so the receiver can size its
    /// buffers before the first datagram arrives.
    pub frames_per_packet: u32,
}

impl StreamFormat {
    /// Bytes in one frame: two for each channel.
    pub open spec fn frame_bytes(self) -> nat {
        self.channels as nat * 2
    }

    /// Bytes of payload in one full datagram.
    pub open spec fn packet_bytes(self) -> nat {
        self.frames_per_packet as nat * self.frame_bytes()
    }

    pub fn bytes_per_frame(&self) -> (n: usize)
        ensures
            n == self.frame_bytes(),
    {
        self.channels as usize * self.sample_format.bytes_per_sample()
    }

    pub fn payload_bytes_per_packet(&self) -> (n: usize)
        requires
            self.packet_bytes() <= usize::MAX,
        ensures
            n == self.packet_bytes(),
    {
        let frame: usize = self.bytes_per_frame();
        self.frames_per_packet as usize * frame
    }
}

/// Sender's opening message. Must be the first frame on the control channel.
#[derive(Debug, Clone, PartialEq, Eq)]
pub struct Hello {
    pub protocol_version: u32,
    /// Distinguishes a reconnect from a second concurrent sender. The receiver
    /// serves one session at a time and rejects the other with
    /// [`ServerMessage::Error`].
    pub session_id: u64,
    /// Capture device name, for the receiver's logs only.
    pub device_name: String,
    pub format: StreamFormat,
}

/// Receiver's answer to [`Hello`].
#[derive(Debug, Clone, Copy, PartialEq, Eq, Structural)]
pub struct HelloAck {
    pub protocol_version: u32,
    /// Where to send media: the port the receiver actually bound.
    pub media_port: u16,
    /// Jitter-buffer target the receiver settled on.
    pub target_buffer_ms: u32,
    /// The format the receiver will decode, equal to the one in [`Hello`].
    pub format: StreamFormat,
}

/// Sender-side counters, reported periodically.
#[derive(Debug, Clone, Copy, PartialEq, Eq, Structural)]
pub struct SenderStats {
    pub frames_captured: u64,
    pub packets_sent: u64,
    /// Frames dropped because the capture callback outran the network thread.
    pub frames_dropped: u64,
}

/// Receiver-side counters.
#[derive(Debug, Clone, Copy, PartialEq, Eq, Structural)]
pub struct ReceiverStats {
    pub packets_received: u64,
    /// Gaps inferred from `sample_idx`, in frames.
    pub frames_lost: u64,
    /// Datagrams that arrived after their position had already been played.
    pub packets_late: u64,
    /// Datagrams that arrived out of order but early enough to be placed.
    pub packets_reordered: u64,
    /// Render callbacks that found too little buffered audio.
    pub underruns: u64,
    /// Frames discarded because the buffer filled faster than it drained.
    pub overruns: u64,
    /// The bit pattern of the buffer fill in milliseconds, single precision.
    pub buffer_fill_bits: u32,
    /// The bit pattern of the resampling ratio, double precision.
    pub resample_ratio_bits: u64,
}

/// Sender to receiver.
#[derive(Debug, Clone, PartialEq, Eq)]
pub enum ClientMessage {
    Hello(Hello),
    Heartbeat,
    Stats(SenderStats),
    Goodbye,
}

/// Receiver to sender.
#[derive(Debug, Clone, PartialEq, Eq)]
pub enum ServerMessage {
    HelloAck(HelloAck),
    Heartbeat,
    Stats(ReceiverStats),
    Error { message: String },
}

/// A frame is two bytes for each channel, and a packet its frames.
pub proof fn a_packet_is_two_bytes_for_each_sample(format: StreamFormat)
    ensures
        format.frame_bytes() == 2 * format.channels,
        format.packet_bytes() == format.frames_per_packet * format.channels * 2,
{
    assert(format.frames_per_packet * (format.channels * 2) == format.frames_per_packet
        * format.channels * 2) by (nonlinear_arith);
}

} // verus!
