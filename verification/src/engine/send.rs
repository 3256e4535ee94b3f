//! The sending end: capture a local input and stream it.

use vstd::prelude::*;

use crate::audio::capture::CaptureConfig;
use crate::audio::tone;
use crate::engine::config::{SenderConfig, Source};
use crate::engine::timing;
use crate::engine::timing::{HEARTBEAT, PEER_TIMEOUT};
use crate::protocol::api::{
    Hello, HelloAck, ReceiverStats, SenderStats, ServerMessage, StreamFormat, WireSampleFormat,
};
use crate::protocol::framing;
use crate::protocol::media::{MediaHeader, CHANNEL_AUDIO};
use crate::protocol::PROTOCOL_VERSION;
use crate::signal::gain::Gain;
use crate::signal::pcm;
use crate::signal::ring::{frame_channel, FrameConsumer, FrameProducer};
use crate::text;

verus! {

/// Capture ring depth, in milliseconds.
pub const CAPTURE_RING_MS: usize = 200;

/// The capture device that a configuration asks for.
pub open spec fn wanted_device(source: Source) -> Option<Seq<char>> {
    match source {
        Source::Device(Some(name)) => Some(name@),
        _ => None,
    }
}

/// How a session's capture device is opened.
pub fn capture_config(config: &SenderConfig, gain: Gain) -> (r: CaptureConfig)
    ensures
        match wanted_device(config.source) {
            Some(name) => r.device matches Some(d) && d@ == name,
            None => r.device is None,
        },
        r.sample_rate == config.sample_rate,
        r.channels == config.channels,
        r.buffer_frames == config.capture_frames,
        r.gain == gain,
{
    let device = match &config.source {
        Source::Device(Some(name)) => Some(name.clone()),
        Source::Device(None) => None,
        Source::Tone(_) => None,
    };
    CaptureConfig {
        device,
        sample_rate: config.sample_rate,
        channels: config.channels,
        buffer_frames: config.capture_frames,
        gain,
    }
}

/// The name and the format that a sender of a tone offers, `hz` being its
/// frequency in digits.
pub fn probe_tone(config: &SenderConfig, hz: &str) -> (r: (String, StreamFormat))
    ensures
        r.0@ == "tone "@ + hz@ + " Hz"@,
        r.1 == (StreamFormat {
            sample_rate: match config.sample_rate {
                Some(rate) => rate,
                None => 48_000,
            },
            channels: match config.channels {
                Some(n) => n,
                None => 2,
            },
            sample_format: WireSampleFormat::S16Le,
            frames_per_packet: config.packet_frames,
        }),
{
    let mut name = "tone ".to_owned();
    name.append(hz);
    name.append(" Hz");
    (name, tone::format(config.sample_rate, config.channels, config.packet_frames))
}

/// Frames of the capture ring.
pub open spec fn ring_frames(format: StreamFormat) -> nat {
    format.sample_rate as nat * CAPTURE_RING_MS as nat / 1000
}

/// A stream of this format can be sent: there is something in every frame and in
/// every packet, and its capture ring and its packets fit in memory.
pub open spec fn sendable(format: StreamFormat) -> bool {
    &&& format.channels > 0
    &&& format.frames_per_packet > 0
    &&& format.frames_per_packet * format.channels <= usize::MAX
    &&& ring_frames(format) > 0
    &&& ring_frames(format) * format.channels * 4 <= isize::MAX
}

/// The ring between the capture callback and the media thread, and what makes
/// datagrams of what it holds. `None` where the format cannot be sent.
pub fn capture_ring(format: StreamFormat) -> (r: Option<
    (FrameProducer, FrameConsumer, Packetiser),
>)
    ensures
        match r {
            None => !sendable(format),
            Some((producer, consumer, packetiser)) => {
                &&& sendable(format)
                &&& producer.wf()
                &&& producer.frame_words() == format.channels
                &&& producer.sent() == Seq::<u32>::empty()
                &&& producer.sure_frames() == ring_frames(format)
                &&& consumer.wf()
                &&& consumer.frame_words() == format.channels
                &&& consumer.taken() == Seq::<u32>::empty()
                &&& consumer.traffic() == producer.traffic()
                &&& packetiser.wf()
                &&& packetiser.packet_frames() == format.frames_per_packet
                &&& packetiser.frame_words() == format.channels
                &&& packetiser.next_seq() == 0
                &&& packetiser.next_idx() == 0
            },
        },
{
    let frames: u64 = format.sample_rate as u64 * CAPTURE_RING_MS as u64 / 1000;
    if format.channels == 0 || format.frames_per_packet == 0 || frames == 0 {
        return None;
    }
    proof {
        assert(format.frames_per_packet * format.channels <= 0xffff_ffff * 0xffff && frames
            * format.channels <= 0xff_ffff_ffff * 0xffff && frames <= frames * format.channels)
            by (nonlinear_arith)
            requires
                0 < format.frames_per_packet <= 0xffff_ffff,
                0 < format.channels <= 0xffff,
                0 < frames <= 0xff_ffff_ffff,
        ;
    }
    let packet: u64 = format.frames_per_packet as u64 * format.channels as u64;
    let ring: u64 = frames * format.channels as u64;
    if packet as u128 > usize::MAX as u128 || ring as u128 * 4 > isize::MAX as u128 {
        return None;
    }
    let (producer, consumer) = frame_channel(format.channels as usize, frames as usize);
    Some((producer, consumer, Packetiser::new(format)))
}

/// What a sender without a host is told.
pub open spec fn no_host() -> Seq<char> {
    "no host given — set the address of the machine running the receiver"@
}

/// Refuses a host that is nothing but white space.
pub fn check_host(host: &str) -> (r: Result<(), String>)
    ensures
        text::blank(host@) ==> (r matches Err(message) && message@ == no_host()),
        !text::blank(host@) ==> r is Ok,
{
    if text::is_blank(host) {
        return Err(
            "no host given — set the address of the machine running the receiver".to_owned(),
        );
    }
    Ok(())
}

/// The opening message of a session.
pub fn hello(session_id: u64, device_name: String, format: StreamFormat) -> (hello: Hello)
    ensures
        hello.protocol_version == PROTOCOL_VERSION,
        hello.session_id == session_id,
        hello.device_name == device_name,
        hello.format == format,
{
    Hello { protocol_version: PROTOCOL_VERSION, session_id, device_name, format }
}

/// Why the receiver's answer to the opening message ends the session.
#[derive(Debug, PartialEq, Eq)]
pub enum HandshakeFault {
    /// The receiver refused; holds its reason.
    Rejected(String),
    /// The receiver sent something else.
    NotAnAck(ServerMessage),
    /// The receiver would decode another format than the one offered.
    FormatChanged { wanted: StreamFormat, offered: StreamFormat },
}

/// A stream format, as a programmer is shown it.
pub open spec fn format_words(format: StreamFormat) -> Seq<char> {
    "StreamFormat { sample_rate: "@ + text::decimal(format.sample_rate as nat) + ", channels: "@
        + text::decimal(format.channels as nat)
        + ", sample_format: S16Le, frames_per_packet: "@ + text::decimal(
        format.frames_per_packet as nat,
    ) + " }"@
}

fn push_format(out: &mut String, format: &StreamFormat)
    ensures
        final(out)@ == old(out)@ + format_words(*format),
{
    out.append("StreamFormat { sample_rate: ");
    text::push_decimal(out, format.sample_rate as u64);
    out.append(", channels: ");
    text::push_decimal(out, format.channels as u64);
    out.append(", sample_format: S16Le, frames_per_packet: ");
    text::push_decimal(out, format.frames_per_packet as u64);
    out.append(" }");
    assert(out@ =~= old(out)@ + format_words(*format));
}

impl HandshakeFault {
    /// What the fault says, `shown` being how the answer is shown to a
    /// programmer.
    pub open spec fn words(self, shown: Seq<char>) -> Seq<char> {
        match self {
            HandshakeFault::Rejected(reason) => "receiver rejected the session: "@ + reason@,
            HandshakeFault::NotAnAck(_) => "expected a hello ack, got "@ + shown,
            HandshakeFault::FormatChanged { wanted, offered } => "receiver wants "@ + format_words(
                wanted,
            ) + " but we offered "@ + format_words(offered)
                + "; version 1 does not renegotiate"@,
        }
    }

    /// The message shown for the fault.
    pub fn message(&self, shown: &str) -> (out: String)
        ensures
            out@ == self.words(shown@),
    {
        let mut out = String::new();
        match self {
            HandshakeFault::Rejected(reason) => {
                out.append("receiver rejected the session: ");
                out.append(reason.as_str());
            },
            HandshakeFault::NotAnAck(_) => {
                out.append("expected a hello ack, got ");
                out.append(shown);
            },
            HandshakeFault::FormatChanged { wanted, offered } => {
                out.append("receiver wants ");
                push_format(&mut out, wanted);
                out.append(" but we offered ");
                push_format(&mut out, offered);
                out.append("; version 1 does not renegotiate");
            },
        }
        assert(out@ =~= self.words(shown@));
        out
    }
}

/// Takes the receiver's answer to the opening message. Only an acknowledgement
/// of the very format that was offered starts a session.
pub fn check_ack(reply: ServerMessage, offered: StreamFormat) -> (r: Result<
    HelloAck,
    HandshakeFault,
>)
    ensures
        match reply {
            ServerMessage::HelloAck(ack) => if ack.format == offered {
                r == Ok::<HelloAck, HandshakeFault>(ack)
            } else {
                r == Err::<HelloAck, HandshakeFault>(
                    HandshakeFault::FormatChanged { wanted: ack.format, offered },
                )
            },
            ServerMessage::Error { message } => r == Err::<HelloAck, HandshakeFault>(
                HandshakeFault::Rejected(message),
            ),
            _ => r == Err::<HelloAck, HandshakeFault>(HandshakeFault::NotAnAck(reply)),
        },
{
    match reply {
        ServerMessage::HelloAck(ack) => {
            if ack.format == offered {
                Ok(ack)
            } else {
                Err(HandshakeFault::FormatChanged { wanted: ack.format, offered })
            }
        },
        ServerMessage::Error { message } => Err(HandshakeFault::Rejected(message)),
        other => Err(HandshakeFault::NotAnAck(other)),
    }
}

/// Makes datagrams of captured frames.
///
/// The frame index advances by the frames of each datagram whether or not it is
/// delivered, so a lost datagram leaves a gap the receiver can see.
pub struct Packetiser {
    frames: usize,
    channels: usize,
    seq: u32,
    sample_idx: u64,
    /// Reused across datagrams.
    words: Vec<u32>,
    samples: Vec<i16>,
}

impl Packetiser {
    /// Frames in each datagram.
    pub closed spec fn packet_frames(&self) -> nat {
        self.frames as nat
    }

    pub closed spec fn frame_words(&self) -> nat {
        self.channels as nat
    }

    /// The number of the next datagram.
    pub closed spec fn next_seq(&self) -> u32 {
        self.seq
    }

    /// The index of the next frame.
    pub closed spec fn next_idx(&self) -> u64 {
        self.sample_idx
    }

    pub closed spec fn wf(&self) -> bool {
        &&& self.frames > 0
        &&& self.channels > 0
        &&& self.frames * self.channels <= usize::MAX
        &&& self.words@.len() == self.frames * self.channels
    }

    pub fn new(format: StreamFormat) -> (p: Self)
        requires
            format.frames_per_packet > 0,
            format.channels > 0,
            format.frames_per_packet * format.channels <= usize::MAX,
        ensures
            p.wf(),
            p.packet_frames() == format.frames_per_packet,
            p.frame_words() == format.channels,
            p.next_seq() == 0,
            p.next_idx() == 0,
    {
        let frames: usize = format.frames_per_packet as usize;
        let channels: usize = format.channels as usize;
        let mut words: Vec<u32> = Vec::new();
        words.resize(frames * channels, 0);
        Self { frames, channels, seq: 0, sample_idx: 0, words, samples: Vec::new() }
    }

    /// The next datagram, once the ring holds enough frames for a whole one;
    /// `None`, with nothing taken, until then. Samples are put through
    /// `convert`.
    pub fn next_datagram<F: Fn(u32) -> i16>(&mut self, ring: &mut FrameConsumer, convert: F) -> (r:
        Option<Vec<u8>>)
        requires
            old(self).wf(),
            old(ring).wf(),
            old(ring).frame_words() == old(self).frame_words(),
            old(self).next_idx() + old(self).packet_frames() <= u64::MAX,
            forall|x: u32| call_requires(convert, (x,)),
        ensures
            final(self).wf(),
            final(ring).wf(),
            final(ring).frame_words() == old(ring).frame_words(),
            final(ring).traffic() == old(ring).traffic(),
            final(ring).capacity_frames() == old(ring).capacity_frames(),
            final(self).packet_frames() == old(self).packet_frames(),
            final(self).frame_words() == old(self).frame_words(),
            old(ring).sure_frames() >= old(self).packet_frames() ==> r is Some,
            match r {
                None => {
                    &&& final(ring).taken() == old(ring).taken()
                    &&& old(ring).sure_frames() <= final(ring).sure_frames()
                    &&& final(ring).sure_frames() < old(self).packet_frames()
                    &&& final(self).next_seq() == old(self).next_seq()
                    &&& final(self).next_idx() == old(self).next_idx()
                },
                Some(datagram) => {
                    let start = old(ring).taken().len();
                    let count = old(self).packet_frames() * old(self).frame_words();
                    &&& final(ring).sure_frames() + old(self).packet_frames()
                        >= old(ring).sure_frames()
                    &&& final(ring).taken().len() == start + count
                    &&& final(ring).taken().take(start as int) == old(ring).taken()
                    &&& final(self).next_seq() == old(self).next_seq().wrapping_add(1)
                    &&& final(self).next_idx() == old(self).next_idx() + old(self).packet_frames()
                    &&& exists|samples: Seq<i16>|
                        {
                            &&& datagram@ == #[trigger] datagram_of(
                                old(self).next_seq(),
                                old(self).next_idx(),
                                samples,
                            )
                            &&& samples.len() == count
                            &&& forall|i: int|
                                0 <= i < count ==> call_ensures(
                                    convert,
                                    (final(ring).taken()[start + i],),
                                    #[trigger] samples[i],
                                )
                        }
                },
            },
    {
        if ring.occupied_frames() < self.frames {
            return None;
        }
        let ghost start = ring.taken().len();
        proof {
            vstd::arithmetic::div_mod::lemma_div_by_multiple(
                self.frames as int,
                self.channels as int,
            );
        }
        let read: usize = ring.pop_frames(self.words.as_mut_slice());
        assert(read == self.frames);
        assert(self.words@.take(self.words@.len() as int) =~= self.words@);
        pcm::encode_into(self.words.as_slice(), convert, &mut self.samples);
        let header = MediaHeader::new(CHANNEL_AUDIO, self.seq, self.sample_idx);
        let mut datagram: Vec<u8> = Vec::new();
        let head = header.encode();
        datagram.extend_from_slice(head.as_slice());
        pcm::i16_to_payload(self.samples.as_slice(), &mut datagram);
        proof {
            assert(datagram@ =~= datagram_of(self.seq, self.sample_idx, self.samples@));
            let taken = ring.taken();
            assert(taken.take(start as int) =~= old(ring).taken());
            assert forall|i: int| 0 <= i < self.words@.len() implies call_ensures(
                convert,
                (taken[start + i],),
                #[trigger] self.samples@[i],
            ) by {
                assert(taken[start + i] == self.words@[i]);
            }
        }
        let ghost sent = self.samples@;
        self.seq = self.seq.wrapping_add(1);
        self.sample_idx = self.sample_idx + self.frames as u64;
        assert(datagram@ == datagram_of(old(self).next_seq(), old(self).next_idx(), sent));
        Some(datagram)
    }
}

/// An audio datagram with these samples.
pub open spec fn datagram_of(seq: u32, sample_idx: u64, samples: Seq<i16>) -> Seq<u8> {
    (MediaHeader {
        version: PROTOCOL_VERSION as u8,
        channel: CHANNEL_AUDIO,
        seq,
        sample_idx,
    }).wire() + pcm::payload_of(samples)
}

/// What is sent is what is received: a datagram decodes to its own header, and
/// its payload to its own samples.
pub proof fn datagrams_round_trip(seq: u32, sample_idx: u64, samples: Seq<i16>)
    ensures
        ({
            let header = MediaHeader {
                version: PROTOCOL_VERSION as u8,
                channel: CHANNEL_AUDIO,
                seq,
                sample_idx,
            };
            &&& MediaHeader::decoded(datagram_of(seq, sample_idx, samples)) == Ok::<
                (MediaHeader, Seq<u8>),
                crate::protocol::media::Error,
            >((header, pcm::payload_of(samples)))
            &&& pcm::samples_of(pcm::payload_of(samples)) == samples
        }),
{
    let header = MediaHeader {
        version: PROTOCOL_VERSION as u8,
        channel: CHANNEL_AUDIO,
        seq,
        sample_idx,
    };
    header.encoding_round_trips(pcm::payload_of(samples));
    pcm::payload_round_trips(samples);
}

/// What became of the datagrams.
#[derive(Debug, Clone, Copy, PartialEq, Eq, Structural)]
pub struct SendTally {
    pub packets_sent: u64,
    pub send_errors: u64,
    /// The current run of errors has been logged.
    pub logged_error: bool,
}

impl SendTally {
    pub fn new() -> (tally: Self)
        ensures
            tally == (SendTally { packets_sent: 0, send_errors: 0, logged_error: false }),
    {
        Self { packets_sent: 0, send_errors: 0, logged_error: false }
    }

    /// Takes note of one send. True where an error should be logged: only the
    /// first of a run is, so that a dead link does not bury its own cause.
    pub fn note(&mut self, delivered: bool) -> (log: bool)
        ensures
            delivered ==> !log && *final(self) == (SendTally {
                packets_sent: old(self).packets_sent.wrapping_add(1),
                send_errors: old(self).send_errors,
                logged_error: false,
            }),
            !delivered ==> log == !old(self).logged_error && *final(self) == (SendTally {
                packets_sent: old(self).packets_sent,
                send_errors: old(self).send_errors.wrapping_add(1),
                logged_error: true,
            }),
    {
        if delivered {
            self.packets_sent = self.packets_sent.wrapping_add(1);
            self.logged_error = false;
            false
        } else {
            self.send_errors = self.send_errors.wrapping_add(1);
            let log = !self.logged_error;
            self.logged_error = true;
            log
        }
    }

    /// Whether the number of errors is one to remark on: every thousandth.
    pub fn is_failing(&self) -> (yes: bool)
        ensures
            yes == (self.send_errors > 0 && self.send_errors % 1000 == 0),
    {
        self.send_errors > 0 && self.send_errors % 1000 == 0
    }
}

/// The log lines of a session that ends.
pub open spec fn closing_notes(dropped: u64, sent: u64) -> Seq<Seq<char>> {
    (if dropped > 0 {
        seq![text::decimal(dropped as nat) + " capture frames dropped"@]
    } else {
        seq![]
    }) + seq!["sent "@ + text::decimal(sent as nat) + " packets"@]
}

/// What is logged of a session that ends.
pub fn close_session(dropped: u64, sent: u64) -> (notes: Vec<String>)
    ensures
        text::texts(notes@) == closing_notes(dropped, sent),
{
    let mut notes: Vec<String> = Vec::new();
    assert(text::texts(notes@) =~= seq![]);
    if dropped > 0 {
        let mut line: String = String::new();
        text::push_decimal(&mut line, dropped);
        line.append(" capture frames dropped");
        assert(line@ =~= text::decimal(dropped as nat) + " capture frames dropped"@);
        text::push_text(&mut notes, line);
    }
    let mut line: String = "sent ".to_owned();
    text::push_decimal(&mut line, sent);
    line.append(" packets");
    text::push_text(&mut notes, line);
    assert(text::texts(notes@) =~= closing_notes(dropped, sent));
    notes
}

/// What a turn of the sender's control loop does.
#[derive(Debug, Clone, Copy, PartialEq, Eq, Structural)]
pub enum Turn {
    /// Say goodbye and end: a stop was requested.
    Stop,
    /// Say goodbye and end: the duration is over.
    DurationReached,
    /// Fail: nothing was heard of the receiver for this long, in nanoseconds.
    PeerQuiet(u64),
    /// Send a heartbeat and statistics, then listen.
    Beat,
    /// Listen.
    Listen,
}

/// What a message from the receiver leads to.
#[derive(Debug, PartialEq, Eq)]
pub enum Heard {
    /// Go on.
    Nothing,
    /// Show the receiver's numbers and go on.
    Report(ReceiverStats),
    /// The receiver closed the connection: end.
    Closed,
    /// The receiver reported an error; holds it.
    Reported(String),
    /// The receiver acknowledged a second time.
    SecondAck,
    /// The control channel failed.
    Failed(framing::Error),
}

/// When the sender's control loop ends, when it beats, and when it last heard of
/// the receiver, in nanoseconds.
#[derive(Debug, Clone, Copy, PartialEq, Eq, Structural)]
pub struct SenderControl {
    pub deadline: Option<u64>,
    pub next_beat: u64,
    pub last_heard: u64,
}

impl SenderControl {
    /// A loop that starts now, and so beats at once. It ends after
    /// `duration_secs`, where that is given.
    pub fn new(now: u64, duration_secs: Option<u64>) -> (control: Self)
        ensures
            control.next_beat == now,
            control.last_heard == now,
            match duration_secs {
                None => control.deadline is None,
                Some(secs) => control.deadline == Some(
                    if now + secs * 1_000_000_000 <= u64::MAX {
                        (now + secs * 1_000_000_000) as u64
                    } else {
                        u64::MAX
                    },
                ),
            },
    {
        Self {
            deadline: timing::after_secs(now, duration_secs),
            next_beat: now,
            last_heard: now,
        }
    }

    /// What one turn does.
    pub open spec fn turn_at(self, now: u64, stop_requested: bool) -> Turn {
        if stop_requested {
            Turn::Stop
        } else if timing::past(self.deadline, now) {
            Turn::DurationReached
        } else if now - self.last_heard > PEER_TIMEOUT {
            Turn::PeerQuiet((now - self.last_heard) as u64)
        } else if now >= self.next_beat {
            Turn::Beat
        } else {
            Turn::Listen
        }
    }

    /// Decides a turn. Beats fall on a fixed grid: a late one does not push the
    /// next back.
    pub fn turn(&mut self, now: u64, stop_requested: bool) -> (turn: Turn)
        requires
            old(self).next_beat + HEARTBEAT <= u64::MAX,
            old(self).last_heard <= now,
        ensures
            turn == old(self).turn_at(now, stop_requested),
            final(self).deadline == old(self).deadline,
            final(self).last_heard == old(self).last_heard,
            final(self).next_beat == if turn == Turn::Beat {
                (old(self).next_beat + HEARTBEAT) as u64
            } else {
                old(self).next_beat
            },
    {
        if stop_requested {
            return Turn::Stop;
        }
        if timing::is_past(self.deadline, now) {
            return Turn::DurationReached;
        }
        let quiet: u64 = now - self.last_heard;
        if quiet > PEER_TIMEOUT {
            return Turn::PeerQuiet(quiet);
        }
        if now >= self.next_beat {
            self.next_beat = self.next_beat + HEARTBEAT;
            return Turn::Beat;
        }
        Turn::Listen
    }

    /// The statistics that go with a beat.
    pub fn beat(sent: u64, dropped: u64, packet_frames: u32) -> (stats: SenderStats)
        requires
            sent * packet_frames <= u64::MAX,
        ensures
            stats == (SenderStats {
                frames_captured: (sent * packet_frames) as u64,
                packets_sent: sent,
                frames_dropped: dropped,
            }),
    {
        SenderStats {
            frames_captured: sent * packet_frames as u64,
            packets_sent: sent,
            frames_dropped: dropped,
        }
    }

    /// What listening leads to: `None` is a read timeout. Heartbeats and
    /// statistics are signs of life.
    pub fn hear(&mut self, now: u64, message: Result<Option<ServerMessage>, framing::Error>) -> (
        heard: Heard)
        ensures
            final(self).deadline == old(self).deadline,
            final(self).next_beat == old(self).next_beat,
            final(self).last_heard == if is_sign_of_life(message) {
                now
            } else {
                old(self).last_heard
            },
            match message {
                Ok(None) => heard == Heard::Nothing,
                Ok(Some(ServerMessage::Heartbeat)) => heard == Heard::Nothing,
                Ok(Some(ServerMessage::Stats(stats))) => heard == Heard::Report(stats),
                Ok(Some(ServerMessage::Error { message })) => heard == Heard::Reported(message),
                Ok(Some(ServerMessage::HelloAck(_))) => heard == Heard::SecondAck,
                Err(error) => if error.ends() {
                    heard == Heard::Closed
                } else {
                    heard == Heard::Failed(error)
                },
            },
    {
        match message {
            Ok(None) => Heard::Nothing,
            Ok(Some(ServerMessage::Heartbeat)) => {
                self.last_heard = now;
                Heard::Nothing
            },
            Ok(Some(ServerMessage::Stats(stats))) => {
                self.last_heard = now;
                Heard::Report(stats)
            },
            Ok(Some(ServerMessage::Error { message })) => Heard::Reported(message),
            Ok(Some(ServerMessage::HelloAck(_))) => Heard::SecondAck,
            Err(error) => {
                if error.is_end() {
                    Heard::Closed
                } else {
                    Heard::Failed(error)
                }
            },
        }
    }
}

/// The message shows that the receiver is still there.
pub open spec fn is_sign_of_life(message: Result<Option<ServerMessage>, framing::Error>) -> bool {
    match message {
        Ok(Some(ServerMessage::Heartbeat)) => true,
        Ok(Some(ServerMessage::Stats(_))) => true,
        _ => false,
    }
}

/// A receiver that shows a sign of life at least once in every peer timeout is
/// never declared gone, and one that does not is, unless the session ends first.
pub proof fn only_a_quiet_receiver_is_dropped(control: SenderControl, now: u64, stop: bool)
    requires
        control.last_heard <= now,
    ensures
        now - control.last_heard <= PEER_TIMEOUT ==> !(control.turn_at(now, stop) is PeerQuiet),
        now - control.last_heard > PEER_TIMEOUT && !stop && !timing::past(control.deadline, now)
            ==> control.turn_at(now, stop) == Turn::PeerQuiet((now - control.last_heard) as u64),
{
}

/// A session that goes on keeps beating, with or without a deadline: each turn that
/// is not told to stop, has not come to its deadline and has heard of the receiver
/// in the last four seconds beats exactly when the time of the next beat has come,
/// and listens otherwise.
pub proof fn a_session_that_goes_on_keeps_beating(control: SenderControl, now: u64, stop: bool)
    requires
        control.last_heard <= now,
    ensures
        ({
            let turn = control.turn_at(now, stop);
            let over = control.deadline matches Some(d) && d <= now;
            let quiet = now - control.last_heard > 4_000_000_000;
            &&& turn == Turn::Stop <==> stop
            &&& turn == Turn::DurationReached <==> !stop && over
            &&& turn is PeerQuiet <==> !stop && !over && quiet
            &&& turn matches Turn::PeerQuiet(time) ==> time == now - control.last_heard
            &&& turn == Turn::Beat <==> !stop && !over && !quiet && now >= control.next_beat
            &&& turn == Turn::Listen <==> !stop && !over && !quiet && now < control.next_beat
        }),
{
}

/// Heartbeats and statistics are signs of life; silence, an error, a second
/// acknowledgement and a fault are not.
pub proof fn signs_of_life_are_heartbeats_and_statistics(
    message: Result<Option<ServerMessage>, framing::Error>,
)
    ensures
        is_sign_of_life(message) <==> {
            &&& message matches Ok(Some(said))
            &&& said is Heartbeat || said is Stats
        },
{
}

/// The capture ring lasts for 200 milliseconds, short of one frame, and no longer.
pub proof fn the_capture_ring_lasts_for_its_depth(format: StreamFormat)
    ensures
        (ring_frames(format) + 1) * 5 > format.sample_rate,
        ring_frames(format) * 5 <= format.sample_rate,
{
}

/// Every format that has something in its frames and its packets, a rate that gives
/// the ring a frame, and sizes that memory can hold, can be sent.
pub proof fn what_memory_can_hold_is_sent(format: StreamFormat)
    ensures
        sendable(format) ==> format.channels > 0 && format.frames_per_packet > 0
            && format.sample_rate >= 5,
        format.channels > 0 && format.frames_per_packet > 0 && format.sample_rate >= 5
            && format.frames_per_packet * format.channels <= usize::MAX && format.sample_rate
            * format.channels * 4 <= isize::MAX ==> sendable(format),
{
    the_capture_ring_lasts_for_its_depth(format);
    let frames = ring_frames(format);
    assert(frames * format.channels <= format.sample_rate * format.channels) by (nonlinear_arith)
        requires
            frames <= format.sample_rate,
    ;
}

/// A datagram is sixteen bytes of header, big-endian, and two bytes for each sample,
/// little-endian: any receiver of this protocol can read it.
pub proof fn a_datagram_stands_on_the_wire_as_agreed(
    seq: u32,
    sample_idx: u64,
    samples: Seq<i16>,
)
    ensures
        ({
            let datagram = datagram_of(seq, sample_idx, samples);
            &&& datagram.len() == 16 + 2 * samples.len()
            &&& datagram[0] == 0x52 && datagram[1] == 0x50
            &&& datagram[2] == 1 && datagram[3] == 0
            &&& crate::bytes::be_value(datagram.subrange(4, 8)) == seq
            &&& crate::bytes::be_value(datagram.subrange(8, 16)) == sample_idx
            &&& forall|i: int|
                0 <= i < samples.len() ==> ({
                    let bytes = datagram[16 + 2 * i] + 256 * datagram[17 + 2 * i];
                    let sample = (#[trigger] samples[i]) as int;
                    sample == bytes || sample == bytes - 0x1_0000
                })
        }),
{
    let header = MediaHeader {
        version: PROTOCOL_VERSION as u8,
        channel: CHANNEL_AUDIO,
        seq,
        sample_idx,
    };
    let datagram = datagram_of(seq, sample_idx, samples);
    let payload = pcm::payload_of(samples);
    header.the_header_stands_on_the_wire_as_agreed(payload);
    header.wire_len();
    pcm::payload_round_trips(samples);
    assert forall|i: int| 0 <= i < samples.len() implies ({
        let bytes = datagram[16 + 2 * i] + 256 * datagram[17 + 2 * i];
        let sample = (#[trigger] samples[i]) as int;
        sample == bytes || sample == bytes - 0x1_0000
    }) by {
        pcm::samples_are_little_endian(payload, i);
        assert(datagram[16 + 2 * i] == payload[2 * i]);
        assert(datagram[17 + 2 * i] == payload[2 * i + 1]);
    }
}

/// What a session that ends logs: frames that were dropped, where any were, and
/// always the packets that were sent.
pub proof fn an_ending_session_accounts_for_its_packets(dropped: u64, sent: u64)
    ensures
        ({
            let notes = closing_notes(dropped, sent);
            &&& notes.last() == "sent "@ + text::decimal(sent as nat) + " packets"@
            &&& dropped == 0 ==> notes.len() == 1
            &&& dropped > 0 ==> notes.len() == 2 && notes[0] == text::decimal(dropped as nat)
                + " capture frames dropped"@
        }),
{
}

/// Each fault of a handshake is told in its own words: the receiver's reason, what
/// came in place of an acknowledgement, or the two formats.
pub proof fn a_handshake_that_fails_says_why(fault: HandshakeFault, shown: Seq<char>)
    ensures
        fault matches HandshakeFault::Rejected(reason) ==> fault.words(shown)
            == "receiver rejected the session: "@ + reason@,
        fault is NotAnAck ==> fault.words(shown) == "expected a hello ack, got "@ + shown,
        fault matches HandshakeFault::FormatChanged { wanted, offered } ==> fault.words(shown)
            == "receiver wants "@ + format_words(wanted) + " but we offered "@ + format_words(
            offered,
        ) + "; version 1 does not renegotiate"@,
{
}

/// A format is shown field by field.
pub proof fn a_format_is_shown_field_by_field(format: StreamFormat)
    ensures
        format_words(format) == "StreamFormat { sample_rate: "@ + text::decimal(
            format.sample_rate as nat,
        ) + (", channels: "@ + text::decimal(format.channels as nat)) + (
        ", sample_format: S16Le, frames_per_packet: "@ + text::decimal(
            format.frames_per_packet as nat,
        )) + " }"@,
{
    let a = "StreamFormat { sample_rate: "@ + text::decimal(format.sample_rate as nat);
    let b = text::decimal(format.channels as nat);
    let c = text::decimal(format.frames_per_packet as nat);
    assert(a + ", channels: "@ + b + ", sample_format: S16Le, frames_per_packet: "@ + c + " }"@
        =~= a + (", channels: "@ + b) + (", sample_format: S16Le, frames_per_packet: "@ + c)
        + " }"@);
}

/// A session captures from the device that was named, from the default one where
/// none was, and from none where it sends a tone.
pub proof fn a_named_device_is_the_one_that_is_opened(source: Source)
    ensures
        source matches Source::Device(Some(name)) ==> wanted_device(source) == Some(name@),
        source matches Source::Device(None) ==> wanted_device(source) is None,
        source is Tone ==> wanted_device(source) is None,
{
}

/// A sender without a host is told what is missing.
pub proof fn a_sender_without_a_host_is_told()
    ensures
        no_host() == "no host given — set the address of the machine running the receiver"@,
{
}

/// Only an acknowledgement of the format that was offered starts a session, and it
/// does; a refusal ends it with the receiver's reason, and so does anything else.
pub proof fn only_the_offered_format_starts_a_session(
    reply: ServerMessage,
    offered: StreamFormat,
    r: Result<HelloAck, HandshakeFault>,
)
    requires
        call_ensures(check_ack, (reply, offered), r),
    ensures
        r is Ok <==> (reply matches ServerMessage::HelloAck(ack) && ack.format == offered),
        r matches Ok(ack) ==> reply == ServerMessage::HelloAck(ack),
        reply matches ServerMessage::HelloAck(ack) ==> ack.format != offered ==> r == Err::<
            HelloAck,
            HandshakeFault,
        >(HandshakeFault::FormatChanged { wanted: ack.format, offered }),
        reply matches ServerMessage::Error { message } ==> r == Err::<HelloAck, HandshakeFault>(
            HandshakeFault::Rejected(message),
        ),
        reply is Heartbeat || reply is Stats ==> r == Err::<HelloAck, HandshakeFault>(
            HandshakeFault::NotAnAck(reply),
        ),
{
}

/// The statistics of a beat are those of what was sent: as many frames as the packets
/// hold.
pub proof fn a_beat_reports_what_was_sent(
    sent: u64,
    dropped: u64,
    packet_frames: u32,
    stats: SenderStats,
)
    requires
        sent * packet_frames <= u64::MAX,
        call_ensures(SenderControl::beat, (sent, dropped, packet_frames), stats),
    ensures
        stats.packets_sent == sent,
        stats.frames_dropped == dropped,
        stats.frames_captured == sent * packet_frames,
{
    assert(0 <= sent * packet_frames) by (nonlinear_arith);
}

} // verus!
