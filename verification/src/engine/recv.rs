//! The receiving end: accept a stream and render it locally.

use vstd::prelude::*;

use crate::audio::render::{OutputTarget, RenderConfig};
use crate::audio::virtual_device;
use crate::audio::virtual_device::MicRoute;
use crate::engine::address::Address;
use crate::engine::config::{ReceiverConfig, Sink};
use crate::engine::timing;
use crate::engine::timing::{HEARTBEAT, PEER_TIMEOUT};
use crate::protocol::api::{
    ClientMessage, Hello, HelloAck, SenderStats, ServerMessage, StreamFormat,
};
use crate::protocol::framing;
use crate::protocol::framing::FaultKind;
use crate::protocol::media;
use crate::protocol::media::{MediaHeader, CHANNEL_AUDIO, CHANNEL_HID, HEADER_LEN};
use crate::protocol::PROTOCOL_VERSION;
use crate::signal::channels;
use crate::signal::channels::{ChannelMap, Mapping};
use crate::signal::pcm;
use crate::signal::pipeline;
use crate::signal::pipeline::{MediaSink, PipelineConfig};
use crate::text;

verus! {

/// Datagram receive buffer: larger than any datagram this protocol produces.
pub const MAX_DATAGRAM: usize = 8192;

/// Bytes of a full datagram in a format, header included.
pub open spec fn datagram_bytes(format: StreamFormat) -> nat {
    format.packet_bytes() + HEADER_LEN as nat
}

/// What is wrong with a sender's format and version, in the order in which it
/// is looked for; `None` where nothing is.
pub open spec fn complaint(format: StreamFormat, version: u32) -> Option<Seq<char>> {
    if version != PROTOCOL_VERSION {
        Some(
            "sender speaks protocol "@ + text::decimal(version as nat)
                + ", this build speaks 1"@,
        )
    } else if format.channels == 0 {
        Some("sender advertised zero channels"@)
    } else if format.sample_rate == 0 {
        Some("sender advertised a zero sample rate"@)
    } else if format.frames_per_packet == 0 {
        Some("sender advertised zero frames per packet"@)
    } else if datagram_bytes(format) > MAX_DATAGRAM {
        Some(
            "sender's "@ + text::decimal(datagram_bytes(format))
                + "-byte datagrams exceed the 8192-byte receive buffer"@,
        )
    } else {
        None
    }
}

/// Checks that a sender's stream can be received.
pub fn validate(format: &StreamFormat, version: u32) -> (r: Result<(), String>)
    ensures
        match complaint(*format, version) {
            Some(words) => r matches Err(message) && message@ == words,
            None => r is Ok,
        },
{
    if version != PROTOCOL_VERSION {
        let mut message = "sender speaks protocol ".to_owned();
        text::push_decimal(&mut message, version as u64);
        message.append(", this build speaks 1");
        return Err(message);
    }
    if format.channels == 0 {
        return Err("sender advertised zero channels".to_owned());
    }
    if format.sample_rate == 0 {
        return Err("sender advertised a zero sample rate".to_owned());
    }
    if format.frames_per_packet == 0 {
        return Err("sender advertised zero frames per packet".to_owned());
    }
    proof {
        assert(format.frames_per_packet * (format.channels * 2) <= 0xffff_ffff * 0x1_fffe)
            by (nonlinear_arith)
            requires
                format.frames_per_packet <= 0xffff_ffff,
                format.channels <= 0xffff,
        ;
    }
    let frame: u64 = format.channels as u64 * 2;
    let len: u64 = format.frames_per_packet as u64 * frame + HEADER_LEN as u64;
    if len > MAX_DATAGRAM as u64 {
        let mut message = "sender's ".to_owned();
        text::push_decimal(&mut message, len);
        message.append("-byte datagrams exceed the 8192-byte receive buffer");
        return Err(message);
    }
    Ok(())
}

/// How a message other than a hello is shown where a hello was due.
pub open spec fn message_words(message: ClientMessage) -> Seq<char> {
    match message {
        ClientMessage::Hello(_) => "Hello"@,
        ClientMessage::Heartbeat => "Heartbeat"@,
        ClientMessage::Goodbye => "Goodbye"@,
        ClientMessage::Stats(stats) => "Stats(SenderStats { frames_captured: "@ + text::decimal(
            stats.frames_captured as nat,
        ) + ", packets_sent: "@ + text::decimal(stats.packets_sent as nat)
            + ", frames_dropped: "@ + text::decimal(stats.frames_dropped as nat) + " })"@,
    }
}

/// What is wrong with a sender's first message; `None` where it opens a session.
pub open spec fn objection(first: ClientMessage) -> Option<Seq<char>> {
    match first {
        ClientMessage::Hello(hello) => complaint(hello.format, hello.protocol_version),
        _ => Some("expected hello, got "@ + message_words(first)),
    }
}

/// Takes a sender's first message. It must be a hello whose stream can be
/// received; anything else is answered with the error, and the session ends.
pub fn greet(first: ClientMessage) -> (r: Result<Hello, ServerMessage>)
    ensures
        match objection(first) {
            None => first matches ClientMessage::Hello(hello) && r == Ok::<Hello, ServerMessage>(
                hello,
            ),
            Some(words) => r matches Err(ServerMessage::Error { message }) && message@ == words,
        },
{
    match first {
        ClientMessage::Hello(hello) => match validate(&hello.format, hello.protocol_version) {
            Ok(_) => Ok(hello),
            Err(message) => Err(ServerMessage::Error { message }),
        },
        ClientMessage::Heartbeat => {
            let mut message = "expected hello, got ".to_owned();
            message.append("Heartbeat");
            Err(ServerMessage::Error { message })
        },
        ClientMessage::Goodbye => {
            let mut message = "expected hello, got ".to_owned();
            message.append("Goodbye");
            Err(ServerMessage::Error { message })
        },
        ClientMessage::Stats(stats) => {
            let mut shown = "Stats(SenderStats { frames_captured: ".to_owned();
            text::push_decimal(&mut shown, stats.frames_captured);
            shown.append(", packets_sent: ");
            text::push_decimal(&mut shown, stats.packets_sent);
            shown.append(", frames_dropped: ");
            text::push_decimal(&mut shown, stats.frames_dropped);
            shown.append(" })");
            assert(shown@ =~= message_words(first));
            let mut message = "expected hello, got ".to_owned();
            message.append(shown.as_str());
            Err(ServerMessage::Error { message })
        },
    }
}

/// What a sender is told that connects while another is being served.
pub open spec fn busy() -> Seq<char> {
    "another sender is already being served"@
}

/// Takes a connection's first message, `serving` being whether a session runs.
/// One session is served at a time: a second sender is answered with an error,
/// whatever it says, and the first is not disturbed.
pub fn meet_sender(serving: bool, first: ClientMessage) -> (r: Result<Hello, ServerMessage>)
    ensures
        serving ==> (r matches Err(ServerMessage::Error { message }) && message@ == busy()),
        !serving ==> match objection(first) {
            None => first matches ClientMessage::Hello(hello) && r == Ok::<Hello, ServerMessage>(
                hello,
            ),
            Some(words) => r matches Err(ServerMessage::Error { message }) && message@ == words,
        },
{
    if serving {
        return Err(
            ServerMessage::Error { message: "another sender is already being served".to_owned() },
        );
    }
    greet(first)
}

/// The receiver's answer to a hello it accepts: the format is the sender's own.
pub fn acknowledge(hello: &Hello, media_port: u16, target_buffer_ms: u32) -> (ack: HelloAck)
    ensures
        ack == (HelloAck {
            protocol_version: PROTOCOL_VERSION,
            media_port,
            target_buffer_ms,
            format: hello.format,
        }),
{
    HelloAck {
        protocol_version: PROTOCOL_VERSION,
        media_port,
        target_buffer_ms,
        format: hello.format,
    }
}

/// A session that is accepted can be carried: the format passes the checks that
/// the pipeline and the datagram reader rely on.
pub proof fn an_accepted_format_can_be_carried(format: StreamFormat, version: u32)
    requires
        complaint(format, version) is None,
    ensures
        format.channels > 0,
        format.frames_per_packet > 0,
        format.sample_rate > 0,
        format.packet_bytes() + HEADER_LEN <= MAX_DATAGRAM,
{
}

/// The pipeline that a stream and an output ask for, where memory could hold it.
pub open spec fn planned(
    format: StreamFormat,
    output_rate: u32,
    output_channels: u16,
    target_buffer_ms: u32,
) -> Option<PipelineConfig> {
    let window = pipeline::reorder_window(format, target_buffer_ms as nat);
    let wanted = PipelineConfig {
        format,
        output_rate,
        output_channels,
        target_buffer_ms,
        reorder_window_packets: window as usize,
        ring_capacity_ms: 400,
    };
    if wanted.buildable() && window <= usize::MAX {
        Some(wanted)
    } else {
        None
    }
}

/// The pipeline of a session: sized for the stream's format and the output
/// device's rate and channels. `None` where no memory could hold its ring.
pub fn session_pipeline(
    format: StreamFormat,
    output_rate: u32,
    output_channels: u16,
    target_buffer_ms: u32,
) -> (config: Option<PipelineConfig>)
    requires
        format.channels > 0,
        format.frames_per_packet > 0,
    ensures
        config == planned(format, output_rate, output_channels, target_buffer_ms),
{
    let window: u64 = pipeline::affordable_window(format, target_buffer_ms);
    if window as u128 > usize::MAX as u128 {
        return None;
    }
    let mut config = PipelineConfig::new(format, output_rate, target_buffer_ms);
    config.output_channels = output_channels;
    if config.is_buildable() {
        Some(config)
    } else {
        None
    }
}

/// What is said of rates that differ.
pub open spec fn rate_words(capture_rate: u32, output_rate: u32) -> Seq<char> {
    "rate mismatch: capturing at "@ + text::decimal(capture_rate as nat) + " Hz, rendering at "@
        + text::decimal(output_rate as nat) + " Hz"@
}

/// The log line for an output device whose rate is not the stream's.
pub fn rate_note(capture_rate: u32, output_rate: u32) -> (note: Option<String>)
    ensures
        capture_rate == output_rate ==> note is None,
        capture_rate != output_rate ==> (note matches Some(line) && line@ == rate_words(
            capture_rate,
            output_rate,
        )),
{
    if capture_rate == output_rate {
        return None;
    }
    let mut line = "rate mismatch: capturing at ".to_owned();
    text::push_decimal(&mut line, capture_rate as u64);
    line.append(" Hz, rendering at ");
    text::push_decimal(&mut line, output_rate as u64);
    line.append(" Hz");
    Some(line)
}

/// What is said of channel counts that differ.
pub open spec fn mapping_words(
    stream_channels: u16,
    output_channels: u16,
    mapping: Mapping,
) -> Seq<char> {
    text::decimal(stream_channels as nat) + " channels in, "@ + text::decimal(
        output_channels as nat,
    ) + " out: "@ + mapping.words()
}

/// The log line for channel counts that differ.
pub fn mapping_note(stream_channels: u16, output_channels: u16, mapping: Mapping) -> (note: Option<
    String,
>)
    ensures
        mapping == Mapping::Passthrough ==> note is None,
        mapping != Mapping::Passthrough ==> (note matches Some(line) && line@ == mapping_words(
            stream_channels,
            output_channels,
            mapping,
        )),
{
    if mapping == Mapping::Passthrough {
        return None;
    }
    let mut line = String::new();
    text::push_decimal(&mut line, stream_channels as u64);
    line.append(" channels in, ");
    text::push_decimal(&mut line, output_channels as u64);
    line.append(" out: ");
    line.append(mapping.describe());
    assert(line@ =~= mapping_words(stream_channels, output_channels, mapping));
    Some(line)
}

/// What is said of the microphone that an output feeds.
pub open spec fn microphone_words(output_name: Seq<char>, game_mic: Option<Seq<char>>) -> Seq<
    char,
> {
    match game_mic {
        Some(mic) => "select "@ + text::quoted(mic) + " as the microphone in your game"@,
        None => text::quoted(output_name) + " feeds no microphone — a game cannot hear this"@,
    }
}

/// The log line that tells which microphone a game should select, or that there
/// is none: nothing in the audio stack would say so.
pub fn microphone_note(output_name: &str, game_mic: Option<&str>) -> (line: String)
    ensures
        line@ == microphone_words(
            output_name@,
            match game_mic {
                Some(mic) => Some(mic@),
                None => None,
            },
        ),
{
    let mut line = String::new();
    match game_mic {
        Some(mic) => {
            line.append("select ");
            text::push_quoted(&mut line, mic);
            line.append(" as the microphone in your game");
            assert(line@ =~= "select "@ + text::quoted(mic@)
                + " as the microphone in your game"@);
        },
        None => {
            text::push_quoted(&mut line, output_name);
            line.append(" feeds no microphone — a game cannot hear this");
            assert(line@ =~= text::quoted(output_name@)
                + " feeds no microphone — a game cannot hear this"@);
        },
    }
    line
}

/// What is said of datagrams that came from elsewhere.
pub open spec fn foreign_words(foreign: u64) -> Seq<char> {
    "ignored "@ + text::decimal(foreign as nat) + " datagrams from another address"@
}

/// The log line for datagrams that came from elsewhere, where any did.
pub fn foreign_note(foreign: u64) -> (note: Option<String>)
    ensures
        foreign == 0 ==> note is None,
        foreign > 0 ==> (note matches Some(line) && line@ == foreign_words(foreign)),
{
    if foreign == 0 {
        return None;
    }
    let mut line = "ignored ".to_owned();
    text::push_decimal(&mut line, foreign);
    line.append(" datagrams from another address");
    Some(line)
}

/// How a session opens, once its sink is there: what is logged, which microphone
/// is fed, how the pipeline is built, and the answer to the sender.
#[derive(Debug, PartialEq, Eq)]
pub struct Opening {
    /// Log lines, in order.
    pub notes: Vec<String>,
    /// The microphone that a game should select; empty where the sink feeds none.
    pub game_device: String,
    pub pipeline: PipelineConfig,
    pub ack: HelloAck,
}

/// The microphone that a session's output feeds, going by the routes that were
/// found; a file feeds none.
pub open spec fn fed_mic(sink: Sink, output: OutputTarget, routes: Seq<MicRoute>) -> Option<
    Seq<char>,
> {
    match sink {
        Sink::Device(_) => match virtual_device::route_into(
            output.name@,
            virtual_device::route_views(routes),
        ) {
            Some(route) => Some(route.game_mic),
            None => None,
        },
        Sink::Wav(_) => None,
    }
}

/// The log lines of a session that opens: rates that differ, the microphone to
/// select where audio goes to a device, and channel counts that differ.
pub open spec fn opening_notes(
    format: StreamFormat,
    sink: Sink,
    output: OutputTarget,
    game_mic: Option<Seq<char>>,
) -> Seq<Seq<char>> {
    let mapping = channels::mapping_between(
        format.channels as nat,
        (if output.channels == 0 {
            format.channels
        } else {
            output.channels
        }) as nat,
    );
    (if format.sample_rate == output.sample_rate {
        seq![]
    } else {
        seq![rate_words(format.sample_rate, output.sample_rate)]
    }) + (match sink {
        Sink::Device(_) => seq![microphone_words(output.name@, game_mic)],
        Sink::Wav(_) => seq![],
    }) + (if mapping == Mapping::Passthrough {
        seq![]
    } else {
        seq![mapping_words(format.channels, output.channels, mapping)]
    })
}

/// What a sender is told whose stream no memory could hold a buffer for.
pub open spec fn no_memory() -> Seq<char> {
    "no memory could hold a buffer for this stream"@
}

/// Why a session whose hello was accepted cannot be served: there is no output to
/// serve it with, or no memory for its pipeline; `None` where it can be.
pub open spec fn obstacle(
    format: StreamFormat,
    output: Result<OutputTarget, String>,
    target_buffer_ms: u32,
) -> Option<Seq<char>> {
    match output {
        Err(why) => Some(why@),
        Ok(target) => match planned(
            format,
            target.sample_rate,
            target.channels,
            target_buffer_ms,
        ) {
            None => Some(no_memory()),
            Some(_) => None,
        },
    }
}

/// Opens a session whose hello was accepted: `output` is what the local side gave,
/// or why it could not, and `routes` are the ways that lead to a microphone.
///
/// The output is asked for before the sender is answered. So whatever goes wrong
/// here is told to the sender in an error while it still waits, and only a session
/// that can be carried is acknowledged.
pub fn open_session(
    hello: &Hello,
    sink: &Sink,
    output: Result<OutputTarget, String>,
    routes: &[MicRoute],
    media_port: u16,
    target_buffer_ms: u32,
) -> (r: Result<Opening, ServerMessage>)
    requires
        complaint(hello.format, hello.protocol_version) is None,
    ensures
        match obstacle(hello.format, output, target_buffer_ms) {
            Some(words) => r matches Err(ServerMessage::Error { message }) && message@ == words,
            None => {
                let target = output->Ok_0;
                &&& r matches Ok(o)
                &&& planned(
                    hello.format,
                    target.sample_rate,
                    target.channels,
                    target_buffer_ms,
                ) == Some(o.pipeline)
                &&& o.ack == (HelloAck {
                    protocol_version: PROTOCOL_VERSION,
                    media_port,
                    target_buffer_ms,
                    format: hello.format,
                })
                &&& o.game_device@ == (match fed_mic(*sink, target, routes@) {
                    Some(mic) => mic,
                    None => Seq::empty(),
                })
                &&& text::texts(o.notes@) == opening_notes(
                    hello.format,
                    *sink,
                    target,
                    fed_mic(*sink, target, routes@),
                )
            },
        },
{
    let format = hello.format;
    let output = match output {
        Ok(target) => target,
        Err(message) => return Err(ServerMessage::Error { message }),
    };
    let pipeline = match session_pipeline(
        format,
        output.sample_rate,
        output.channels,
        target_buffer_ms,
    ) {
        Some(config) => config,
        None => return Err(
            ServerMessage::Error {
                message: "no memory could hold a buffer for this stream".to_owned(),
            },
        ),
    };
    let mut notes: Vec<String> = Vec::new();
    assert(text::texts(notes@) =~= seq![]);
    if let Some(note) = rate_note(format.sample_rate, output.sample_rate) {
        text::push_text(&mut notes, note);
    }
    let mut game_device: String = String::new();
    if let Sink::Device(_) = sink {
        let note = match virtual_device::route_for_render_device(output.name.as_str(), routes) {
            Some(route) => {
                let note = microphone_note(output.name.as_str(), Some(route.game_mic.as_str()));
                game_device = route.game_mic;
                note
            },
            None => microphone_note(output.name.as_str(), None),
        };
        text::push_text(&mut notes, note);
    }
    let map = ChannelMap::new(format.channels as usize, pipeline.resolved_output_channels());
    if let Some(note) = mapping_note(format.channels, output.channels, map.mapping()) {
        text::push_text(&mut notes, note);
    }
    assert(text::texts(notes@) =~= opening_notes(
        format,
        *sink,
        output,
        fed_mic(*sink, output, routes@),
    ));
    Ok(
        Opening {
            notes,
            game_device,
            pipeline,
            ack: acknowledge(hello, media_port, target_buffer_ms),
        },
    )
}

/// Why a connection is refused, going by all that is asked of it: that no other
/// session runs, that it opens with an acceptable hello, and that it can be served.
/// `None` where it is acknowledged.
pub open spec fn refusal(
    serving: bool,
    first: ClientMessage,
    output: Result<OutputTarget, String>,
    target_buffer_ms: u32,
) -> Option<Seq<char>> {
    if serving {
        Some(busy())
    } else {
        match objection(first) {
            Some(words) => Some(words),
            None => obstacle(first->Hello_0.format, output, target_buffer_ms),
        }
    }
}

/// A connection is acknowledged exactly where no session runs, its first message
/// is a hello that is accepted, the local output is there, and a pipeline of its
/// format can be built. Every other is refused with an error.
pub proof fn only_a_session_that_can_be_carried_is_acknowledged(
    serving: bool,
    first: ClientMessage,
    output: Result<OutputTarget, String>,
    target_buffer_ms: u32,
)
    ensures
        refusal(serving, first, output, target_buffer_ms) is None <==> {
            &&& !serving
            &&& first matches ClientMessage::Hello(hello)
            &&& complaint(hello.format, hello.protocol_version) is None
            &&& output matches Ok(target)
            &&& planned(
                hello.format,
                target.sample_rate,
                target.channels,
                target_buffer_ms,
            ) is Some
        },
{
}

/// How a file sink ended.
#[derive(Debug, PartialEq, Eq)]
pub enum FileOutcome {
    /// This many frames were written.
    Wrote(u64),
    Failed(String),
    /// Its thread is gone without a word.
    Lost,
}

/// The log lines of a session that closes: what became of the file, where there
/// was one, and media from elsewhere.
pub open spec fn closing_notes(file: Option<FileOutcome>, foreign: u64) -> Seq<Seq<char>> {
    (match file {
        Some(FileOutcome::Wrote(frames)) => seq![
            "wrote "@ + text::decimal(frames as nat) + " frames"@,
        ],
        Some(FileOutcome::Failed(err)) => seq!["wav sink failed: "@ + err@],
        _ => seq![],
    }) + (if foreign > 0 {
        seq![foreign_words(foreign)]
    } else {
        seq![]
    })
}

/// What is logged of a session that closes.
pub fn close_session(file: Option<FileOutcome>, foreign: u64) -> (notes: Vec<String>)
    ensures
        text::texts(notes@) == closing_notes(file, foreign),
{
    let mut notes: Vec<String> = Vec::new();
    assert(text::texts(notes@) =~= seq![]);
    match &file {
        Some(FileOutcome::Wrote(frames)) => {
            let mut line: String = "wrote ".to_owned();
            text::push_decimal(&mut line, *frames);
            line.append(" frames");
            text::push_text(&mut notes, line);
        },
        Some(FileOutcome::Failed(err)) => {
            let mut line: String = "wav sink failed: ".to_owned();
            line.append(err.as_str());
            text::push_text(&mut notes, line);
        },
        _ => {},
    }
    if let Some(note) = foreign_note(foreign) {
        text::push_text(&mut notes, note);
    }
    assert(text::texts(notes@) =~= closing_notes(file, foreign));
    notes
}

/// The label that a receiver announces: its own, or one made of its port.
pub fn announce_label(label: &str, port: u16) -> (out: String)
    ensures
        out@ == if label@.len() == 0 {
            "receiver on "@ + text::decimal(port as nat)
        } else {
            label@
        },
{
    if label.is_empty() {
        let mut out = "receiver on ".to_owned();
        text::push_decimal(&mut out, port as u64);
        out
    } else {
        label.to_owned()
    }
}

/// The output device that a configuration asks for.
pub open spec fn wanted_device(sink: Sink) -> Option<Seq<char>> {
    match sink {
        Sink::Device(Some(name)) => Some(name@),
        _ => None,
    }
}

/// How a session's output device is opened: at the device's own rate and
/// channel count, which the pipeline adapts to.
pub fn render_config(config: &ReceiverConfig) -> (r: RenderConfig)
    ensures
        match wanted_device(config.sink) {
            Some(name) => r.device matches Some(d) && d@ == name,
            None => r.device is None,
        },
        r.sample_rate is None,
        r.channels is None,
        r.buffer_frames == config.render_frames,
{
    let device = match &config.sink {
        Sink::Device(Some(name)) => Some(name.clone()),
        Sink::Device(None) => None,
        Sink::Wav(_) => None,
    };
    RenderConfig { device, sample_rate: None, channels: None, buffer_frames: config.render_frames }
}

/// What becomes of a media port that cannot be bound.
#[derive(Debug, Clone, Copy, PartialEq, Eq, Structural)]
pub enum BindNext {
    /// Use any free port: the sender learns it from the handshake.
    Ephemeral,
    Fail,
}

/// What to do when the preferred media port cannot be bound.
pub fn bind_media(kind: FaultKind) -> (next: BindNext)
    ensures
        next == if kind == FaultKind::AddrInUse {
            BindNext::Ephemeral
        } else {
            BindNext::Fail
        },
{
    if kind == FaultKind::AddrInUse {
        BindNext::Ephemeral
    } else {
        BindNext::Fail
    }
}

/// What the receiver does after looking for a connection.
#[derive(Debug, Clone, Copy, PartialEq, Eq, Structural)]
pub enum Waiting {
    /// A sender has connected.
    Serve,
    /// Nobody is there: look again after a while.
    Sleep,
    /// Stopped, or past the deadline, before a sender connected.
    GiveUp,
    /// That connection is gone: look again at once.
    Retry,
    /// The listener is broken.
    Fail,
}

/// Decides one look for a connection. A peer that resets before it is accepted
/// must not take the receiver down with it.
pub fn wait_for_sender(
    accepted: Result<(), FaultKind>,
    stop_requested: bool,
    deadline: Option<u64>,
    now: u64,
) -> (next: Waiting)
    ensures
        next == match accepted {
            Ok(_) => Waiting::Serve,
            Err(kind) => if kind == FaultKind::WouldBlock {
                if stop_requested || timing::past(deadline, now) {
                    Waiting::GiveUp
                } else {
                    Waiting::Sleep
                }
            } else if kind == FaultKind::ConnectionReset || kind == FaultKind::ConnectionAborted
                || kind == FaultKind::Interrupted {
                Waiting::Retry
            } else {
                Waiting::Fail
            },
        },
{
    match accepted {
        Ok(_) => Waiting::Serve,
        Err(kind) => {
            if kind == FaultKind::WouldBlock {
                if stop_requested || timing::is_past(deadline, now) {
                    Waiting::GiveUp
                } else {
                    Waiting::Sleep
                }
            } else if kind == FaultKind::ConnectionReset || kind == FaultKind::ConnectionAborted
                || kind == FaultKind::Interrupted {
                Waiting::Retry
            } else {
                Waiting::Fail
            }
        },
    }
}

/// The time that a session may take: what is left until the deadline.
pub fn remaining(deadline: Option<u64>, now: u64) -> (left: Option<u64>)
    ensures
        left == match deadline {
            None => None,
            Some(d) => Some(
                if d > now {
                    (d - now) as u64
                } else {
                    0
                },
            ),
        },
{
    match deadline {
        None => None,
        Some(d) => Some(
            if d > now {
                d - now
            } else {
                0
            },
        ),
    }
}

/// Whether to wait for another sender after a session, however it ended.
pub fn serves_on(once: bool, stop_requested: bool, deadline: Option<u64>, now: u64) -> (yes: bool)
    ensures
        yes == !(once || stop_requested || timing::past(deadline, now)),
{
    !(once || stop_requested || timing::is_past(deadline, now))
}

/// What became of a media datagram.
#[derive(Debug, Clone, Copy, PartialEq, Eq, Structural)]
pub enum Fate {
    /// Its samples went to the pipeline.
    Placed,
    /// It came from an address other than the sender's.
    Foreign,
    Malformed(media::Error),
    /// It carries HID reports, which are not handled.
    Hid,
    UnknownChannel(u8),
    /// Its payload is not a whole number of samples; holds the payload's length.
    OddPayload(usize),
    /// Its index, or a counter, would overflow.
    OutOfRange,
}

/// What becomes of a datagram, before its samples are looked at.
pub open spec fn sorted_out(from: Address, sender: Address, datagram: Seq<u8>) -> Fate {
    if from != sender {
        Fate::Foreign
    } else {
        match MediaHeader::decoded(datagram) {
            Err(error) => Fate::Malformed(error),
            Ok((header, payload)) => if header.channel == CHANNEL_HID {
                Fate::Hid
            } else if header.channel != CHANNEL_AUDIO {
                Fate::UnknownChannel(header.channel)
            } else if payload.len() % 2 != 0 {
                Fate::OddPayload(payload.len() as usize)
            } else {
                Fate::Placed
            },
        }
    }
}

/// Takes one datagram: hands its samples to the pipeline where it is audio from
/// the sender, and discards it otherwise. `samples` is a buffer reused between
/// calls.
pub fn take_datagram<F: Fn(i16) -> u32>(
    sink: &mut MediaSink,
    samples: &mut Vec<i16>,
    from: Address,
    sender: Address,
    datagram: &[u8],
    convert: F,
) -> (fate: Fate)
    requires
        old(sink).wf(),
        forall|x: i16| call_requires(convert, (x,)),
    ensures
        final(sink).wf(),
        final(sink).frame_words() == old(sink).frame_words(),
        final(sink).window() == old(sink).window(),
        sorted_out(from, sender, datagram@) != Fate::Placed ==> fate == sorted_out(
            from,
            sender,
            datagram@,
        ) && *final(sink) == *old(sink),
        sorted_out(from, sender, datagram@) == Fate::Placed ==> ({
            let (header, payload) = MediaHeader::decoded(datagram@)->Ok_0;
            let heard = pcm::samples_of(payload);
            if !old(sink).takes(header.sample_idx, heard) {
                fate == Fate::OutOfRange && *final(sink) == *old(sink)
            } else {
                &&& fate == Fate::Placed
                &&& pipeline::accepted(*old(sink), *final(sink), header.sample_idx, heard, convert)
            }
        }),
{
    if from != sender {
        return Fate::Foreign;
    }
    let (header, payload) = match MediaHeader::decode(datagram) {
        Ok(parsed) => parsed,
        Err(error) => return Fate::Malformed(error),
    };
    if header.channel == CHANNEL_HID {
        return Fate::Hid;
    }
    if header.channel != CHANNEL_AUDIO {
        return Fate::UnknownChannel(header.channel);
    }
    if pcm::payload_to_i16(payload, samples).is_none() {
        return Fate::OddPayload(payload.len());
    }
    if !sink.can_accept(header.sample_idx, samples.as_slice()) {
        return Fate::OutOfRange;
    }
    sink.accept(header.sample_idx, samples.as_slice(), convert);
    Fate::Placed
}

/// What a turn of the receiver's control loop does.
#[derive(Debug, Clone, Copy, PartialEq, Eq, Structural)]
pub enum Turn {
    /// End: a stop was requested, or a worker of the session has stopped.
    Stop,
    /// End: the duration is over.
    DurationReached,
    /// Fail: nothing was heard of the sender for this long, in nanoseconds.
    PeerQuiet(u64),
    /// Send a heartbeat and statistics, then listen.
    Beat,
    /// Listen.
    Listen,
}

/// What a message from the sender leads to.
#[derive(Debug, PartialEq, Eq)]
pub enum Heard {
    /// Go on.
    Nothing,
    /// Show the sender's numbers and go on.
    Report(SenderStats),
    /// The sender said goodbye: end.
    Goodbye,
    /// The sender closed the connection: end.
    Closed,
    /// The sender opened a second time.
    SecondHello,
    /// The control channel failed.
    Failed(framing::Error),
}

/// When the receiver's control loop ends, when it beats, and when it last heard
/// of the sender, in nanoseconds.
#[derive(Debug, Clone, Copy, PartialEq, Eq, Structural)]
pub struct ReceiverControl {
    pub deadline: Option<u64>,
    pub next_beat: u64,
    pub last_heard: u64,
}

impl ReceiverControl {
    /// A loop that starts now, for at most `remaining`.
    pub fn new(now: u64, remaining: Option<u64>) -> (control: Self)
        requires
            now + HEARTBEAT <= u64::MAX,
        ensures
            control.next_beat == now + HEARTBEAT,
            control.last_heard == now,
            match remaining {
                None => control.deadline is None,
                Some(left) => control.deadline == Some(
                    if now + left <= u64::MAX {
                        (now + left) as u64
                    } else {
                        u64::MAX
                    },
                ),
            },
    {
        let deadline = match remaining {
            None => None,
            Some(left) => Some(timing::later(now, left)),
        };
        Self { deadline, next_beat: now + HEARTBEAT, last_heard: now }
    }

    /// What one turn does.
    pub open spec fn turn_at(self, now: u64, stopped: bool) -> Turn {
        if stopped {
            Turn::Stop
        } else if timing::past(self.deadline, now) {
            Turn::DurationReached
        } else if now - self.last_heard > PEER_TIMEOUT {
            Turn::PeerQuiet((now - self.last_heard) as u64)
        } else if now >= self.next_beat {
            Turn::Beat
        } else {
            Turn::Listen
        }
    }

    /// Decides a turn. Beats fall on a fixed grid: a late one does not push the
    /// next back.
    pub fn turn(&mut self, now: u64, stopped: bool) -> (turn: Turn)
        requires
            old(self).next_beat + HEARTBEAT <= u64::MAX,
            old(self).last_heard <= now,
        ensures
            turn == old(self).turn_at(now, stopped),
            final(self).deadline == old(self).deadline,
            final(self).last_heard == old(self).last_heard,
            final(self).next_beat == if turn == Turn::Beat {
                (old(self).next_beat + HEARTBEAT) as u64
            } else {
                old(self).next_beat
            },
    {
        if stopped {
            return Turn::Stop;
        }
        if timing::is_past(self.deadline, now) {
            return Turn::DurationReached;
        }
        let quiet: u64 = now - self.last_heard;
        if quiet > PEER_TIMEOUT {
            return Turn::PeerQuiet(quiet);
        }
        if now >= self.next_beat {
            self.next_beat = self.next_beat + HEARTBEAT;
            return Turn::Beat;
        }
        Turn::Listen
    }

    /// What listening leads to: `None` is a read timeout. Heartbeats and
    /// statistics are signs of life.
    pub fn hear(&mut self, now: u64, message: Result<Option<ClientMessage>, framing::Error>) -> (
        heard: Heard)
        ensures
            final(self).deadline == old(self).deadline,
            final(self).next_beat == old(self).next_beat,
            final(self).last_heard == if is_sign_of_life(message) {
                now
            } else {
                old(self).last_heard
            },
            match message {
                Ok(None) => heard == Heard::Nothing,
                Ok(Some(ClientMessage::Heartbeat)) => heard == Heard::Nothing,
                Ok(Some(ClientMessage::Stats(stats))) => heard == Heard::Report(stats),
                Ok(Some(ClientMessage::Goodbye)) => heard == Heard::Goodbye,
                Ok(Some(ClientMessage::Hello(_))) => heard == Heard::SecondHello,
                Err(error) => if error.ends() {
                    heard == Heard::Closed
                } else {
                    heard == Heard::Failed(error)
                },
            },
    {
        match message {
            Ok(None) => Heard::Nothing,
            Ok(Some(ClientMessage::Heartbeat)) => {
                self.last_heard = now;
                Heard::Nothing
            },
            Ok(Some(ClientMessage::Stats(stats))) => {
                self.last_heard = now;
                Heard::Report(stats)
            },
            Ok(Some(ClientMessage::Goodbye)) => Heard::Goodbye,
            Ok(Some(ClientMessage::Hello(_))) => Heard::SecondHello,
            Err(error) => {
                if error.is_end() {
                    Heard::Closed
                } else {
                    Heard::Failed(error)
                }
            },
        }
    }
}

/// The message shows that the sender is still there.
pub open spec fn is_sign_of_life(message: Result<Option<ClientMessage>, framing::Error>) -> bool {
    match message {
        Ok(Some(ClientMessage::Heartbeat)) => true,
        Ok(Some(ClientMessage::Stats(_))) => true,
        _ => false,
    }
}

/// A sender that shows a sign of life at least once in every peer timeout is
/// never declared gone, and one that does not is, unless the session ends first.
pub proof fn only_a_quiet_sender_is_dropped(control: ReceiverControl, now: u64, stopped: bool)
    requires
        control.last_heard <= now,
    ensures
        now - control.last_heard <= PEER_TIMEOUT ==> !(control.turn_at(now, stopped) is PeerQuiet),
        now - control.last_heard > PEER_TIMEOUT && !stopped && !timing::past(control.deadline, now)
            ==> control.turn_at(now, stopped) == Turn::PeerQuiet((now - control.last_heard) as u64),
{
}

/// A format that can be carried is accepted, and no other: this version, at least
/// one channel, a sample rate, a packet size, and a datagram that fits the receive
/// buffer.
pub proof fn what_can_be_carried_is_accepted(format: StreamFormat, version: u32)
    ensures
        complaint(format, version) is None <==> {
            &&& version == 1
            &&& format.channels >= 1
            &&& format.sample_rate >= 1
            &&& format.frames_per_packet >= 1
            &&& format.frames_per_packet * format.channels * 2 + 16 <= 8192
        },
        datagram_bytes(format) == format.frames_per_packet * format.channels * 2 + 16,
{
    assert(format.frames_per_packet * (format.channels * 2) == format.frames_per_packet
        * format.channels * 2) by (nonlinear_arith);
}

/// A sender that is refused is told the first thing that is wrong: its version
/// before its format, and of the format the channels, the rate, the packet size
/// and the size of a datagram, in this order.
pub proof fn a_refused_sender_is_told_what_is_wrong(format: StreamFormat, version: u32)
    ensures
        version != 1 ==> complaint(format, version) == Some(
            "sender speaks protocol "@ + text::decimal(version as nat)
                + ", this build speaks 1"@,
        ),
        version == 1 ==> {
            &&& complaint(format, version) == Some("sender advertised zero channels"@)
                <== format.channels == 0
            &&& complaint(format, version) == Some("sender advertised a zero sample rate"@)
                <== format.channels > 0 && format.sample_rate == 0
            &&& complaint(format, version) == Some("sender advertised zero frames per packet"@)
                <== format.channels > 0 && format.sample_rate > 0 && format.frames_per_packet == 0
            &&& complaint(format, version) == Some(
                "sender's "@ + text::decimal(
                    (format.frames_per_packet * format.channels * 2 + 16) as nat,
                ) + "-byte datagrams exceed the 8192-byte receive buffer"@,
            ) <== format.channels > 0 && format.sample_rate > 0 && format.frames_per_packet
                * format.channels * 2 + 16 > 8192
        },
{
    what_can_be_carried_is_accepted(format, version);
    assert(format.frames_per_packet == 0 ==> format.frames_per_packet * format.channels * 2 == 0)
        by (nonlinear_arith);
}

/// Only a hello opens a session; what else comes first is named in the refusal.
pub proof fn a_session_opens_with_a_hello(first: ClientMessage)
    ensures
        objection(first) is None <==> {
            &&& first matches ClientMessage::Hello(hello)
            &&& complaint(hello.format, hello.protocol_version) is None
        },
        first matches ClientMessage::Hello(hello) ==> objection(first) == complaint(
            hello.format,
            hello.protocol_version,
        ),
        first is Heartbeat ==> objection(first) == Some("expected hello, got "@ + "Heartbeat"@),
        first is Goodbye ==> objection(first) == Some("expected hello, got "@ + "Goodbye"@),
        first matches ClientMessage::Stats(stats) ==> objection(first) == Some(
            "expected hello, got "@ + ("Stats(SenderStats { frames_captured: "@ + text::decimal(
                stats.frames_captured as nat,
            ) + ", packets_sent: "@ + text::decimal(stats.packets_sent as nat)
                + ", frames_dropped: "@ + text::decimal(stats.frames_dropped as nat) + " })"@),
        ),
{
}

/// A session's pipeline is that of its stream, its output and its buffer target,
/// with a ring of 400 milliseconds; and there is one wherever memory can hold it.
pub proof fn a_session_gets_the_pipeline_it_asks_for(
    format: StreamFormat,
    output_rate: u32,
    output_channels: u16,
    target_buffer_ms: u32,
)
    ensures
        planned(format, output_rate, output_channels, target_buffer_ms) matches Some(config) ==> {
            &&& config.format == format
            &&& config.output_rate == output_rate
            &&& config.output_channels == output_channels
            &&& config.target_buffer_ms == target_buffer_ms
            &&& config.ring_capacity_ms == 400
            &&& config.reorder_window_packets == pipeline::reorder_window(
                format,
                target_buffer_ms as nat,
            )
        },
        format.channels > 0 && format.frames_per_packet > 0 && 400 * format.sample_rate
            <= usize::MAX && target_buffer_ms * format.sample_rate <= usize::MAX && (
        target_buffer_ms * output_rate + 400 * format.sample_rate + 1 + 4
            * format.frames_per_packet) * format.channels * 4 <= isize::MAX ==> planned(
            format,
            output_rate,
            output_channels,
            target_buffer_ms,
        ) is Some,
{
    if format.channels > 0 && format.frames_per_packet > 0 && 400 * format.sample_rate
        <= usize::MAX && target_buffer_ms * format.sample_rate <= usize::MAX && (target_buffer_ms
        * output_rate + 400 * format.sample_rate + 1 + 4 * format.frames_per_packet)
        * format.channels * 4 <= isize::MAX {
        let window = pipeline::reorder_window(format, target_buffer_ms as nat);
        pipeline::the_reorder_window_is_the_largest_that_fits(format, target_buffer_ms as nat);
        let wanted = PipelineConfig {
            format,
            output_rate,
            output_channels,
            target_buffer_ms,
            reorder_window_packets: window as usize,
            ring_capacity_ms: 400,
        };
        assert(0 <= target_buffer_ms * output_rate && 0 <= target_buffer_ms * format.sample_rate)
            by (nonlinear_arith);
        assert(window <= usize::MAX) by {
            if window > 1 {
                assert(window <= 2 * (window + 1) * format.frames_per_packet * 1000)
                    by (nonlinear_arith)
                    requires
                        format.frames_per_packet > 0,
                ;
            }
        }
        pipeline::what_fits_in_memory_is_built(wanted);
    }
}

/// What becomes of a datagram, byte by byte.
///
/// One from another address is foreign, whatever it holds. Of those from the
/// sender, each is audio, and placed, where it starts with the magic, this version
/// and the audio channel, and a whole number of 16-bit samples follows: it has an
/// odd payload only where the payload's length is odd, and no length is too great.
pub proof fn each_datagram_meets_its_fate(from: Address, sender: Address, datagram: Seq<u8>)
    ensures
        sorted_out(from, sender, datagram) == Fate::Foreign <==> from != sender,
        from == sender ==> {
            let known = datagram.len() >= 16 && datagram[0] == 0x52 && datagram[1] == 0x50
                && datagram[2] == 1;
            let fate = sorted_out(from, sender, datagram);
            &&& fate is Malformed <==> !known
            &&& fate == Fate::Placed <==> known && datagram[3] == 0 && datagram.len() % 2 == 0
            &&& fate is OddPayload <==> known && datagram[3] == 0 && datagram.len() % 2 == 1
            &&& fate matches Fate::OddPayload(n) ==> n == (datagram.len() - 16) as usize
            &&& fate == Fate::Hid <==> known && datagram[3] == 1
            &&& fate is UnknownChannel <==> known && datagram[3] > 1
            &&& fate matches Fate::UnknownChannel(channel) ==> channel == datagram[3]
            &&& fate != Fate::OutOfRange
        },
{
    if datagram.len() >= 16 {
        let head = datagram.take(2);
        crate::bytes::value_of_two(head);
        assert(head[0] == datagram[0] && head[1] == datagram[1]);
    }
}

/// What the sender sends is placed: every audio datagram of whole samples, of
/// whatever length, with any number and any index, read back as the samples and the
/// index that were sent.
pub proof fn what_the_sender_sends_is_placed(
    sender: Address,
    seq: u32,
    sample_idx: u64,
    samples: Seq<i16>,
)
    ensures
        ({
            let datagram = crate::engine::send::datagram_of(seq, sample_idx, samples);
            &&& sorted_out(sender, sender, datagram) == Fate::Placed
            &&& MediaHeader::decoded(datagram) matches Ok((header, payload))
            &&& header.sample_idx == sample_idx
            &&& pcm::samples_of(payload) == samples
        }),
{
    crate::engine::send::datagrams_round_trip(seq, sample_idx, samples);
    pcm::payload_round_trips(samples);
}

/// A session that goes on keeps beating, with or without a deadline: each turn that
/// is not told to stop, has not come to its deadline and has heard of the sender
/// in the last four seconds beats exactly when the time of the next beat has come,
/// and listens otherwise.
pub proof fn a_session_that_goes_on_keeps_beating(
    control: ReceiverControl,
    now: u64,
    stopped: bool,
)
    requires
        control.last_heard <= now,
    ensures
        ({
            let turn = control.turn_at(now, stopped);
            let over = control.deadline matches Some(d) && d <= now;
            let quiet = now - control.last_heard > 4_000_000_000;
            &&& turn == Turn::Stop <==> stopped
            &&& turn == Turn::DurationReached <==> !stopped && over
            &&& turn is PeerQuiet <==> !stopped && !over && quiet
            &&& turn matches Turn::PeerQuiet(time) ==> time == now - control.last_heard
            &&& turn == Turn::Beat <==> !stopped && !over && !quiet && now >= control.next_beat
            &&& turn == Turn::Listen <==> !stopped && !over && !quiet && now < control.next_beat
        }),
{
}

/// Heartbeats and statistics are signs of life; silence, a goodbye, a second hello
/// and a fault are not.
pub proof fn signs_of_life_are_heartbeats_and_statistics(
    message: Result<Option<ClientMessage>, framing::Error>,
)
    ensures
        is_sign_of_life(message) <==> {
            &&& message matches Ok(Some(said))
            &&& said is Heartbeat || said is Stats
        },
{
}

/// The microphone that a session feeds is that of the first route into its output
/// device, and a session that writes a file feeds none.
pub proof fn a_session_feeds_the_first_route_into_its_output(
    sink: Sink,
    output: OutputTarget,
    routes: Seq<MicRoute>,
)
    ensures
        sink is Wav ==> fed_mic(sink, output, routes) is None,
        sink is Device ==> match fed_mic(sink, output, routes) {
            Some(mic) => exists|i: int|
                {
                    &&& 0 <= i < routes.len()
                    &&& #[trigger] text::same_ascii(routes[i].render_into@, output.name@)
                    &&& routes[i].game_mic@ == mic
                    &&& forall|j: int|
                        0 <= j < i ==> !#[trigger] text::same_ascii(
                            routes[j].render_into@,
                            output.name@,
                        )
                },
            None => forall|j: int|
                0 <= j < routes.len() ==> !#[trigger] text::same_ascii(
                    routes[j].render_into@,
                    output.name@,
                ),
        },
{
    let views = virtual_device::route_views(routes);
    virtual_device::the_first_route_into_a_device_is_found(output.name@, views);
    if sink is Device {
        match virtual_device::route_into(output.name@, views) {
            Some(route) => {
                let i = choose|i: int|
                    {
                        &&& 0 <= i < views.len()
                        &&& views[i] == route
                        &&& #[trigger] text::same_ascii(views[i].render_into, output.name@)
                        &&& forall|j: int|
                            0 <= j < i ==> !#[trigger] text::same_ascii(
                                views[j].render_into,
                                output.name@,
                            )
                    };
                assert(text::same_ascii(routes[i].render_into@, output.name@));
                assert forall|j: int| 0 <= j < i implies !#[trigger] text::same_ascii(
                    routes[j].render_into@,
                    output.name@,
                ) by {
                    assert(views[j] == routes[j]@);
                    assert(!text::same_ascii(views[j].render_into, output.name@));
                }
            },
            None => {
                assert forall|j: int| 0 <= j < routes.len() implies !#[trigger] text::same_ascii(
                    routes[j].render_into@,
                    output.name@,
                ) by {
                    assert(views[j] == routes[j]@);
                    assert(!text::same_ascii(views[j].render_into, output.name@));
                }
            },
        }
    }
}

/// What an opening session logs: a rate that differs, first; then, where audio goes
/// to a device, the microphone to select; and last, channel counts that differ.
/// Nothing else, and none of these twice.
pub proof fn an_opening_session_says_what_differs(
    format: StreamFormat,
    sink: Sink,
    output: OutputTarget,
    game_mic: Option<Seq<char>>,
)
    requires
        format.channels > 0,
    ensures
        ({
            let notes = opening_notes(format, sink, output, game_mic);
            let rates = if format.sample_rate != output.sample_rate {
                1int
            } else {
                0
            };
            let device = if sink is Device {
                1int
            } else {
                0
            };
            let maps = output.channels != 0 && output.channels != format.channels;
            &&& notes.len() == rates + device + if maps {
                1int
            } else {
                0
            }
            &&& format.sample_rate != output.sample_rate ==> notes[0] == "rate mismatch: capturing at "@
                + text::decimal(format.sample_rate as nat) + " Hz, rendering at "@ + text::decimal(
                output.sample_rate as nat,
            ) + " Hz"@
            &&& sink is Device ==> notes[rates] == match game_mic {
                Some(mic) => "select "@ + text::quoted(mic) + " as the microphone in your game"@,
                None => text::quoted(output.name@)
                    + " feeds no microphone — a game cannot hear this"@,
            }
            &&& maps ==> notes.last() == text::decimal(format.channels as nat)
                + " channels in, "@ + text::decimal(output.channels as nat) + " out: "@
                + channels::mapping_between(
                format.channels as nat,
                output.channels as nat,
            ).words()
        }),
{
    channels::the_mapping_follows_the_counts(
        format.channels as nat,
        (if output.channels == 0 {
            format.channels
        } else {
            output.channels
        }) as nat,
    );
}

/// What a closing session logs: the frames of its file, or why it failed, and how
/// many datagrams came from elsewhere, where any did.
pub proof fn a_closing_session_accounts_for_its_file(file: Option<FileOutcome>, foreign: u64)
    ensures
        ({
            let notes = closing_notes(file, foreign);
            let told = file matches Some(FileOutcome::Wrote(_)) || file matches Some(
                FileOutcome::Failed(_),
            );
            &&& notes.len() == (if told {
                1int
            } else {
                0
            }) + if foreign > 0 {
                1int
            } else {
                0
            }
            &&& file matches Some(FileOutcome::Wrote(frames)) ==> notes[0] == "wrote "@
                + text::decimal(frames as nat) + " frames"@
            &&& file matches Some(FileOutcome::Failed(why)) ==> notes[0] == "wav sink failed: "@
                + why@
            &&& foreign > 0 ==> notes.last() == "ignored "@ + text::decimal(foreign as nat)
                + " datagrams from another address"@
        }),
{
}

/// A sender whose session cannot be served is told why: in the words of whatever
/// failed on this side, or that no memory could hold its buffer. A second sender
/// is told that another is being served, whatever it says.
pub proof fn a_sender_that_cannot_be_served_is_told_why(
    serving: bool,
    first: ClientMessage,
    output: Result<OutputTarget, String>,
    target_buffer_ms: u32,
)
    ensures
        ({
            let told = refusal(serving, first, output, target_buffer_ms);
            &&& serving ==> told == Some("another sender is already being served"@)
            &&& !serving && objection(first) is Some ==> told == objection(first)
            &&& !serving && objection(first) is None ==> match output {
                Err(why) => told == Some(why@),
                Ok(target) => if planned(
                    first->Hello_0.format,
                    target.sample_rate,
                    target.channels,
                    target_buffer_ms,
                ) is Some {
                    told is None
                } else {
                    told == Some("no memory could hold a buffer for this stream"@)
                },
            }
        }),
{
}

/// A session renders into the device that was named, and into the default one
/// where none was.
pub proof fn a_named_device_is_the_one_that_is_opened(sink: Sink)
    ensures
        sink matches Sink::Device(Some(name)) ==> wanted_device(sink) == Some(name@),
        sink matches Sink::Device(None) ==> wanted_device(sink) is None,
{
}

/// A receiver serves on until it is told to stop, was to serve once, or has come to
/// its deadline; how the last session ended has no part in it.
pub proof fn a_receiver_serves_on_until_told_otherwise(
    once: bool,
    stop_requested: bool,
    deadline: Option<u64>,
    now: u64,
    yes: bool,
)
    requires
        call_ensures(serves_on, (once, stop_requested, deadline, now), yes),
    ensures
        yes <==> !once && !stop_requested && (deadline matches Some(d) ==> now < d),
{
}

/// A connection is served whenever one is there. A peer that is gone is passed over;
/// while nobody is there the receiver waits, until it is told to stop or its deadline
/// comes; and only a broken listener ends it.
pub proof fn a_connection_that_is_there_is_served(
    accepted: Result<(), FaultKind>,
    stop_requested: bool,
    deadline: Option<u64>,
    now: u64,
    next: Waiting,
)
    requires
        call_ensures(wait_for_sender, (accepted, stop_requested, deadline, now), next),
    ensures
        next == Waiting::Serve <==> accepted is Ok,
        accepted matches Err(kind) ==> {
            let over = stop_requested || (deadline matches Some(d) && d <= now);
            let gone = kind == FaultKind::ConnectionReset || kind == FaultKind::ConnectionAborted
                || kind == FaultKind::Interrupted;
            &&& next == Waiting::Sleep <==> kind == FaultKind::WouldBlock && !over
            &&& next == Waiting::GiveUp <==> kind == FaultKind::WouldBlock && over
            &&& next == Waiting::Retry <==> gone
            &&& next == Waiting::Fail <==> kind != FaultKind::WouldBlock && !gone
        },
{
}

/// A session may take until the deadline, and has no limit where there is none.
pub proof fn a_session_may_take_until_the_deadline(
    deadline: Option<u64>,
    now: u64,
    left: Option<u64>,
)
    requires
        call_ensures(remaining, (deadline, now), left),
    ensures
        left is None <==> deadline is None,
        deadline matches Some(d) ==> (left matches Some(n) && (n == 0 || now + n == d) && (n == 0
            <==> d <= now)),
{
}

/// A media port that is taken is given up for a free one; any other fault ends the
/// session.
pub proof fn a_port_that_is_taken_is_given_up(kind: FaultKind, next: BindNext)
    requires
        call_ensures(bind_media, (kind,), next),
    ensures
        next == BindNext::Ephemeral <==> kind == FaultKind::AddrInUse,
        next == BindNext::Fail <==> kind != FaultKind::AddrInUse,
{
}

} // verus!
