//! What the command line asks for, and what is printed in answer.

use vstd::prelude::*;

use crate::audio::virtual_device::{self, MicRoute, Pairing, RouteView};
use crate::engine::autostart;
use crate::engine::config::{ReceiverConfig, SenderConfig, Sink, Source};
use crate::engine::state::{Status, StatusView};
use crate::gui::app::Receiver;
use crate::protocol::api::StreamFormat;
use crate::text;

verus! {

/// Appends a line.
fn say(lines: &mut Vec<String>, line: &str)
    ensures
        text::texts(final(lines)@) == text::texts(old(lines)@).push(line@),
{
    text::push_text(lines, line.to_owned());
}

/// Appends a line made of two pieces.
fn say_of(lines: &mut Vec<String>, start: &str, rest: &str)
    ensures
        text::texts(final(lines)@) == text::texts(old(lines)@).push(start@ + rest@),
{
    let mut line: String = start.to_owned();
    line.append(rest);
    say(lines, line.as_str());
}

/// Appends a line that ends in a quoted text.
fn say_quoted(lines: &mut Vec<String>, start: &str, quoted: &str, end: &str)
    ensures
        text::texts(final(lines)@) == text::texts(old(lines)@).push(
            start@ + text::quoted(quoted@) + end@,
        ),
{
    let mut line: String = start.to_owned();
    text::push_quoted(&mut line, quoted);
    line.append(end);
    say(lines, line.as_str());
}

/// What `send` was asked to do.
#[derive(Debug, Clone, PartialEq, Eq)]
pub struct SendArgs {
    pub host: Option<String>,
    pub port: u16,
    pub device: Option<String>,
    /// The bit pattern of a tone's frequency in hertz, double precision.
    pub tone_bits: Option<u64>,
    pub rate: Option<u32>,
    pub channels: Option<u16>,
    pub packet_frames: u32,
    pub capture_frames: Option<u32>,
    pub duration_secs: Option<u64>,
    /// The bit pattern of the gain in decibels, single precision.
    pub gain_db_bits: u32,
}

/// Where a sender connects to, and what is said about the choice.
#[derive(Debug, Clone, PartialEq, Eq)]
pub struct Target {
    pub host: String,
    pub port: u16,
    pub notice: String,
}

/// What is said where several receivers or one answered.
pub open spec fn found_notice(found: Seq<Receiver>) -> Seq<char> {
    if found.len() > 1 {
        "Found "@ + text::decimal(found.len()) + " receivers; using "@ + found[0].address@
            + ". Pass --host to choose."@
    } else {
        "Found "@ + found[0].address@ + " ("@ + found[0].label@ + ")"@
    }
}

/// What is said where no receiver answered.
pub open spec fn none_found() -> Seq<char> {
    "no receiver found on the local network. Start one, then pass its address with --host — discovery does not cross Tailscale or a routed subnet"@
}

/// The receiver to use of those that answered: the first.
pub fn pick_receiver(found: &[Receiver]) -> (r: Result<Target, String>)
    ensures
        found@.len() == 0 ==> (r matches Err(message) && message@ == none_found()),
        found@.len() > 0 ==> {
            &&& r matches Ok(target)
            &&& target.host@ == found@[0].address@
            &&& target.port == found@[0].control_port
            &&& target.notice@ == found_notice(found@)
        },
{
    if found.len() == 0 {
        return Err(
            "no receiver found on the local network. Start one, then pass its address with --host — discovery does not cross Tailscale or a routed subnet".to_owned(),
        );
    }
    let first = &found[0];
    let mut notice: String = "Found ".to_owned();
    if found.len() > 1 {
        text::push_decimal(&mut notice, found.len() as u64);
        notice.append(" receivers; using ");
        notice.append(first.address.as_str());
        notice.append(". Pass --host to choose.");
    } else {
        notice.append(first.address.as_str());
        notice.append(" (");
        notice.append(first.label.as_str());
        notice.append(")");
    }
    Ok(Target { host: first.address.clone(), port: first.control_port, notice })
}

/// The session that `send` asks for, to a host that was given or found.
pub fn send(args: SendArgs, host: String, port: u16) -> (config: SenderConfig)
    ensures
        config == (SenderConfig {
            host,
            port,
            source: match args.tone_bits {
                Some(bits) => Source::Tone(bits),
                None => Source::Device(args.device),
            },
            sample_rate: args.rate,
            channels: args.channels,
            packet_frames: args.packet_frames,
            capture_frames: args.capture_frames,
            duration_secs: args.duration_secs,
            gain_db_bits: args.gain_db_bits,
        }),
{
    SenderConfig {
        host,
        port,
        source: match args.tone_bits {
            Some(bits) => Source::Tone(bits),
            None => Source::Device(args.device),
        },
        sample_rate: args.rate,
        channels: args.channels,
        packet_frames: args.packet_frames,
        capture_frames: args.capture_frames,
        duration_secs: args.duration_secs,
        gain_db_bits: args.gain_db_bits,
    }
}

/// Where received audio goes.
#[derive(Debug, Clone, Copy, PartialEq, Eq, Structural)]
pub enum SinkKind {
    /// An output device: normally the playback half of a virtual cable.
    Device,
    /// A WAV file.
    Wav,
}

/// What `recv` was asked to do.
#[derive(Debug, Clone, PartialEq, Eq)]
pub struct RecvArgs {
    pub bind: String,
    pub port: u16,
    pub media_port: u16,
    pub sink: SinkKind,
    pub wav_path: String,
    pub device: Option<String>,
    /// The microphone a game should hear.
    pub game_mic: Option<String>,
    pub target_buffer_ms: u32,
    /// The bit pattern of the gain in decibels, single precision.
    pub gain_db_bits: u32,
    pub render_frames: Option<u32>,
    pub wav_chunk_frames: u32,
    pub once: bool,
    pub duration_secs: Option<u64>,
    pub no_announce: bool,
    pub discovery_port: u16,
    pub label: Option<String>,
}

/// The first route whose microphone holds `wanted` in its name, the case of
/// letters aside.
pub open spec fn matching_route(wanted: Seq<char>, routes: Seq<RouteView>) -> Option<RouteView>
    decreases routes.len(),
{
    if routes.len() == 0 {
        None
    } else if text::inside_any_case(wanted, routes[0].game_mic) {
        Some(routes[0])
    } else {
        matching_route(wanted, routes.skip(1))
    }
}

/// What is said where no microphone matches: which ones there are.
pub open spec fn no_microphone(wanted: Seq<char>, routes: Seq<RouteView>) -> Seq<char> {
    "no feedable microphone matching "@ + text::quoted(wanted) + ". Available: "@ + (
    if routes.len() == 0 {
        "none — install a virtual audio cable"@
    } else {
        text::joined(routes.map_values(|r: RouteView| r.game_mic), ", "@)
    })
}

/// The route to the microphone that a game should hear. Failing here beats
/// rendering somewhere the game cannot hear.
pub fn resolve_game_mic<'a>(wanted: &str, routes: &'a [MicRoute]) -> (r: Result<
    &'a MicRoute,
    String,
>)
    ensures
        match matching_route(wanted@, virtual_device::route_views(routes@)) {
            Some(view) => r matches Ok(route) && route@ == view,
            None => r matches Err(message) && message@ == no_microphone(
                wanted@,
                virtual_device::route_views(routes@),
            ),
        },
{
    let ghost views = virtual_device::route_views(routes@);
    let mut mics: Vec<String> = Vec::new();
    let mut i: usize = 0;
    assert(views.skip(0) =~= views);
    while i < routes.len()
        invariant
            i <= routes@.len(),
            views == virtual_device::route_views(routes@),
            matching_route(wanted@, views) == matching_route(wanted@, views.skip(i as int)),
            text::texts(mics@) =~= views.take(i as int).map_values(|r: RouteView| r.game_mic),
        decreases routes@.len() - i,
    {
        assert(views.skip(i as int)[0] == routes@[i as int]@);
        assert(views.skip(i as int).skip(1) =~= views.skip(i + 1));
        if text::is_inside_any_case(wanted, routes[i].game_mic.as_str()) {
            return Ok(&routes[i]);
        }
        say(&mut mics, routes[i].game_mic.as_str());
        i = i + 1;
    }
    assert(views.take(i as int) =~= views);
    let mut message: String = "no feedable microphone matching ".to_owned();
    text::push_quoted(&mut message, wanted);
    message.append(". Available: ");
    if routes.len() == 0 {
        message.append("none — install a virtual audio cable");
    } else {
        text::push_joined(&mut message, mics.as_slice(), ", ");
    }
    assert(message@ =~= no_microphone(wanted@, views));
    Err(message)
}

/// The session that `recv` asks for, `device` being the playback device that was
/// named or found.
pub fn recv(args: RecvArgs, device: Option<String>) -> (config: ReceiverConfig)
    ensures
        config.label@ == (match args.label {
            Some(label) => label@,
            None => Seq::empty(),
        }),
        config == (ReceiverConfig {
            bind: args.bind,
            port: args.port,
            media_port: args.media_port,
            sink: match args.sink {
                SinkKind::Device => Sink::Device(device),
                SinkKind::Wav => Sink::Wav(args.wav_path),
            },
            target_buffer_ms: args.target_buffer_ms,
            gain_db_bits: args.gain_db_bits,
            render_frames: args.render_frames,
            wav_chunk_frames: args.wav_chunk_frames,
            once: args.once,
            duration_secs: args.duration_secs,
            announce: !args.no_announce,
            discovery_port: args.discovery_port,
            label: config.label,
        }),
{
    ReceiverConfig {
        bind: args.bind,
        port: args.port,
        media_port: args.media_port,
        sink: match args.sink {
            SinkKind::Device => Sink::Device(device),
            SinkKind::Wav => Sink::Wav(args.wav_path),
        },
        target_buffer_ms: args.target_buffer_ms,
        gain_db_bits: args.gain_db_bits,
        render_frames: args.render_frames,
        wav_chunk_frames: args.wav_chunk_frames,
        once: args.once,
        duration_secs: args.duration_secs,
        announce: !args.no_announce,
        discovery_port: args.discovery_port,
        label: match args.label {
            Some(label) => label,
            None => String::new(),
        },
    }
}

/// What a finished session means for the process: failure only where the session
/// failed, with its message.
pub fn await_session(status: &Status) -> (r: Result<(), String>)
    ensures
        match status@ {
            StatusView::Failed(message) => r matches Err(m) && m@ == message,
            _ => r is Ok,
        },
{
    match status {
        Status::Failed(message) => Err(message.clone()),
        _ => Ok(()),
    }
}

/// The arguments for `recv` that `autostart enable` registers.
pub open spec fn recv_argv(
    game_mic: Option<String>,
    device: Option<String>,
    target_buffer_ms: Option<u32>,
    port: Option<u16>,
) -> Seq<Seq<char>> {
    seq!["recv"@] + (match (game_mic, device) {
        (Some(mic), _) => seq!["--game-mic"@, mic@],
        (None, Some(name)) => seq!["--device"@, name@],
        (None, None) => seq![],
    }) + (match target_buffer_ms {
        Some(ms) => seq!["--target-buffer-ms"@, text::decimal(ms as nat)],
        None => seq![],
    }) + (match port {
        Some(n) => seq!["--port"@, text::decimal(n as nat)],
        None => seq![],
    })
}

/// The arguments for `recv` to register: whatever is passed here is what runs at
/// logon.
pub fn autostart_argv(
    game_mic: Option<String>,
    device: Option<String>,
    target_buffer_ms: Option<u32>,
    port: Option<u16>,
) -> (argv: Vec<String>)
    ensures
        text::texts(argv@) == recv_argv(game_mic, device, target_buffer_ms, port),
{
    let mut argv: Vec<String> = Vec::new();
    assert(text::texts(argv@) =~= seq![]);
    say(&mut argv, "recv");
    if let Some(mic) = &game_mic {
        say(&mut argv, "--game-mic");
        say(&mut argv, mic.as_str());
    } else if let Some(name) = &device {
        say(&mut argv, "--device");
        say(&mut argv, name.as_str());
    }
    if let Some(ms) = target_buffer_ms {
        let mut digits: String = String::new();
        text::push_decimal(&mut digits, ms as u64);
        assert(digits@ =~= text::decimal(ms as nat));
        say(&mut argv, "--target-buffer-ms");
        say(&mut argv, digits.as_str());
    }
    if let Some(n) = port {
        let mut digits: String = String::new();
        text::push_decimal(&mut digits, n as u64);
        assert(digits@ =~= text::decimal(n as nat));
        say(&mut argv, "--port");
        say(&mut argv, digits.as_str());
    }
    assert(text::texts(argv@) =~= recv_argv(game_mic, device, target_buffer_ms, port));
    argv
}

/// What `autostart status` prints.
pub open spec fn status_lines(status: autostart::Status) -> Seq<Seq<char>> {
    if !status.enabled {
        seq!["Not registered. `micbridge autostart enable` to add it."@]
    } else {
        seq![
            "Registered as "@ + text::quoted(autostart::ENTRY_NAME@) + ":"@,
            "  "@ + (match status.command {
                Some(command) => command@,
                None => Seq::empty(),
            }),
        ] + (if status.stale {
            seq![
                ""@,
                "Warning: that does not point at this executable. If the binary was"@,
                "moved or rebuilt elsewhere, the entry will fail silently at logon."@,
                "Run `micbridge autostart enable` again to repoint it."@,
            ]
        } else {
            seq![]
        })
    }
}

/// What is printed of the logon entry.
pub fn autostart_status(status: &autostart::Status) -> (lines: Vec<String>)
    ensures
        text::texts(lines@) == status_lines(*status),
{
    let mut lines: Vec<String> = Vec::new();
    assert(text::texts(lines@) =~= seq![]);
    if !status.enabled {
        say(&mut lines, "Not registered. `micbridge autostart enable` to add it.");
        assert(text::texts(lines@) =~= status_lines(*status));
        return lines;
    }
    say_quoted(&mut lines, "Registered as ", autostart::ENTRY_NAME, ":");
    match &status.command {
        Some(command) => say_of(&mut lines, "  ", command.as_str()),
        None => {
            say(&mut lines, "  ");
            assert("  "@ + Seq::<char>::empty() =~= "  "@);
        },
    }
    if status.stale {
        say(&mut lines, "");
        say(&mut lines, "Warning: that does not point at this executable. If the binary was");
        say(&mut lines, "moved or rebuilt elsewhere, the entry will fail silently at logon.");
        say(&mut lines, "Run `micbridge autostart enable` again to repoint it.");
    }
    assert(text::texts(lines@) =~= status_lines(*status));
    lines
}

/// What `autostart enable` prints of the command line it registered.
pub open spec fn enabled_lines(command: Seq<char>) -> Seq<Seq<char>> {
    seq![
        "Registered. At your next logon Windows will run:"@,
        "  "@ + command,
        ""@,
        "This is the console build, so a terminal window will appear and stay"@,
        "open while it runs. For a windowed version instead, tick"@,
        "\"Start at login\" in micbridge-gui."@,
        ""@,
        "Remove it with `micbridge autostart disable`, or from Task Manager's"@,
        "Startup tab, where it appears as "@ + text::quoted(autostart::ENTRY_NAME@) + "."@,
    ]
}

/// What is printed once a command line was registered.
pub fn autostart_enabled(command: &str) -> (lines: Vec<String>)
    ensures
        text::texts(lines@) == enabled_lines(command@),
{
    let mut lines: Vec<String> = Vec::new();
    assert(text::texts(lines@) =~= seq![]);
    say(&mut lines, "Registered. At your next logon Windows will run:");
    say_of(&mut lines, "  ", command);
    say(&mut lines, "");
    say(&mut lines, "This is the console build, so a terminal window will appear and stay");
    say(&mut lines, "open while it runs. For a windowed version instead, tick");
    say(&mut lines, "\"Start at login\" in micbridge-gui.");
    say(&mut lines, "");
    say(&mut lines, "Remove it with `micbridge autostart disable`, or from Task Manager's");
    say_quoted(&mut lines, "Startup tab, where it appears as ", autostart::ENTRY_NAME, ".");
    assert(text::texts(lines@) =~= enabled_lines(command@));
    lines
}

/// What `discover` prints of each receiver: where it is, and how to try it.
pub open spec fn receiver_lines(found: Seq<Receiver>) -> Seq<Seq<char>>
    decreases found.len(),
{
    if found.len() == 0 {
        seq![]
    } else {
        let receiver = found.last();
        receiver_lines(found.drop_last()) + seq![
            "  "@ + receiver.address@ + "  ("@ + receiver.label@ + ")"@,
            "    micbridge send --host "@ + receiver.address@ + " --port "@ + text::decimal(
                receiver.control_port as nat,
            ) + " --tone 1000"@,
        ]
    }
}

/// What `discover` prints once the search is over.
pub open spec fn found_lines(found: Seq<Receiver>) -> Seq<Seq<char>> {
    if found.len() == 0 {
        seq![
            "None found."@,
            ""@,
            "Broadcast only reaches the local network segment. It does not cross"@,
            "Tailscale, a VPN, or a routed subnet, and some Wi-Fi access points"@,
            "filter it. Start the receiver and read the address it prints, then"@,
            "pass it with --host."@,
        ]
    } else {
        seq![""@] + receiver_lines(found) + seq![
            ""@,
            "Start with --tone: if the receiver's meter moves, everything except the"@,
            "microphone works. Then swap it for --device."@,
        ]
    }
}

/// What is printed of the receivers that a search found.
pub fn discover(found: &[Receiver]) -> (lines: Vec<String>)
    ensures
        text::texts(lines@) == found_lines(found@),
{
    let mut lines: Vec<String> = Vec::new();
    assert(text::texts(lines@) =~= seq![]);
    if found.len() == 0 {
        say(&mut lines, "None found.");
        say(&mut lines, "");
        say(&mut lines, "Broadcast only reaches the local network segment. It does not cross");
        say(&mut lines, "Tailscale, a VPN, or a routed subnet, and some Wi-Fi access points");
        say(&mut lines, "filter it. Start the receiver and read the address it prints, then");
        say(&mut lines, "pass it with --host.");
        assert(text::texts(lines@) =~= found_lines(found@));
        return lines;
    }
    say(&mut lines, "");
    let mut i: usize = 0;
    assert(found@.take(0) =~= Seq::<Receiver>::empty());
    while i < found.len()
        invariant
            i <= found@.len(),
            text::texts(lines@) =~= seq![""@] + receiver_lines(found@.take(i as int)),
        decreases found@.len() - i,
    {
        let receiver = &found[i];
        let ghost next = found@.take(i + 1);
        assert(next.drop_last() =~= found@.take(i as int));
        let mut line: String = "  ".to_owned();
        line.append(receiver.address.as_str());
        line.append("  (");
        line.append(receiver.label.as_str());
        line.append(")");
        say(&mut lines, line.as_str());
        let mut example: String = "    micbridge send --host ".to_owned();
        example.append(receiver.address.as_str());
        example.append(" --port ");
        text::push_decimal(&mut example, receiver.control_port as u64);
        example.append(" --tone 1000");
        say(&mut lines, example.as_str());
        assert(text::texts(lines@) =~= seq![""@] + receiver_lines(next));
        i = i + 1;
    }
    assert(found@.take(i as int) =~= found@);
    say(&mut lines, "");
    say(&mut lines, "Start with --tone: if the receiver's meter moves, everything except the");
    say(&mut lines, "microphone works. Then swap it for --device.");
    assert(text::texts(lines@) =~= found_lines(found@));
    lines
}

/// Each text behind two spaces.
pub open spec fn indented(names: Seq<Seq<char>>) -> Seq<Seq<char>> {
    names.map_values(|name: Seq<char>| "  "@ + name)
}

/// What `devices` prints of one direction. A failure to list is reported in
/// place of the list: it is the answer the user came for.
pub open spec fn device_lines(label: Seq<char>, names: Result<Vec<String>, String>) -> Seq<
    Seq<char>,
> {
    seq![label + ":"@] + (match names {
        Ok(list) => if list@.len() == 0 {
            seq!["  (none)"@]
        } else {
            indented(text::texts(list@))
        },
        Err(err) => seq!["  (enumeration failed: "@ + err@ + ")"@],
    }) + seq![""@]
}

/// What is printed of the devices in one direction.
pub fn devices(label: &str, names: &Result<Vec<String>, String>) -> (lines: Vec<String>)
    ensures
        text::texts(lines@) == device_lines(label@, *names),
{
    let mut lines: Vec<String> = Vec::new();
    assert(text::texts(lines@) =~= seq![]);
    say_of(&mut lines, label, ":");
    let ghost head = text::texts(lines@);
    match names {
        Ok(list) => {
            if list.len() == 0 {
                say(&mut lines, "  (none)");
            } else {
                let ghost all = indented(text::texts(list@));
                let mut i: usize = 0;
                while i < list.len()
                    invariant
                        i <= list@.len(),
                        all == indented(text::texts(list@)),
                        text::texts(lines@) =~= head + all.take(i as int),
                    decreases list@.len() - i,
                {
                    say_of(&mut lines, "  ", list[i].as_str());
                    assert(all[i as int] == "  "@ + list@[i as int]@);
                    i = i + 1;
                }
                assert(all.take(i as int) =~= all);
            }
        },
        Err(err) => {
            let mut line: String = "  (enumeration failed: ".to_owned();
            line.append(err.as_str());
            line.append(")");
            say(&mut lines, line.as_str());
        },
    }
    say(&mut lines, "");
    assert(text::texts(lines@) =~= device_lines(label@, *names));
    lines
}

/// What `devices` prints of each route: the microphone, the command that feeds
/// it, and what there is to know about the pairing.
pub open spec fn route_lines(routes: Seq<RouteView>) -> Seq<Seq<char>>
    decreases routes.len(),
{
    if routes.len() == 0 {
        seq![]
    } else {
        let route = routes.last();
        route_lines(routes.drop_last()) + seq![
            "  "@ + route.game_mic,
            "    micbridge recv --device "@ + text::quoted(route.render_into),
        ] + (if route.how == Pairing::NamedPair {
            seq![]
        } else {
            seq!["    note: "@ + route.how.words()]
        })
    }
}

/// What `devices` prints of the microphones that an application can feed.
pub open spec fn feedable_lines(routes: Seq<RouteView>) -> Seq<Seq<char>> {
    if routes.len() == 0 {
        seq![
            "No microphone on this machine can be fed by an application."@,
            "Install a virtual audio cable to make one, or use"@,
            "`micbridge recv --sink wav` to test without any."@,
        ]
    } else {
        seq!["Microphones an application can feed:"@] + route_lines(routes) + seq![
            ""@,
            "Run `recv` with the --device shown, then select the microphone above"@,
            "in your game. They are two halves of one route, not the same device."@,
        ]
    }
}

/// What is printed of the microphones that an application can feed.
pub fn feedable(routes: &[MicRoute]) -> (lines: Vec<String>)
    ensures
        text::texts(lines@) == feedable_lines(virtual_device::route_views(routes@)),
{
    let ghost views = virtual_device::route_views(routes@);
    let mut lines: Vec<String> = Vec::new();
    assert(text::texts(lines@) =~= seq![]);
    if routes.len() == 0 {
        say(&mut lines, "No microphone on this machine can be fed by an application.");
        say(&mut lines, "Install a virtual audio cable to make one, or use");
        say(&mut lines, "`micbridge recv --sink wav` to test without any.");
        assert(text::texts(lines@) =~= feedable_lines(views));
        return lines;
    }
    say(&mut lines, "Microphones an application can feed:");
    let ghost head = seq!["Microphones an application can feed:"@];
    let mut i: usize = 0;
    assert(views.take(0) =~= Seq::<RouteView>::empty());
    while i < routes.len()
        invariant
            i <= routes@.len(),
            views == virtual_device::route_views(routes@),
            text::texts(lines@) =~= head + route_lines(views.take(i as int)),
        decreases routes@.len() - i,
    {
        let route = &routes[i];
        let ghost next = views.take(i + 1);
        assert(next.drop_last() =~= views.take(i as int));
        assert(next.last() == route@);
        say_of(&mut lines, "  ", route.game_mic.as_str());
        say_quoted(&mut lines, "    micbridge recv --device ", route.render_into.as_str(), "");
        proof {
            reveal_strlit("");
            assert("    micbridge recv --device "@ + text::quoted(route.render_into@) + ""@
                =~= "    micbridge recv --device "@ + text::quoted(route.render_into@));
        }
        if !route.how.is_reliable() {
            say_of(&mut lines, "    note: ", route.how.describe());
        }
        assert(text::texts(lines@) =~= head + route_lines(next));
        i = i + 1;
    }
    assert(views.take(i as int) =~= views);
    say(&mut lines, "");
    say(&mut lines, "Run `recv` with the --device shown, then select the microphone above");
    say(&mut lines, "in your game. They are two halves of one route, not the same device.");
    assert(text::texts(lines@) =~= feedable_lines(views));
    lines
}

/// What `send --probe` prints, `packet_ms` being a packet's length in
/// milliseconds.
pub fn probe_line(device: &str, format: &StreamFormat, packet_ms: &str) -> (line: String)
    requires
        format.packet_bytes() <= usize::MAX,
    ensures
        line@ == "would capture "@ + text::quoted(device@) + " at "@ + text::decimal(
            format.sample_rate as nat,
        ) + " Hz, "@ + text::decimal(format.channels as nat) + " channels, "@ + text::decimal(
            format.frames_per_packet as nat,
        ) + " frames per packet ("@ + packet_ms@ + " ms, "@ + text::decimal(format.packet_bytes())
            + " payload bytes)"@,
{
    let mut line: String = "would capture ".to_owned();
    text::push_quoted(&mut line, device);
    line.append(" at ");
    text::push_decimal(&mut line, format.sample_rate as u64);
    line.append(" Hz, ");
    text::push_decimal(&mut line, format.channels as u64);
    line.append(" channels, ");
    text::push_decimal(&mut line, format.frames_per_packet as u64);
    line.append(" frames per packet (");
    line.append(packet_ms);
    line.append(" ms, ");
    text::push_decimal(&mut line, format.payload_bytes_per_packet() as u64);
    line.append(" payload bytes)");
    line
}

/// The microphone that is asked for is the first whose name holds the words, in any
/// case; it is found wherever it stands in the list.
pub proof fn the_first_matching_microphone_is_found(wanted: Seq<char>, routes: Seq<RouteView>)
    ensures
        match matching_route(wanted, routes) {
            Some(route) => exists|i: int|
                {
                    &&& 0 <= i < routes.len()
                    &&& routes[i] == route
                    &&& #[trigger] text::inside_any_case(wanted, routes[i].game_mic)
                    &&& forall|j: int|
                        0 <= j < i ==> !#[trigger] text::inside_any_case(
                            wanted,
                            routes[j].game_mic,
                        )
                },
            None => forall|j: int|
                0 <= j < routes.len() ==> !#[trigger] text::inside_any_case(
                    wanted,
                    routes[j].game_mic,
                ),
        },
    decreases routes.len(),
{
    if routes.len() > 0 && !text::inside_any_case(wanted, routes[0].game_mic) {
        let rest = routes.skip(1);
        the_first_matching_microphone_is_found(wanted, rest);
        match matching_route(wanted, rest) {
            Some(route) => {
                let i = choose|i: int|
                    {
                        &&& 0 <= i < rest.len()
                        &&& rest[i] == route
                        &&& #[trigger] text::inside_any_case(wanted, rest[i].game_mic)
                        &&& forall|j: int|
                            0 <= j < i ==> !#[trigger] text::inside_any_case(
                                wanted,
                                rest[j].game_mic,
                            )
                    };
                assert(routes[i + 1] == route);
                assert(text::inside_any_case(wanted, routes[i + 1].game_mic));
                assert forall|j: int| 0 <= j < i + 1 implies !#[trigger] text::inside_any_case(
                    wanted,
                    routes[j].game_mic,
                ) by {
                    if j > 0 {
                        assert(rest[j - 1] == routes[j]);
                        assert(!text::inside_any_case(wanted, rest[j - 1].game_mic));
                    }
                }
            },
            None => {
                assert forall|j: int|
                    0 <= j < routes.len() implies !#[trigger] text::inside_any_case(
                    wanted,
                    routes[j].game_mic,
                ) by {
                    if j > 0 {
                        assert(rest[j - 1] == routes[j]);
                        assert(!text::inside_any_case(wanted, rest[j - 1].game_mic));
                    }
                }
            },
        }
    }
}

/// Where no microphone matches, those that there are are named, all of them and in
/// their order.
pub proof fn the_microphones_there_are_are_named(wanted: Seq<char>, routes: Seq<RouteView>)
    ensures
        ({
            let start = "no feedable microphone matching "@ + text::quoted(wanted)
                + ". Available: "@;
            let names = Seq::new(routes.len(), |i: int| routes[i].game_mic);
            &&& routes.len() == 0 ==> no_microphone(wanted, routes) == start
                + "none — install a virtual audio cable"@
            &&& routes.len() > 0 ==> no_microphone(wanted, routes) == start + text::joined(
                names,
                ", "@,
            )
        }),
{
    let names = Seq::new(routes.len(), |i: int| routes[i].game_mic);
    assert(routes.map_values(|r: RouteView| r.game_mic) =~= names);
}

/// Of the receivers that answered the first is named, and how many there were where
/// there were more.
pub proof fn the_receiver_that_is_used_is_named(found: Seq<Receiver>)
    requires
        found.len() > 0,
    ensures
        found.len() == 1 ==> found_notice(found) == "Found "@ + found[0].address@ + " ("@
            + found[0].label@ + ")"@,
        found.len() > 1 ==> found_notice(found) == "Found "@ + text::decimal(found.len())
            + " receivers; using "@ + found[0].address@ + ". Pass --host to choose."@,
{
}

/// What is registered to run at logon is the receiver with what was asked for, and
/// nothing else: the microphone, or else the device, then the buffer and the port,
/// each behind its flag and only where it was given.
pub proof fn what_was_asked_for_is_registered(
    game_mic: Option<String>,
    device: Option<String>,
    target_buffer_ms: Option<u32>,
    port: Option<u16>,
)
    ensures
        ({
            let argv = recv_argv(game_mic, device, target_buffer_ms, port);
            let named: int = if game_mic is Some || device is Some {
                2
            } else {
                0
            };
            let buffered: int = if target_buffer_ms is Some {
                2
            } else {
                0
            };
            &&& argv[0] == "recv"@
            &&& argv.len() == 1 + named + buffered + if port is Some {
                2int
            } else {
                0
            }
            &&& game_mic matches Some(mic) ==> argv[1] == "--game-mic"@ && argv[2] == mic@
            &&& game_mic is None ==> (device matches Some(name) ==> argv[1] == "--device"@
                && argv[2] == name@)
            &&& target_buffer_ms matches Some(ms) ==> argv[1 + named] == "--target-buffer-ms"@
                && argv[2 + named] == text::decimal(ms as nat)
            &&& port matches Some(n) ==> argv[1 + named + buffered] == "--port"@ && argv[2 + named
                + buffered] == text::decimal(n as nat)
        }),
{
}

/// What is printed of the logon entry: that there is none, or the command line that
/// is registered, and a warning where it points elsewhere.
pub proof fn a_logon_entry_is_shown_as_registered(status: autostart::Status)
    ensures
        ({
            let lines = status_lines(status);
            &&& !status.enabled ==> lines == seq![
                "Not registered. `micbridge autostart enable` to add it."@,
            ]
            &&& status.enabled ==> lines.len() >= 2 && lines[0] == "Registered as "@
                + text::quoted("micbridge"@) + ":"@
            &&& status.enabled ==> (status.command matches Some(command) ==> lines[1] == "  "@
                + command@)
            &&& status.enabled && !status.stale ==> lines.len() == 2
            &&& status.enabled && status.stale ==> {
                &&& lines.len() == 6
                &&& lines[2] == ""@
                &&& lines[3]
                    == "Warning: that does not point at this executable. If the binary was"@
                &&& lines[4]
                    == "moved or rebuilt elsewhere, the entry will fail silently at logon."@
                &&& lines[5] == "Run `micbridge autostart enable` again to repoint it."@
            }
        }),
{
}

/// The command line that was registered is shown, and how to undo it.
pub proof fn a_registered_command_is_shown(command: Seq<char>)
    ensures
        ({
            let lines = enabled_lines(command);
            &&& lines.len() == 9
            &&& lines[0] == "Registered. At your next logon Windows will run:"@
            &&& lines[1] == "  "@ + command
            &&& lines[2] == ""@ && lines[6] == ""@
            &&& lines[3] == "This is the console build, so a terminal window will appear and stay"@
            &&& lines[4] == "open while it runs. For a windowed version instead, tick"@
            &&& lines[5] == "\"Start at login\" in micbridge-gui."@
            &&& lines[7] == "Remove it with `micbridge autostart disable`, or from Task Manager's"@
            &&& lines[8] == "Startup tab, where it appears as "@ + text::quoted("micbridge"@) + "."@
        }),
{
}

/// Each receiver that was found is shown in its turn, with where it is and how to try
/// it, in two lines of its own.
pub proof fn each_receiver_is_shown(found: Seq<Receiver>, i: int)
    requires
        0 <= i < found.len(),
    ensures
        receiver_lines(found).len() == 2 * found.len(),
        receiver_lines(found)[2 * i] == "  "@ + found[i].address@ + "  ("@ + found[i].label@ + ")"@,
        receiver_lines(found)[2 * i + 1] == "    micbridge send --host "@ + found[i].address@
            + " --port "@ + text::decimal(found[i].control_port as nat) + " --tone 1000"@,
        found_lines(found).len() == 2 * found.len() + 4,
        found_lines(found)[2 * i + 1] == receiver_lines(found)[2 * i],
        found_lines(found)[2 * i + 2] == receiver_lines(found)[2 * i + 1],
    decreases found.len(),
{
    let rest = found.drop_last();
    if i < rest.len() {
        each_receiver_is_shown(rest, i);
        assert(rest[i] == found[i]);
    } else if rest.len() > 0 {
        each_receiver_is_shown(rest, 0);
    }
}

/// A search that found nothing says so, and what to do about it.
pub proof fn a_search_without_result_says_so()
    ensures
        found_lines(seq![]).len() == 6,
        found_lines(seq![])[0] == "None found."@,
        found_lines(seq![])[5] == "pass it with --host."@,
        none_found()
            == "no receiver found on the local network. Start one, then pass its address with --host — discovery does not cross Tailscale or a routed subnet"@,
{
}

/// Every device is shown, in its place and behind two spaces; that there is none, or
/// that they could not be listed, is said in their place.
pub proof fn every_device_is_shown(label: Seq<char>, names: Result<Vec<String>, String>)
    ensures
        device_lines(label, names)[0] == label + ":"@,
        device_lines(label, names).last() == ""@,
        names matches Ok(list) ==> list@.len() > 0 ==> {
            &&& device_lines(label, names).len() == list@.len() + 2
            &&& forall|i: int|
                0 <= i < list@.len() ==> device_lines(label, names)[i + 1] == "  "@ + (
                #[trigger] list@[i])@
        },
        names matches Ok(list) ==> list@.len() == 0 ==> device_lines(label, names).len() == 3
            && device_lines(label, names)[1] == "  (none)"@,
        names matches Err(err) ==> device_lines(label, names).len() == 3 && device_lines(
            label,
            names,
        )[1] == "  (enumeration failed: "@ + err@ + ")"@,
{
    if let Ok(list) = names {
        if list@.len() > 0 {
            let all = indented(text::texts(list@));
            assert(all.len() == list@.len());
            assert forall|i: int| 0 <= i < list@.len() implies device_lines(label, names)[i + 1]
                == "  "@ + (#[trigger] list@[i])@ by {
                assert(all[i] == "  "@ + list@[i]@);
            }
        }
    }
}

/// How many lines a route takes: two, and one more for a pairing that may be wrong.
pub open spec fn lines_of(route: RouteView) -> nat {
    if route.how == Pairing::NamedPair {
        2
    } else {
        3
    }
}

/// Routes are shown each for itself and in their order: the microphone, the command
/// that feeds it, and a note where the pairing may be wrong.
pub proof fn each_route_is_shown(a: Seq<RouteView>, b: Seq<RouteView>)
    ensures
        route_lines(a + b) == route_lines(a) + route_lines(b),
        a.len() == 1 ==> {
            &&& route_lines(a).len() == lines_of(a[0])
            &&& route_lines(a)[0] == "  "@ + a[0].game_mic
            &&& route_lines(a)[1] == "    micbridge recv --device "@ + text::quoted(a[0].render_into)
            &&& a[0].how == Pairing::SameName ==> route_lines(a)[2] == "    note: "@
                + a[0].how.words()
        },
    decreases b.len(),
{
    if a.len() == 1 {
        assert(a.drop_last() =~= Seq::<RouteView>::empty());
        assert(route_lines(a.drop_last()) =~= Seq::<Seq<char>>::empty());
    }
    if b.len() == 0 {
        assert(a + b =~= a);
        assert(route_lines(a) + route_lines(b) =~= route_lines(a));
    } else {
        each_route_is_shown(a, b.drop_last());
        assert((a + b).drop_last() =~= a + b.drop_last());
        assert(route_lines(a + b) =~= route_lines(a) + route_lines(b));
    }
}

/// The routes are shown between a heading and what to do with them; where there are
/// none, that is said.
pub proof fn the_routes_there_are_are_shown(routes: Seq<RouteView>)
    ensures
        routes.len() == 0 ==> feedable_lines(routes).len() == 3 && feedable_lines(routes)[0]
            == "No microphone on this machine can be fed by an application."@,
        routes.len() > 0 ==> {
            let lines = feedable_lines(routes);
            let shown = route_lines(routes);
            &&& lines.len() == shown.len() + 4
            &&& lines[0] == "Microphones an application can feed:"@
            &&& lines.subrange(1, 1 + shown.len() as int) == shown
            &&& lines[1 + shown.len() as int] == ""@
        },
{
    if routes.len() > 0 {
        let lines = feedable_lines(routes);
        let shown = route_lines(routes);
        assert(lines.subrange(1, 1 + shown.len() as int) =~= shown);
    }
}

} // verus!
