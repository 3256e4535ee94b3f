//! Sessions: handshakes, control loops, discovery, state.

use micbridge::audio::render::OutputTarget;
use micbridge::audio::virtual_device::{MicRoute, Pairing};
use micbridge::engine::address::Address;
use micbridge::engine::autostart::{
    self, command_line_for, disable, enable, quote_arg, supported, Platform,
};
use micbridge::engine::config::{
    ReceiverConfig, SenderConfig, Sink, Source, DEFAULT_PACKET_FRAMES,
};
use micbridge::engine::discovery::{
    add_found, is_probe, local_addresses, probe_targets, reply, take_reply, Found, Interface,
    ProbeRun, ProbeStep, PROBE_REPEATS, PROBE_TIMEOUT,
};
use micbridge::engine::recv::{
    self, acknowledge, announce_label, bind_media, foreign_note, greet, mapping_note,
    meet_sender, microphone_note, open_session, rate_note, remaining, render_config, serves_on,
    session_pipeline, take_datagram, validate, wait_for_sender, BindNext, Fate, FileOutcome,
    ReceiverControl, Waiting,
};
use micbridge::engine::send::{
    self, capture_config, capture_ring, check_ack, check_host, hello, HandshakeFault, Packetiser,
    SendTally, SenderControl,
};
use micbridge::engine::state::{SessionState, Stats, Status, LOG_CAPACITY};
use micbridge::engine::timing::{
    after_secs, is_timeout, later, new_session_id, HEARTBEAT, PEER_TIMEOUT,
};
use micbridge::protocol::api::{
    ClientMessage, Hello, HelloAck, ReceiverStats, SenderStats, ServerMessage, StreamFormat,
    WireSampleFormat,
};
use micbridge::protocol::discovery::Message;
use micbridge::protocol::framing::{self, FaultKind};
use micbridge::protocol::media::{self, MediaHeader, CHANNEL_HID};
use micbridge::signal::channels::Mapping;
use micbridge::signal::gain::Gain;
use micbridge::signal::pipeline;
use micbridge::signal::ring::frame_channel;

#[test]
fn a_simple_argument_is_left_alone() {
    assert_eq!(quote_arg("recv"), "recv");
    assert_eq!(quote_arg("--game-mic"), "--game-mic");
    assert_eq!(quote_arg("42100"), "42100");
}

#[test]
fn spaces_are_quoted() {
    assert_eq!(quote_arg("CABLE Output"), r#""CABLE Output""#);
    assert_eq!(
        quote_arg(r"C:\Program Files\micbridge\micbridge.exe"),
        r#""C:\Program Files\micbridge\micbridge.exe""#
    );
}

#[test]
fn a_path_without_spaces_keeps_its_backslashes_unescaped() {
    assert_eq!(quote_arg(r"C:\Tools\micbridge.exe"), r"C:\Tools\micbridge.exe");
}

#[test]
fn embedded_quotes_are_escaped() {
    assert_eq!(quote_arg(r#"a"b"#), r#""a\"b""#);
}

#[test]
fn backslashes_before_a_quote_are_doubled() {
    assert_eq!(quote_arg(r#"a\"b"#), r#""a\\\"b""#);
}

#[test]
fn trailing_backslashes_are_doubled_before_the_closing_quote() {
    assert_eq!(quote_arg(r"C:\Program Files\"), r#""C:\Program Files\\""#);
}

#[test]
fn an_empty_argument_survives_as_an_empty_argument() {
    assert_eq!(quote_arg(""), r#""""#);
}

#[test]
fn a_command_line_joins_the_executable_and_its_arguments() {
    let line = command_line_for(
        r"C:\Program Files\micbridge\micbridge.exe",
        &["recv".into(), "--game-mic".into(), "CABLE Output".into()],
    );
    assert_eq!(
        line,
        r#""C:\Program Files\micbridge\micbridge.exe" recv --game-mic "CABLE Output""#
    );
}

#[test]
fn a_command_line_with_no_arguments_is_just_the_executable() {
    assert_eq!(
        command_line_for(r"C:\micbridge\micbridge-gui.exe", &[]),
        r"C:\micbridge\micbridge-gui.exe"
    );
}

#[test]
fn unsupported_platforms_report_it_rather_than_pretending() {
    let status = autostart::status(Platform::Other, None, None);
    assert!(!status.supported);
    assert!(!supported(Platform::Other));
    assert!(!status.enabled);
    assert!(status.command.is_none());
    assert!(
        enable(Platform::Other, "micbridge", &[]).is_err(),
        "should refuse rather than silently do nothing"
    );
    assert!(disable(Platform::Other).is_err());

    assert!(supported(Platform::Windows));
    let status = autostart::status(Platform::Windows, None, Some("C:\\m.exe"));
    assert!(status.supported && !status.enabled && !status.stale);
}

#[test]
fn a_moved_executable_makes_its_entry_stale() {
    let command = Some(r#""C:\Old Place\Micbridge.exe" recv"#.to_string());
    let status =
        autostart::status(Platform::Windows, command.clone(), Some(r"c:\old place\micbridge.exe"));
    assert!(status.enabled && !status.stale, "the case of letters is no difference");
    let status = autostart::status(Platform::Windows, command, Some(r"C:\New\micbridge.exe"));
    assert!(status.enabled && status.stale);
    assert_eq!(
        enable(Platform::Windows, r"C:\m.exe", &["recv".to_string()]),
        Ok(r"C:\m.exe recv".to_string())
    );
    assert_eq!(disable(Platform::Windows), Ok(()));
}

#[test]
fn defaults_are_the_documented_ones() {
    let sender = SenderConfig::default();
    assert_eq!(sender.packet_frames, 240);
    assert_eq!(sender.port, 42100);
    assert_eq!(sender.source, Source::Device(None));

    assert_eq!(
        f32::from_bits(sender.gain_db_bits),
        0.0,
        "a default session must not alter the signal"
    );

    let receiver = ReceiverConfig::default();
    assert_eq!(receiver.target_buffer_ms, 20);
    assert_eq!(f32::from_bits(receiver.gain_db_bits), 0.0);
    assert_eq!(receiver.port, 42100);
    assert_eq!(receiver.media_port, 42101);
    assert_eq!(receiver.bind, "0.0.0.0");
}

#[test]
fn a_default_packet_is_five_milliseconds_at_48k() {
    assert_eq!(f64::from(DEFAULT_PACKET_FRAMES) / 48_000.0 * 1000.0, 5.0);
}

#[test]
fn starts_idle_and_not_stopping() {
    let state = SessionState::new();
    assert_eq!(state.status(), Status::Idle);
    assert!(!state.stop_requested());
    assert!(!state.status().is_active());
    assert!(state.gain().is_unity());
}

#[test]
fn stop_can_be_requested_and_rearmed() {
    let mut state = SessionState::new();
    state.request_stop();
    assert!(state.stop_requested());
    state.rearm();
    assert!(!state.stop_requested(), "the same state must be reusable for a second session");
}

#[test]
fn status_transitions_are_logged() {
    let mut state = SessionState::new();
    state.set_status(Status::Starting("connecting".into()));
    state.set_status(Status::Running);
    state.set_status(Status::Failed("boom".into()));

    let snapshot = state.snapshot();
    assert_eq!(snapshot.status, Status::Failed("boom".into()));
    assert!(snapshot.log.iter().any(|l| l.contains("connecting")));
    assert!(snapshot.log.iter().any(|l| l.contains("boom")));
    assert_eq!(snapshot.log, ["starting: connecting", "running", "failed: boom"]);
}

#[test]
fn active_covers_starting_and_running_only() {
    assert!(Status::Starting(String::new()).is_active());
    assert!(Status::Running.is_active());
    assert!(!Status::Idle.is_active());
    assert!(!Status::Stopped.is_active());
    assert!(!Status::Failed(String::new()).is_active());
}

#[test]
fn the_log_is_bounded() {
    let mut state = SessionState::new();
    for i in 0..LOG_CAPACITY * 3 {
        state.push_log(format!("line {i}"));
    }
    let log = state.snapshot().log;
    assert_eq!(log.len(), LOG_CAPACITY, "log must not grow without bound");
    assert!(log.last().expect("non-empty").contains(&format!("{}", LOG_CAPACITY * 3 - 1)));
    assert_eq!(log[0], "line 400", "the newest lines are the ones kept");
}

#[test]
fn update_stats_is_a_partial_edit() {
    let mut state = SessionState::new();
    state.update_stats(|s| Stats { packets: 5, ..s });
    state.update_stats(|s| Stats { underruns: 2, ..s });
    let stats = state.stats();
    assert_eq!(stats.packets, 5, "the second update must not have cleared the first");
    assert_eq!(stats.underruns, 2);
}

#[test]
fn snapshot_drains_the_level_meter() {
    let mut state = SessionState::new();
    state.record_peak(0.6f32.to_bits());
    assert!((f32::from_bits(state.snapshot().level_bits) - 0.6).abs() < 1e-6);
    assert_eq!(
        f32::from_bits(state.snapshot().level_bits),
        0.0,
        "each snapshot covers one interval"
    );
}

#[test]
fn each_side_keeps_its_own_numbers() {
    let report = ReceiverStats {
        packets_received: 1,
        frames_lost: 2,
        packets_late: 3,
        packets_reordered: 4,
        underruns: 5,
        overruns: 6,
        buffer_fill_bits: 7,
        resample_ratio_bits: 8,
    };
    let receiver = Stats::default().losing(9).playing(&report, 10);
    assert_eq!((receiver.packets, receiver.frames_lost, receiver.packets_late), (1, 2, 3));
    assert_eq!((receiver.underruns, receiver.overruns), (5, 6));
    assert_eq!((receiver.fill_bits, receiver.trim_bits, receiver.frames_dropped), (7, 10, 9));

    let sender = Stats::default().sending(100, 11).told(&report);
    assert_eq!((sender.packets, sender.frames_dropped, sender.underruns), (100, 11, 5));
    assert_eq!(sender.trim_bits, 0, "a receiver does not report its trim");

    let shown = Stats::default()
        .listening("0.0.0.0:42100".into(), vec!["10.0.0.2:42100".into()])
        .streaming(48_000, 2, "CABLE Input".into())
        .feeding("CABLE Output".into());
    assert_eq!(shown.local_addr, "0.0.0.0:42100");
    assert_eq!(shown.reachable, ["10.0.0.2:42100"]);
    assert_eq!((shown.sample_rate, shown.channels), (48_000, 2));
    assert_eq!((shown.endpoint.as_str(), shown.game_device.as_str()), ("CABLE Input", "CABLE Output"));
}

#[test]
fn session_ids_differ_between_calls() {
    // The hard case: the clock does not advance between calls.
    let ids: std::collections::HashSet<u64> =
        (0..1_000).map(|counter| new_session_id(1_700_000_000_000_000_000, counter, 4_242)).collect();
    assert_eq!(ids.len(), 1_000, "session ids collided");
    assert_eq!(new_session_id(5, 2, 1), 0x0001_0000_0000_0007);
}

#[test]
fn both_platforms_timeout_kinds_are_recognised() {
    assert!(is_timeout(FaultKind::WouldBlock), "Unix read timeout");
    assert!(is_timeout(FaultKind::TimedOut), "Windows read timeout");
    assert!(!is_timeout(FaultKind::ConnectionReset));
    assert!(!is_timeout(FaultKind::UnexpectedEof));
}

#[test]
fn peer_timeout_is_several_heartbeats() {
    assert!(PEER_TIMEOUT >= HEARTBEAT * 3, "one slow beat must not drop a session");
}

#[test]
fn moments_do_not_wrap() {
    assert_eq!(later(u64::MAX - 1, 5), u64::MAX);
    assert_eq!(after_secs(1, Some(2)), Some(2_000_000_001));
    assert_eq!(after_secs(1, Some(u64::MAX)), Some(u64::MAX));
    assert_eq!(after_secs(1, None), None);
}

fn v4(a: u8, b: u8, c: u8, d: u8) -> u32 {
    u32::from_be_bytes([a, b, c, d])
}

fn interfaces() -> Vec<Interface> {
    vec![
        Interface { address: Address::V4(v4(127, 0, 0, 1)), broadcast: Some(v4(127, 255, 255, 255)) },
        Interface { address: Address::V4(v4(192, 168, 1, 7)), broadcast: Some(v4(192, 168, 1, 255)) },
        Interface { address: Address::V4(v4(100, 64, 0, 9)), broadcast: None },
        Interface { address: Address::V6(1), broadcast: None },
        Interface { address: Address::V4(v4(10, 0, 0, 3)), broadcast: Some(v4(10, 0, 0, 255)) },
    ]
}

#[test]
fn a_probe_is_addressed_to_every_interface() {
    let targets = probe_targets(&interfaces());
    assert_eq!(
        targets,
        [
            (v4(192, 168, 1, 7), v4(192, 168, 1, 255)),
            (v4(10, 0, 0, 3), v4(10, 0, 0, 255)),
            (0, u32::MAX),
        ]
    );
    assert_eq!(probe_targets(&[]), [(0, u32::MAX)], "there is always the fallback");
}

#[test]
fn no_interface_is_probed_twice() {
    let targets = probe_targets(&interfaces());
    let unique: std::collections::BTreeSet<_> = targets.iter().collect();
    assert_eq!(unique.len(), targets.len(), "duplicate probe targets: {targets:?}");
}

#[test]
fn local_addresses_are_usable_by_a_peer() {
    let candidates =
        [Address::V4(v4(127, 0, 0, 1)), Address::V4(0), Address::V6(1), Address::V4(v4(10, 0, 0, 3))];
    let usable = local_addresses(&candidates);
    assert_eq!(usable, [Address::V4(v4(10, 0, 0, 3))]);
}

#[test]
fn local_addresses_are_deduplicated() {
    let candidates = [
        Address::V4(v4(192, 168, 1, 7)),
        Address::V4(v4(10, 0, 0, 3)),
        Address::V4(v4(192, 168, 1, 7)),
    ];
    let addresses = local_addresses(&candidates);
    assert_eq!(addresses, [Address::V4(v4(10, 0, 0, 3)), Address::V4(v4(192, 168, 1, 7))]);
}

#[test]
fn a_probe_is_answered_and_the_answer_is_kept_once() {
    let probe = Message::Probe.encode().expect("encodes");
    assert!(is_probe(&probe));
    let answer = reply(42_100, "test-receiver".into()).expect("encodes");
    assert!(!is_probe(&answer));

    let mut found: Vec<Found> = Vec::new();
    take_reply(&mut found, Address::V4(v4(10, 0, 0, 9)), &answer);
    take_reply(&mut found, Address::V4(v4(10, 0, 0, 2)), &answer);
    take_reply(&mut found, Address::V4(v4(10, 0, 0, 9)), &answer);
    for junk in [&b""[..], &b"hello"[..], &[0xFF; 64][..], &probe[..]] {
        take_reply(&mut found, Address::V4(v4(10, 0, 0, 4)), junk);
        assert!(is_probe(junk) == (junk == &probe[..]));
    }
    let hosts: Vec<Address> = found.iter().map(|f| f.host).collect();
    assert_eq!(hosts, [Address::V4(v4(10, 0, 0, 2)), Address::V4(v4(10, 0, 0, 9))]);
    assert_eq!((found[0].control_port, found[0].label.as_str()), (42_100, "test-receiver"));

    add_found(
        &mut found,
        Found { host: Address::V4(v4(10, 0, 0, 2)), control_port: 42_100, label: "a".into() },
    );
    assert_eq!(found.len(), 3);
    assert_eq!(found[0].label, "a");
    assert!(reply(1, "x".repeat(65)).is_err());
}

#[test]
fn find_returns_within_its_timeout_even_with_nobody_there() {
    let mut run = ProbeRun::new(0);
    let mut sent = 0;
    let mut now = 0;
    loop {
        match run.step(now) {
            ProbeStep::Done => break,
            ProbeStep::Send => sent += 1,
            ProbeStep::Listen => {}
        }
        now += 10_000_000;
    }
    assert_eq!(sent, PROBE_REPEATS);
    assert!(now < PROBE_TIMEOUT * 3, "took {now}");
    assert_eq!(now, PROBE_TIMEOUT);
}

fn format() -> StreamFormat {
    StreamFormat {
        sample_rate: 48_000,
        channels: 2,
        sample_format: WireSampleFormat::S16Le,
        frames_per_packet: 240,
    }
}

#[test]
fn a_sender_with_no_host_fails_with_a_useful_message() {
    let message = check_host(" \t").expect_err("refused");
    assert!(message.contains("no host"), "unhelpful message: {message}");
    assert_eq!(check_host(" receiver "), Ok(()));
    assert!(check_host("\u{2003}").is_err(), "an em space is white space too");
}

#[test]
fn only_an_ack_of_the_offered_format_starts_a_session() {
    let greeting = hello(7, "Mic".into(), format());
    assert_eq!((greeting.protocol_version, greeting.session_id), (1, 7));
    let ack = HelloAck {
        protocol_version: 1,
        media_port: 42_101,
        target_buffer_ms: 20,
        format: format(),
    };
    assert_eq!(check_ack(ServerMessage::HelloAck(ack), format()), Ok(ack));

    let mut other = format();
    other.channels = 1;
    let fault = check_ack(ServerMessage::HelloAck(ack), other).expect_err("refused");
    assert_eq!(
        fault.message(""),
        "receiver wants StreamFormat { sample_rate: 48000, channels: 2, sample_format: S16Le, \
         frames_per_packet: 240 } but we offered StreamFormat { sample_rate: 48000, channels: 1, \
         sample_format: S16Le, frames_per_packet: 240 }; version 1 does not renegotiate"
    );
    assert_eq!(
        check_ack(ServerMessage::Error { message: "busy".into() }, format()),
        Err(HandshakeFault::Rejected("busy".into()))
    );
    assert_eq!(
        HandshakeFault::Rejected("busy".into()).message(""),
        "receiver rejected the session: busy"
    );
    let fault = check_ack(ServerMessage::Heartbeat, format()).expect_err("refused");
    assert_eq!(fault.message("Heartbeat"), "expected a hello ack, got Heartbeat");
}

#[test]
fn a_session_is_active_from_its_start_to_its_end() {
    let mut state = SessionState::new();
    state.begin();
    assert_eq!(state.status(), Status::Starting("initialising".into()));
    assert!(state.status().is_active());
    state.finish(Ok(()));
    assert_eq!(state.status(), Status::Stopped);
    state.finish(Err("control channel: reset".into()));
    assert_eq!(state.status(), Status::Failed("control channel: reset".into()));
    assert_eq!(
        state.snapshot().log,
        ["starting: initialising", "stopped", "failed: control channel: reset"]
    );
}

#[test]
fn a_sender_offers_what_its_source_has() {
    let config = SenderConfig {
        source: Source::Tone(0),
        sample_rate: Some(44_100),
        ..SenderConfig::default()
    };
    let (name, offered) = send::probe_tone(&config, "440");
    assert_eq!(name, "tone 440 Hz");
    assert_eq!((offered.sample_rate, offered.channels), (44_100, 2));
    assert_eq!(offered.frames_per_packet, DEFAULT_PACKET_FRAMES);
    assert_eq!(capture_config(&config, Gain::unity()).device, None);

    let config = SenderConfig {
        source: Source::Device(Some("usb".into())),
        capture_frames: Some(96),
        ..SenderConfig::default()
    };
    let opened = capture_config(&config, Gain::with_factor(7));
    assert_eq!(opened.device.as_deref(), Some("usb"));
    assert_eq!((opened.sample_rate, opened.channels), (None, None));
    assert_eq!((opened.buffer_frames, opened.gain.factor()), (Some(96), 7));
}

#[test]
fn a_capture_ring_holds_a_fifth_of_a_second() {
    let (mut producer, consumer, _) = capture_ring(format()).expect("can be sent");
    assert_eq!(producer.vacant_frames(), 9_600);
    assert_eq!(consumer.channels(), 2);
    assert!(capture_ring(StreamFormat { channels: 0, ..format() }).is_none());
    assert!(capture_ring(StreamFormat { frames_per_packet: 0, ..format() }).is_none());
    assert!(capture_ring(StreamFormat { sample_rate: 4, ..format() }).is_none());
}

#[test]
fn a_datagram_carries_the_captured_samples_and_their_place() {
    let mut packetiser = Packetiser::new(StreamFormat { frames_per_packet: 2, ..format() });
    let (mut producer, mut consumer) = frame_channel(2, 16);
    producer.push_frames(&[1, 2]);
    assert_eq!(packetiser.next_datagram(&mut consumer, |w| w as i16), None, "half a packet");
    producer.push_frames(&[3, 4, 5, 6, 7, 8]);

    let first = packetiser.next_datagram(&mut consumer, |w| w as i16).expect("a packet");
    let (header, payload) = MediaHeader::decode(&first).expect("decodes");
    assert_eq!((header.channel, header.seq, header.sample_idx), (0, 0, 0));
    assert_eq!(payload, [1, 0, 2, 0, 3, 0, 4, 0]);
    let second = packetiser.next_datagram(&mut consumer, |w| w as i16).expect("a packet");
    let (header, payload) = MediaHeader::decode(&second).expect("decodes");
    assert_eq!((header.seq, header.sample_idx), (1, 2));
    assert_eq!(payload, [5, 0, 6, 0, 7, 0, 8, 0]);
}

#[test]
fn a_run_of_send_errors_is_logged_once() {
    let mut tally = SendTally::new();
    assert!(!tally.note(true));
    assert!(tally.note(false), "the first of a run");
    assert!(!tally.note(false));
    assert!(!tally.note(true));
    assert!(tally.note(false), "a new run");
    assert_eq!((tally.packets_sent, tally.send_errors), (2, 3));
    assert!(!tally.is_failing());
    for _ in 0..997 {
        tally.note(false);
    }
    assert!(tally.is_failing());
}

#[test]
fn a_sender_beats_on_a_grid_until_it_is_stopped() {
    let mut control = SenderControl::new(0, Some(3));
    assert_eq!(control.turn(0, false), send::Turn::Beat);
    assert_eq!(control.turn(1, false), send::Turn::Listen);
    assert_eq!(control.turn(HEARTBEAT + 400, false), send::Turn::Beat);
    assert_eq!(control.next_beat, 2 * HEARTBEAT);
    assert_eq!(control.turn(3 * HEARTBEAT, false), send::Turn::DurationReached);
    assert_eq!(control.turn(0, true), send::Turn::Stop);

    let mut control = SenderControl::new(0, None);
    let alive = Ok(Some(ServerMessage::Heartbeat));
    assert_eq!(control.hear(HEARTBEAT, alive), send::Heard::Nothing);
    assert_eq!(control.turn(HEARTBEAT + PEER_TIMEOUT, false), send::Turn::Beat);
    assert_eq!(
        control.turn(HEARTBEAT + PEER_TIMEOUT + 1, false),
        send::Turn::PeerQuiet(PEER_TIMEOUT + 1)
    );
    assert_eq!(
        SenderControl::beat(10, 3, 240),
        SenderStats { frames_captured: 2_400, packets_sent: 10, frames_dropped: 3 }
    );
    assert_eq!(control.hear(0, Ok(None)), send::Heard::Nothing);
    assert_eq!(control.last_heard, HEARTBEAT, "a read timeout is no sign of life");
    assert_eq!(control.hear(0, Err(framing::Error::Closed)), send::Heard::Closed);
    assert_eq!(
        control.hear(0, Err(framing::Error::Timeout)),
        send::Heard::Failed(framing::Error::Timeout)
    );
    assert_eq!(
        control.hear(0, Ok(Some(ServerMessage::Error { message: "no".into() }))),
        send::Heard::Reported("no".into())
    );
}

#[test]
fn a_stream_that_cannot_be_received_is_refused_with_the_reason() {
    assert_eq!(validate(&format(), 1), Ok(()));
    assert_eq!(
        validate(&format(), 2),
        Err("sender speaks protocol 2, this build speaks 1".to_string())
    );
    let with = |change: fn(&mut StreamFormat)| {
        let mut f = format();
        change(&mut f);
        validate(&f, 1).expect_err("refused")
    };
    assert_eq!(with(|f| f.channels = 0), "sender advertised zero channels");
    assert_eq!(with(|f| f.sample_rate = 0), "sender advertised a zero sample rate");
    assert_eq!(with(|f| f.frames_per_packet = 0), "sender advertised zero frames per packet");
    assert_eq!(
        with(|f| f.frames_per_packet = 2_045),
        "sender's 8196-byte datagrams exceed the 8192-byte receive buffer"
    );

    let opening = Hello {
        protocol_version: 1,
        session_id: 7,
        device_name: "Mic".into(),
        format: format(),
    };
    assert_eq!(greet(ClientMessage::Hello(opening.clone())), Ok(opening.clone()));
    assert_eq!(acknowledge(&opening, 5, 20).media_port, 5);
    assert_eq!(
        greet(ClientMessage::Goodbye),
        Err(ServerMessage::Error { message: "expected hello, got Goodbye".into() })
    );
    let stats = SenderStats { frames_captured: 1, packets_sent: 2, frames_dropped: 3 };
    let message = format!("expected hello, got {:?}", ClientMessage::Stats(stats));
    assert_eq!(greet(ClientMessage::Stats(stats)), Err(ServerMessage::Error { message }));
}

#[test]
fn a_receiver_can_be_stopped_while_waiting_for_a_sender() {
    assert_eq!(wait_for_sender(Ok(()), true, None, 0), Waiting::Serve);
    assert_eq!(wait_for_sender(Err(FaultKind::WouldBlock), false, None, 0), Waiting::Sleep);
    assert_eq!(wait_for_sender(Err(FaultKind::WouldBlock), true, None, 0), Waiting::GiveUp);
    assert_eq!(wait_for_sender(Err(FaultKind::WouldBlock), false, Some(5), 5), Waiting::GiveUp);
    for kind in [FaultKind::ConnectionReset, FaultKind::ConnectionAborted, FaultKind::Interrupted] {
        assert_eq!(wait_for_sender(Err(kind), false, None, 0), Waiting::Retry);
    }
    assert_eq!(wait_for_sender(Err(FaultKind::Other), false, None, 0), Waiting::Fail);
    assert_eq!(bind_media(FaultKind::AddrInUse), BindNext::Ephemeral);
    assert_eq!(bind_media(FaultKind::Other), BindNext::Fail);
    assert_eq!(remaining(Some(7), 5), Some(2));
    assert_eq!(remaining(Some(5), 7), Some(0));
    assert!(serves_on(false, false, Some(9), 8));
    assert!(!serves_on(false, false, Some(9), 9));
    assert!(!serves_on(true, false, None, 0));
}

#[test]
fn datagrams_are_sorted_out_before_they_reach_the_pipeline() {
    let config = session_pipeline(format(), 48_000, 2, 20).expect("can be built");
    let (mut sink, _source) = pipeline::build(config);
    let mut samples = Vec::new();
    let sender = Address::V4(v4(10, 0, 0, 2));
    let mut take = |from: Address, datagram: &[u8]| {
        take_datagram(&mut sink, &mut samples, from, sender, datagram, |s| s as u32)
    };
    let mut audio = MediaHeader::new(0, 0, 0).encode().to_vec();
    audio.extend_from_slice(&[1, 0, 2, 0]);
    assert_eq!(take(sender, &audio), Fate::Placed);
    assert_eq!(take(Address::V4(v4(10, 0, 0, 3)), &audio), Fate::Foreign);
    assert_eq!(take(sender, &[0; 4]), Fate::Malformed(media::Error::TooShort(4)));
    assert_eq!(take(sender, &MediaHeader::new(CHANNEL_HID, 0, 0).encode()), Fate::Hid);
    assert_eq!(take(sender, &MediaHeader::new(9, 0, 0).encode()), Fate::UnknownChannel(9));
    audio.push(7);
    assert_eq!(take(sender, &audio), Fate::OddPayload(5));
    let mut last = MediaHeader::new(0, 0, u64::MAX).encode().to_vec();
    last.extend_from_slice(&[1, 0, 2, 0]);
    assert_eq!(take(sender, &last), Fate::OutOfRange);
    assert_eq!(sink.stats().packets_received, 1);
}

#[test]
fn a_quiet_sender_is_given_up_after_the_peer_timeout() {
    let mut control = ReceiverControl::new(0, None);
    assert_eq!(control.turn(1, false), recv::Turn::Listen);
    assert_eq!(control.turn(HEARTBEAT, false), recv::Turn::Beat);
    let hello = Ok(Some(ClientMessage::Heartbeat));
    assert_eq!(control.hear(2 * HEARTBEAT, hello), recv::Heard::Nothing);
    assert_eq!(control.turn(2 * HEARTBEAT + PEER_TIMEOUT, false), recv::Turn::Beat);
    assert_eq!(
        control.turn(2 * HEARTBEAT + PEER_TIMEOUT + 1, false),
        recv::Turn::PeerQuiet(PEER_TIMEOUT + 1)
    );
    assert_eq!(control.turn(u64::MAX, true), recv::Turn::Stop);
    assert_eq!(control.hear(0, Ok(Some(ClientMessage::Goodbye))), recv::Heard::Goodbye);
    assert_eq!(control.hear(0, Err(framing::Error::ClosedMidFrame)), recv::Heard::Closed);
    let again = ClientMessage::Hello(Hello {
        protocol_version: 1,
        session_id: 1,
        device_name: String::new(),
        format: format(),
    });
    assert_eq!(control.hear(0, Ok(Some(again))), recv::Heard::SecondHello);
    let mut short = ReceiverControl::new(5, Some(10));
    assert_eq!(short.turn(15, false), recv::Turn::DurationReached);
}

#[test]
fn a_session_says_what_it_adapts() {
    assert_eq!(rate_note(48_000, 48_000), None);
    assert_eq!(
        rate_note(44_100, 48_000).as_deref(),
        Some("rate mismatch: capturing at 44100 Hz, rendering at 48000 Hz")
    );
    assert_eq!(mapping_note(2, 2, Mapping::Passthrough), None);
    assert_eq!(
        mapping_note(1, 2, Mapping::FanOutMono).as_deref(),
        Some("1 channels in, 2 out: mono fanned out to every output channel")
    );
    assert_eq!(
        microphone_note("CABLE Input", Some("CABLE Output")),
        "select \"CABLE Output\" as the microphone in your game"
    );
    assert_eq!(
        microphone_note("Speakers", None),
        "\"Speakers\" feeds no microphone — a game cannot hear this"
    );
    assert_eq!(foreign_note(0), None);
    assert_eq!(foreign_note(3).as_deref(), Some("ignored 3 datagrams from another address"));
    assert_eq!(announce_label("", 42_100), "receiver on 42100");
    assert_eq!(announce_label("attic", 42_100), "attic");
    let config = ReceiverConfig {
        sink: Sink::Device(Some("CABLE".into())),
        render_frames: Some(64),
        ..ReceiverConfig::default()
    };
    let opened = render_config(&config);
    assert_eq!((opened.device.as_deref(), opened.buffer_frames), (Some("CABLE"), Some(64)));
}

fn output(name: &str, sample_rate: u32, channels: u16) -> OutputTarget {
    OutputTarget { name: name.into(), sample_rate, channels, buffer_frames: None }
}

#[test]
fn a_session_opens_with_everything_the_sender_and_the_user_need() {
    let opening = Hello {
        protocol_version: 1,
        session_id: 7,
        device_name: "Mic".into(),
        format: StreamFormat { channels: 1, ..format() },
    };
    let opened = open_session(
        &opening,
        &Sink::Device(None),
        Ok(output("CABLE Input", 44_100, 2)),
        &[MicRoute {
            game_mic: "CABLE Output".into(),
            render_into: "cable input".into(),
            how: Pairing::NamedPair,
        }],
        42_101,
        20,
    )
    .expect("can be built");
    assert_eq!(
        opened.notes,
        [
            "rate mismatch: capturing at 48000 Hz, rendering at 44100 Hz",
            "select \"CABLE Output\" as the microphone in your game",
            "1 channels in, 2 out: mono fanned out to every output channel",
        ]
    );
    assert_eq!(opened.game_device, "CABLE Output");
    assert_eq!((opened.ack.media_port, opened.ack.format), (42_101, opening.format));
    assert_eq!((opened.pipeline.output_rate, opened.pipeline.output_channels), (44_100, 2));

    let wav = Sink::Wav("a.wav".into());
    let opened = open_session(&opening, &wav, Ok(output("a.wav", 48_000, 1)), &[], 1, 20)
        .expect("can be built");
    assert!(opened.notes.is_empty());
    assert_eq!(opened.game_device, "");

    let speakers = output("Speakers", 48_000, 1);
    let opened = open_session(&opening, &Sink::Device(None), Ok(speakers), &[], 1, 20)
        .expect("can be built");
    assert_eq!(opened.notes, ["\"Speakers\" feeds no microphone — a game cannot hear this"]);
    assert_eq!(opened.game_device, "");

    assert_eq!(
        recv::close_session(Some(FileOutcome::Wrote(480)), 3),
        ["wrote 480 frames", "ignored 3 datagrams from another address"]
    );
    assert_eq!(
        recv::close_session(Some(FileOutcome::Failed("disk full".into())), 0),
        ["wav sink failed: disk full"]
    );
    assert!(recv::close_session(Some(FileOutcome::Lost), 0).is_empty());
    assert_eq!(send::close_session(0, 7), ["sent 7 packets"]);
    assert_eq!(send::close_session(2, 7), ["2 capture frames dropped", "sent 7 packets"]);
}

#[test]
fn a_session_that_cannot_be_served_is_told_why() {
    let hello = Hello {
        protocol_version: 1,
        session_id: 7,
        device_name: "Mic".into(),
        format: format(),
    };
    let error = |message: &str| ServerMessage::Error { message: message.into() };

    let missing = Err("no output device matching \"CABLE\"".to_string());
    assert_eq!(
        open_session(&hello, &Sink::Device(None), missing, &[], 1, 20),
        Err(error("no output device matching \"CABLE\""))
    );
    let vast = StreamFormat {
        sample_rate: u32::MAX,
        channels: 4_000,
        frames_per_packet: 1,
        ..format()
    };
    let huge = Hello { format: vast, ..hello.clone() };
    let target = OutputTarget { sample_rate: u32::MAX, ..output("Out", 1, 2) };
    assert_eq!(
        open_session(&huge, &Sink::Device(None), Ok(target), &[], 1, u32::MAX),
        Err(error("no memory could hold a buffer for this stream"))
    );

    let opens = ClientMessage::Hello(hello.clone());
    assert_eq!(meet_sender(false, opens.clone()), Ok(hello));
    assert_eq!(
        meet_sender(true, opens),
        Err(error("another sender is already being served"))
    );
    assert_eq!(
        meet_sender(false, ClientMessage::Goodbye),
        Err(error("expected hello, got Goodbye"))
    );
}

#[test]
fn a_pipeline_that_no_memory_could_hold_is_not_built() {
    assert!(session_pipeline(format(), 48_000, 2, 20).is_some());
    let absurd = StreamFormat { sample_rate: u32::MAX, channels: u16::MAX, ..format() };
    assert!(session_pipeline(absurd, u32::MAX, 2, u32::MAX).is_none());
}
