//! What the command line asks for and prints, and the text helpers under it.

use micbridge::audio::virtual_device::{MicRoute, Pairing};
use micbridge::bytes::{get_u16, get_u32, get_u64, put_u16, put_u32, put_u64};
use micbridge::cli::{
    autostart_argv, autostart_enabled, autostart_status, await_session, devices, discover,
    feedable, pick_receiver, probe_line, recv, resolve_game_mic, send, RecvArgs, SendArgs,
    SinkKind,
};
use micbridge::engine::autostart::{self, command_line_for, Platform};
use micbridge::engine::config::{Sink, Source};
use micbridge::engine::state::Status;
use micbridge::gui::app::Receiver;
use micbridge::protocol::api::{StreamFormat, WireSampleFormat};
use micbridge::text::{
    chars_of, is_blank, is_inside, is_inside_any_case, is_same_ascii, parse_u32, push_decimal,
    push_hex, push_joined, push_quoted, trim,
};

fn receiver(address: &str, label: &str) -> Receiver {
    Receiver { address: address.into(), control_port: 42_100, label: label.into() }
}

#[test]
fn the_first_receiver_is_picked_and_named() {
    assert!(pick_receiver(&[]).expect_err("none").starts_with("no receiver found"));
    let one = pick_receiver(&[receiver("10.0.0.2", "attic")]).expect("one");
    assert_eq!((one.host.as_str(), one.port), ("10.0.0.2", 42_100));
    assert_eq!(one.notice, "Found 10.0.0.2 (attic)");
    let two = pick_receiver(&[receiver("a", "x"), receiver("b", "y")]).expect("two");
    assert_eq!(two.host, "a");
    assert_eq!(two.notice, "Found 2 receivers; using a. Pass --host to choose.");
}

#[test]
fn arguments_become_a_session() {
    let args = SendArgs {
        host: None,
        port: 1,
        device: Some("UMC".into()),
        tone_bits: None,
        rate: Some(44_100),
        channels: None,
        packet_frames: 120,
        capture_frames: None,
        duration_secs: Some(3),
        gain_db_bits: 0,
    };
    let config = send(args.clone(), "box".into(), 7);
    assert_eq!((config.host.as_str(), config.port), ("box", 7));
    assert_eq!(config.source, Source::Device(Some("UMC".into())));
    assert_eq!((config.sample_rate, config.packet_frames), (Some(44_100), 120));
    let tone = send(SendArgs { tone_bits: Some(9), ..args }, "box".into(), 7);
    assert_eq!(tone.source, Source::Tone(9));

    let args = RecvArgs {
        bind: "0.0.0.0".into(),
        port: 42_100,
        media_port: 42_101,
        sink: SinkKind::Device,
        wav_path: "a.wav".into(),
        device: None,
        game_mic: None,
        target_buffer_ms: 20,
        gain_db_bits: 0,
        render_frames: None,
        wav_chunk_frames: 240,
        once: true,
        duration_secs: None,
        no_announce: true,
        discovery_port: 42_102,
        label: None,
    };
    let config = recv(args.clone(), Some("CABLE Input".into()));
    assert_eq!(config.sink, Sink::Device(Some("CABLE Input".into())));
    assert!(config.once && !config.announce);
    assert_eq!(config.label, "");
    let config = recv(RecvArgs { sink: SinkKind::Wav, label: Some("attic".into()), ..args }, None);
    assert_eq!(config.sink, Sink::Wav("a.wav".into()));
    assert_eq!(config.label, "attic");
}

fn route(mic: &str, into: &str, how: Pairing) -> MicRoute {
    MicRoute { game_mic: mic.into(), render_into: into.into(), how }
}

#[test]
fn a_game_mic_is_resolved_to_its_playback_device() {
    let routes = [
        route("CABLE Output", "CABLE Input", Pairing::NamedPair),
        route("UMC204HD", "UMC204HD", Pairing::SameName),
    ];
    assert_eq!(resolve_game_mic("umc", &routes).expect("found").render_into, "UMC204HD");
    assert_eq!(resolve_game_mic("", &routes).expect("found").render_into, "CABLE Input");
    assert_eq!(
        resolve_game_mic("x\ty", &routes).expect_err("none"),
        "no feedable microphone matching \"x\\ty\". Available: CABLE Output, UMC204HD"
    );
    assert_eq!(
        resolve_game_mic("x", &[]).expect_err("none"),
        "no feedable microphone matching \"x\". Available: none — install a virtual audio cable"
    );
}

#[test]
fn only_a_failed_session_fails_the_process() {
    assert_eq!(await_session(&Status::Stopped), Ok(()));
    assert_eq!(await_session(&Status::Failed("boom".into())), Err("boom".to_string()));
}

#[test]
fn what_is_registered_is_what_was_asked_for() {
    assert_eq!(autostart_argv(None, None, None, None), ["recv"]);
    let argv = autostart_argv(Some("CABLE Output".into()), Some("x".into()), Some(40), Some(5));
    assert_eq!(
        argv,
        ["recv", "--game-mic", "CABLE Output", "--target-buffer-ms", "40", "--port", "5"]
    );
    assert_eq!(
        command_line_for("m.exe", &argv),
        "m.exe recv --game-mic \"CABLE Output\" --target-buffer-ms 40 --port 5"
    );
    assert_eq!(autostart_argv(None, Some("x".into()), None, None), ["recv", "--device", "x"]);
    let lines = autostart_enabled("m.exe recv");
    assert_eq!(lines[1], "  m.exe recv");
    assert_eq!(lines[8], "Startup tab, where it appears as \"micbridge\".");

    let off = autostart::status(Platform::Windows, None, None);
    assert_eq!(
        autostart_status(&off),
        ["Not registered. `micbridge autostart enable` to add it."]
    );
    let stale = autostart::status(Platform::Windows, Some("x".into()), Some("y"));
    let lines = autostart_status(&stale);
    assert_eq!(lines.len(), 6);
    assert_eq!(&lines[..3], ["Registered as \"micbridge\":", "  x", ""]);
}

#[test]
fn discovered_receivers_come_with_a_command_to_try() {
    assert_eq!(discover(&[])[0], "None found.");
    assert_eq!(
        discover(&[receiver("10.0.0.2", "attic")]),
        [
            "",
            "  10.0.0.2  (attic)",
            "    micbridge send --host 10.0.0.2 --port 42100 --tone 1000",
            "",
            "Start with --tone: if the receiver's meter moves, everything except the",
            "microphone works. Then swap it for --device.",
        ]
    );
}

#[test]
fn devices_are_listed_by_microphone() {
    assert_eq!(devices("Inputs", &Ok(vec![])), ["Inputs:", "  (none)", ""]);
    assert_eq!(
        devices("Outputs", &Ok(vec!["A".into(), "B".into()])),
        ["Outputs:", "  A", "  B", ""]
    );
    assert_eq!(
        devices("Inputs", &Err("no host".into())),
        ["Inputs:", "  (enumeration failed: no host)", ""]
    );
    assert_eq!(feedable(&[]).len(), 3);
    let routes = [
        route("CABLE Output", "CABLE Input", Pairing::NamedPair),
        route("UMC", "UMC", Pairing::SameName),
    ];
    let lines = feedable(&routes);
    assert_eq!(
        &lines[1..6],
        [
            "  CABLE Output",
            "    micbridge recv --device \"CABLE Input\"",
            "  UMC",
            "    micbridge recv --device \"UMC\"",
            "    note: same name in both directions — may be a duplex interface rather than a cable",
        ]
    );
    let format = StreamFormat {
        sample_rate: 48_000,
        channels: 2,
        sample_format: WireSampleFormat::S16Le,
        frames_per_packet: 240,
    };
    assert_eq!(
        probe_line("Mic", &format, "5.00"),
        "would capture \"Mic\" at 48000 Hz, 2 channels, 240 frames per packet (5.00 ms, 960 \
         payload bytes)"
    );
}

#[test]
fn texts_are_put_together_and_taken_apart() {
    let mut out = String::new();
    push_decimal(&mut out, 0);
    push_decimal(&mut out, u64::MAX);
    assert_eq!(out, "018446744073709551615");
    let mut out = String::new();
    push_hex(&mut out, 0xBEE, 4);
    assert_eq!(out, "0bee");
    let mut out = String::new();
    push_quoted(&mut out, "a\"b\\c\n");
    assert_eq!(out, r#""a\"b\\c\n""#);
    let mut out = String::from("x: ");
    push_joined(&mut out, &["a".to_string(), "b".to_string()], ", ");
    assert_eq!(out, "x: a, b");
    assert_eq!(trim(&chars_of(" \u{2003}a b\t\n")), "a b");
    assert!(is_blank(" \t\u{2003}") && !is_blank(" x "));
    assert!(is_inside("", "abc") && is_inside("bc", "abc") && !is_inside("cb", "abc"));
    assert!(is_inside_any_case("ÄB", "xäbx") && !is_inside_any_case("ab", "xäbx"));
    assert!(is_same_ascii("CaBlE", "cAbLe") && !is_same_ascii("Ä", "ä"));
    assert_eq!(parse_u32("42"), Some(42));
    assert_eq!(parse_u32("4x2"), None);
}

#[test]
fn numbers_travel_most_significant_byte_first() {
    let mut out = Vec::new();
    put_u16(&mut out, 0x0102);
    put_u32(&mut out, 0x0304_0506);
    put_u64(&mut out, 0x0708_090A_0B0C_0D0E);
    assert_eq!(out, (1..=14).collect::<Vec<u8>>());
    assert_eq!(get_u16(&out, 0), 0x0102);
    assert_eq!(get_u32(&out, 2), 0x0304_0506);
    assert_eq!(get_u64(&out, 6), 0x0708_090A_0B0C_0D0E);
}
