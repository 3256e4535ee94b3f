//! What the window shows and decides.

use micbridge::audio::virtual_device::{MicRoute, Pairing};
use micbridge::engine::address::Address;
use micbridge::engine::autostart::{self, Platform};
use micbridge::engine::config::{Sink, Source};
use micbridge::engine::state::{Snapshot, Stats, Status};
use micbridge::gui::app::{
    autostart_args, ends_row, repaint_after, tries_host, wants_auto_receive, App, Choice,
    FindReport, Mode, Receiver, Start, Tone, TONE_HZ_BITS,
};
use micbridge::gui::logo::{bar, BAR_COUNT, DESIGN};
use micbridge::gui::png::{adler32, chunk, crc32, save, zlib_stored};
use micbridge::gui::screenshot::{
    count_down, documented_device, redact, retain_documented_devices, screenshot_target,
    scrub_addrs, warmup_frames, Reading, ShotStep, WARMUP_FRAMES,
};
use micbridge::gui::theme::{Palette, Theme};
use micbridge::gui::tray::{act_on, Tray, TrayAction, TrayCommand, TrayState};

#[test]
fn synthetic_option_is_labelled_per_mode() {
    assert_eq!(Choice::Synthetic.label(Mode::Send), "Test tone (1 kHz)");
    assert_eq!(Choice::Synthetic.label(Mode::Receive), "WAV file");
    assert_eq!(Choice::Device("X".into()).label(Mode::Send), "X");
    assert_eq!(f64::from_bits(TONE_HZ_BITS), 1_000.0);
}

#[test]
fn the_bars_form_a_symmetric_arch() {
    let heights: Vec<u32> = (0..BAR_COUNT).map(|i| bar(i).height).collect();
    assert!(heights[0] < heights[1] && heights[1] < heights[2], "should rise to the centre");
    assert_eq!(heights[0], heights[4], "outer pair should match");
    assert_eq!(heights[1], heights[3], "inner pair should match");

    let centre = f64::from(bar(2).x) + f64::from(bar(2).width) / 2.0;
    assert!((centre - f64::from(DESIGN) / 2.0).abs() < 0.01, "the centre bar is off-centre");

    // In units of the design space, of which a bar's numbers are quarters.
    let units = |n: u32| f64::from(n) / 4.0;
    assert_eq!(units(DESIGN), 64.0);
    assert_eq!((units(bar(2).x), units(bar(2).y)), (28.75, 22.0));
    assert_eq!((units(bar(0).width), units(bar(4).x)), (6.5, 46.5));
}

#[test]
fn the_accent_is_not_a_state_colour() {
    for theme in [Theme::Dark, Theme::Light] {
        let palette = Palette::for_theme(theme);
        for state in [palette.good, palette.warn, palette.bad] {
            assert_ne!(palette.accent, state, "accent collides with a state colour");
        }
    }
}

#[test]
fn text_contrasts_with_its_surface_in_both_themes() {
    fn luminance(c: micbridge::gui::theme::Color) -> f32 {
        let f = |v: u8| {
            let v = f32::from(v) / 255.0;
            if v <= 0.04045 {
                v / 12.92
            } else {
                ((v + 0.055) / 1.055).powf(2.4)
            }
        };
        0.2126 * f(c.r) + 0.7152 * f(c.g) + 0.0722 * f(c.b)
    }
    fn ratio(a: micbridge::gui::theme::Color, b: micbridge::gui::theme::Color) -> f32 {
        let (x, y) = (luminance(a), luminance(b));
        let (hi, lo) = if x > y { (x, y) } else { (y, x) };
        (hi + 0.05) / (lo + 0.05)
    }

    for (name, theme) in [("dark", Theme::Dark), ("light", Theme::Light)] {
        let p = Palette::for_theme(theme);
        assert!(ratio(p.ink, p.bg) >= 7.0, "{name}: body text is thin on the ground");
        assert!(ratio(p.muted, p.panel) >= 3.5, "{name}: labels are too faint on a card");
        assert!(ratio(p.good, p.panel) >= 2.5, "{name}: the good state is unreadable");
        assert!(ratio(p.bad, p.panel) >= 3.0, "{name}: the bad state is unreadable");
    }
}

#[test]
fn the_checksums_match_their_reference_values() {
    assert_eq!(crc32(b"123456789"), 0xCBF4_3926);
    assert_eq!(adler32(b"123456789"), 0x091E_01DE);
    assert_eq!(adler32(b""), 1);
}

#[test]
fn a_written_png_has_the_right_shape() {
    let pixels: Vec<u8> = [1, 2, 3, 255].repeat(6);
    let bytes = save(3, 2, &pixels);
    assert_eq!(&bytes[..8], b"\x89PNG\r\n\x1a\n", "missing signature");
    assert_eq!(&bytes[12..16], b"IHDR");
    assert_eq!(u32::from_be_bytes([bytes[16], bytes[17], bytes[18], bytes[19]]), 3, "width");
    assert_eq!(u32::from_be_bytes([bytes[20], bytes[21], bytes[22], bytes[23]]), 2, "height");
    assert!(bytes.ends_with(&[0xAE, 0x42, 0x60, 0x82]), "missing IEND");
}

#[test]
fn large_data_is_split_across_blocks() {
    let data = vec![7u8; 0xFFFF * 2 + 10];
    let stream = zlib_stored(&data);
    assert_eq!(&stream[..2], &[0x78, 0x01]);
    assert_eq!(stream[2], 0, "the first of three blocks is not the last");
    assert_eq!(stream.len(), 2 + 3 * 5 + data.len() + 4);
}

#[test]
fn no_data_is_one_empty_block() {
    assert_eq!(zlib_stored(&[]), [0x78, 0x01, 0x01, 0x00, 0x00, 0xFF, 0xFF, 0, 0, 0, 1]);
    let mut out = vec![9];
    chunk(&mut out, b"IEND", &[]);
    assert_eq!(out, [9, 0, 0, 0, 0, 0x49, 0x45, 0x4E, 0x44, 0xAE, 0x42, 0x60, 0x82]);
}

/// Reads dotted quads, with a port or without.
fn read(token: &str) -> Reading {
    let host = |text: &str| {
        let parts: Vec<&str> = text.split('.').collect();
        if parts.len() != 4 {
            return None;
        }
        let mut bits = 0u32;
        for part in parts {
            bits = bits * 256 + u32::from(part.parse::<u8>().ok()?);
        }
        Some(Address::V4(bits))
    };
    match token.rsplit_once(':') {
        Some((name, port)) => match (host(name), port.parse()) {
            (Some(address), Ok(port)) => Reading::Endpoint(address, port),
            _ => Reading::Neither,
        },
        None => match host(token) {
            Some(address) => Reading::Host(address),
            None => Reading::Neither,
        },
    }
}

fn snapshot(status: Status, stats: Stats, log: Vec<String>) -> Snapshot {
    Snapshot { status, stats, level_bits: 0.5f32.to_bits(), log }
}

#[test]
fn a_redacted_snapshot_carries_documentation_addresses_only() {
    let mut snapshot = snapshot(
        Status::Running,
        Stats {
            reachable: vec!["100.90.80.70:42100".into(), "198.51.100.23:42100".into()],
            endpoint: "UMC204HD 192k".into(),
            game_device: "UMC204HD 192k".into(),
            ..Stats::default()
        },
        vec![
            "sender connected from 127.0.0.1:63621".into(),
            "announcing on 198.51.100.23".into(),
        ],
    );

    redact(&mut snapshot, &read);

    assert_eq!(snapshot.stats.reachable, ["192.168.1.20:42100", "100.64.0.5:42100"]);
    assert_eq!(
        snapshot.log[0], "sender connected from 127.0.0.1:63621",
        "loopback identifies nobody and says something true about the test"
    );
    assert_eq!(snapshot.log[1], "announcing on 192.168.1.20");
    assert_eq!(snapshot.stats.endpoint, "UMC204HD 192k", "a documented device is left alone");
}

#[test]
fn scrubbing_leaves_everything_that_is_not_an_address() {
    let line = "playing fill_ms=19.4 trim_ppm=-485 packets=201 rate 48000 crest 1.41";
    assert_eq!(scrub_addrs(line, &read), line);
    assert_eq!(
        scrub_addrs("from 198.51.100.23:4711, to 0.0.0.0.", &read),
        "from 192.168.1.20:4711, to 0.0.0.0."
    );
}

#[test]
fn an_address_is_replaced_whatever_punctuation_stands_around_it() {
    assert_eq!(scrub_addrs("lost 198.51.100.23.", &read), "lost 192.168.1.20.");
    assert_eq!(
        scrub_addrs("failed: connecting to 203.0.113.7:42100: connection refused", &read),
        "failed: connecting to 192.168.1.20:42100: connection refused"
    );
    assert_eq!(scrub_addrs("peer:203.0.113.7...", &read), "peer:192.168.1.20...");
    assert_eq!(scrub_addrs("kept 127.0.0.1: and 1.41.", &read), "kept 127.0.0.1: and 1.41.");
    assert_eq!(scrub_addrs("::..:", &read), "::..:");
}

#[test]
fn a_picture_hides_the_machine_in_status_and_log() {
    let stats = || Stats {
        endpoint: "Scarlett 2i2 USB".into(),
        local_addr: "198.51.100.23:42100".into(),
        ..Stats::default()
    };
    let mut shot = snapshot(
        Status::Failed("connecting to 203.0.113.7:42100: refused".into()),
        stats(),
        vec!["rendering to Scarlett 2i2 USB".into()],
    );
    redact(&mut shot, &read);
    assert_eq!(shot.status, Status::Failed("connecting to 192.168.1.20:42100: refused".into()));
    assert_eq!(shot.stats.local_addr, "192.168.1.20:42100");
    assert_eq!(shot.stats.endpoint, "Audio Interface");
    assert_eq!(shot.log, ["rendering to Audio Interface"]);

    let mut shot = snapshot(Status::Starting("opening Scarlett 2i2 USB".into()), stats(), vec![]);
    redact(&mut shot, &read);
    assert_eq!(shot.status, Status::Starting("opening Audio Interface".into()));
}

#[test]
fn undocumented_devices_are_dropped_rather_than_renamed() {
    let mut names = vec!["MacBook Pro Microphone".to_string(), "UMC204HD 192k".to_string()];
    retain_documented_devices(&mut names);
    assert_eq!(names, ["UMC204HD 192k"]);
}

#[test]
fn an_undocumented_running_device_shows_as_generic() {
    assert_eq!(documented_device("Scarlett 2i2 USB"), "Audio Interface");
    assert_eq!(documented_device(""), "", "an empty name stays empty");
}

#[test]
fn a_picture_waits_for_its_frames_and_is_taken_once() {
    assert_eq!(warmup_frames(None), WARMUP_FRAMES);
    assert_eq!(warmup_frames(Some("300")), 300);
    assert_eq!(warmup_frames(Some("+4")), 4);
    for wrong in ["", "+", "-1", "3.5", " 7", "4294967296", "99999999999999999999"] {
        assert_eq!(warmup_frames(Some(wrong)), WARMUP_FRAMES, "{wrong:?}");
    }
    assert_eq!(warmup_frames(Some("4294967295")), u32::MAX);

    let mut remaining = 3;
    let mut steps = Vec::new();
    for _ in 0..5 {
        let (left, step) = count_down(remaining);
        remaining = left;
        steps.push(step);
    }
    assert_eq!(
        steps,
        [ShotStep::Wait, ShotStep::Wait, ShotStep::Ask, ShotStep::Collect, ShotStep::Collect]
    );

    let args = |list: &[&str]| list.iter().map(|s| s.to_string()).collect::<Vec<String>>();
    assert_eq!(
        screenshot_target(&args(&["--x", "--screenshot", "a.png", "--screenshot", "b.png"])),
        Some("a.png".to_string())
    );
    assert_eq!(screenshot_target(&args(&["--screenshot"])), None);
    assert_eq!(screenshot_target(&args(&["a.png"])), None);
}

fn tray_state(status: &str, detail: &str, running: bool) -> TrayState {
    TrayState { status: status.into(), detail: detail.into(), running }
}

#[test]
fn the_summary_omits_an_empty_detail() {
    assert_eq!(tray_state("Idle", "", false).summary(), "Idle");
    assert_eq!(tray_state("Running", "-14 dB", true).summary(), "Running · -14 dB");
}

#[test]
fn the_action_names_the_next_action_not_the_current_state() {
    assert_eq!(tray_state("Running", "", true).action_label(), "Stop");
    assert_eq!(tray_state("Idle", "", false).action_label(), "Start");
}

#[test]
fn a_tray_is_rewritten_only_when_it_has_changed() {
    let mut tray =
        Tray::new(tray_state("Idle", "", false), "a".into(), "w".into(), "q".into());
    assert!(!tray.update(&tray_state("Idle", "", false)));
    assert!(tray.update(&tray_state("Running", "-14 dB", true)));
    assert!(!tray.update(&tray_state("Running", "-14 dB", true)));
    assert_eq!(tray.poll(None), None);
    assert_eq!(tray.poll(Some(&"a".to_string())), Some(TrayCommand::StartStop));
    assert_eq!(tray.poll(Some(&"w".to_string())), Some(TrayCommand::ShowWindow));
    assert_eq!(tray.poll(Some(&"q".to_string())), Some(TrayCommand::Quit));
    assert_eq!(tray.poll(Some(&"x".to_string())), None);
    assert_eq!(act_on(TrayCommand::StartStop, true), TrayAction::Stop);
    assert_eq!(act_on(TrayCommand::StartStop, false), TrayAction::Start);
    assert_eq!(act_on(TrayCommand::ShowWindow, false), TrayAction::Raise);
    assert_eq!(act_on(TrayCommand::Quit, true), TrayAction::Close);
}

fn app() -> App {
    App::new(autostart::status(Platform::Windows, None, None))
}

fn names(list: &[&str]) -> Vec<String> {
    list.iter().map(|s| s.to_string()).collect()
}

#[test]
fn a_refresh_picks_sensible_defaults() {
    let mut app = app();
    app.refresh_devices(
        Ok(names(&["UMC204HD 192k", "Widget Output"])),
        Ok(names(&["UMC204HD 192k", "Widget Input"])),
        false,
    );
    assert_eq!(app.send_choice, Choice::Device("UMC204HD 192k".into()));
    assert_eq!(app.recv_choice, Choice::Device("Widget Output".into()), "a reliable pairing");
    assert_eq!(app.mics(), ["Widget Output", "UMC204HD 192k"]);
    assert_eq!(app.device_error, None);

    app.refresh_devices(Err("no host".into()), Err("no host either".into()), false);
    assert!(app.inputs.is_empty() && app.outputs.is_empty() && app.routes.is_empty());
    assert_eq!(app.device_error.as_deref(), Some("no host either"));
    assert_eq!(app.send_choice, Choice::Device("UMC204HD 192k".into()), "a choice is kept");

    let mut picture = self::app();
    picture.refresh_devices(Ok(names(&["My Mic", "UMC204HD"])), Ok(vec![]), true);
    assert_eq!(picture.inputs, ["UMC204HD"]);
}

#[test]
fn start_translates_the_settings() {
    let mut app = app();
    app.host = "  10.0.0.2 ".into();
    match app.start() {
        Start::Sender(config) => {
            assert_eq!(config.host, "10.0.0.2");
            assert_eq!(config.source, Source::Tone(TONE_HZ_BITS));
            assert_eq!(config.packet_frames, 240);
        }
        Start::Receiver(_) => panic!("should send"),
    }

    app.mode = Mode::Receive;
    app.wav_path = " a.wav ".into();
    let sink = |app: &App| match app.start() {
        Start::Receiver(config) => config.sink,
        Start::Sender(_) => panic!("should receive"),
    };
    assert_eq!(sink(&app), Sink::Wav("a.wav".into()));
    app.recv_choice = Choice::Device("CABLE Output".into());
    assert_eq!(sink(&app), Sink::Device(Some("CABLE Output".into())), "no route is known");
    app.routes = vec![MicRoute {
        game_mic: "CABLE Output".into(),
        render_into: "CABLE Input".into(),
        how: Pairing::NamedPair,
    }];
    assert_eq!(sink(&app), Sink::Device(Some("CABLE Input".into())));
}

fn receiver(address: &str, port: u16, label: &str) -> Receiver {
    Receiver { address: address.into(), control_port: port, label: label.into() }
}

#[test]
fn a_search_is_honest_about_what_it_found() {
    let mut app = app();
    let note = app.find_note();
    assert!(note.text.starts_with("Find searches the local network only"));
    assert_eq!(note.tone, Tone::Weak);

    app.host = " box ".into();
    assert_eq!(app.start_find(), Some(("box".to_string(), 42_100)));
    assert_eq!(app.start_find(), None, "one search at a time");
    assert_eq!(app.find_note().text, "Looking on the local network...");

    app.poll_find(Err("no interface".into()));
    assert_eq!(app.find_note().text, "search failed: no interface");
    assert_eq!(app.find_note().tone, Tone::Bad);

    app.start_find();
    app.poll_find(Ok(FindReport { found: vec![], host_answers: true }));
    let note = app.find_note();
    assert_eq!(
        note.text,
        "Discovery found nothing, but box is answering on 42100 — press Start. Something on the \
         receiver is blocking UDP 42102, usually a firewall. That affects Find only, not audio."
    );
    assert_eq!(note.tone, Tone::Good);

    app.start_find();
    app.poll_find(Ok(FindReport { found: vec![], host_answers: false }));
    assert!(app.find_note().text.starts_with("Nothing answered."));
    assert_eq!(app.find_note().tone, Tone::Warn);

    app.start_find();
    app.poll_find(Ok(FindReport {
        found: vec![receiver("10.0.0.2", 4_000, "attic")],
        host_answers: false,
    }));
    assert_eq!((app.host.as_str(), app.port), ("10.0.0.2", 4_000));
    assert_eq!(app.find_note().text, "Found attic");

    app.start_find();
    app.poll_find(Ok(FindReport {
        found: vec![receiver("a", 1, "x"), receiver("b", 2, "y"), receiver("c", 3, "z")],
        host_answers: false,
    }));
    assert_eq!(app.find_note().text, "Found 3 receivers; using a. Others: b, c");
    assert!(tries_host(0, "box"));
    assert!(!tries_host(0, "") && !tries_host(1, "box"));
}

#[test]
fn the_receive_side_says_where_audio_goes() {
    let mut app = app();
    let texts = |app: &App| app.sink_notes().into_iter().map(|n| n.text).collect::<Vec<_>>();
    assert_eq!(texts(&app), ["Writes to a file. Useful for testing with no hardware."]);
    assert!(!app.offers_autostart());
    app.recv_choice = Choice::Device("UMC".into());
    assert!(app.offers_autostart());
    assert!(texts(&app)[0].starts_with("No microphone on this machine"));
    app.routes = vec![MicRoute {
        game_mic: "Other".into(),
        render_into: "Other \"in\"".into(),
        how: Pairing::SameName,
    }];
    assert!(texts(&app)[0].starts_with("Could not work out"));
    app.recv_choice = Choice::Device("Other".into());
    assert_eq!(
        texts(&app),
        [
            "Audio is sent to \"Other \\\"in\\\"\"",
            "Note: same name in both directions — may be a duplex interface rather than a cable"
        ]
    );

    assert_eq!(app.autostart_note(), None);
    let stale = autostart::status(Platform::Windows, Some("x".into()), Some("y"));
    app.autostart_changed(Ok(()), stale);
    assert!(app.autostart_note().expect("a warning").text.starts_with("The registered entry"));
    let off = autostart::status(Platform::Windows, None, None);
    app.autostart_changed(Err("denied".into()), off);
    assert_eq!(app.autostart_note().expect("an error").text, "could not change it: denied");
    assert!(!app.autostart.enabled);
    assert_eq!(autostart_args(), ["--auto-receive"]);
    assert!(wants_auto_receive(&names(&["x", "--auto-receive"])));
    assert!(!wants_auto_receive(&names(&["--auto-receiver"])));
}

#[test]
fn the_gain_warns_above_twelve_decibels_only() {
    let mut app = app();
    for (db, warns) in
        [(12.0f32, false), (12.1, true), (30.0, true), (-30.0, false), (f32::NAN, false)]
    {
        app.gain_db_bits = db.to_bits();
        assert_eq!(app.gain_warning().is_some(), warns, "{db}");
    }
}

#[test]
fn controls_say_why_nothing_happens() {
    let mut app = app();
    assert!(app.missing_host());
    app.host = " \t ".into();
    assert!(app.missing_host());
    app.host = "box".into();
    assert!(!app.missing_host());
    assert!(app.tone_note().is_some());
    app.send_choice = Choice::Device("Mic".into());
    assert!(app.tone_note().is_none());

    assert!(app.control_notes().is_empty());
    app.last = Some(snapshot(Status::Failed("refused".into()), Stats::default(), vec![]));
    app.device_error = Some("no host".into());
    let notes = app.control_notes();
    assert_eq!(notes[0].text, "refused");
    assert_eq!(notes[1].text, "device enumeration failed: no host");
    assert_eq!(app.status_note().text, "Failed");
    assert_eq!(app.status_note().tone, Tone::Bad);
}

#[test]
fn the_tray_shows_level_and_buffer() {
    let mut app = app();
    assert_eq!(app.tray_state(false, None, "").summary(), "Idle");
    app.last = Some(snapshot(Status::Running, Stats::default(), vec![]));
    assert_eq!(app.tray_state(true, Some("-14"), "19.4").summary(), "Running · -14 dB");
    app.mode = Mode::Receive;
    assert_eq!(app.tray_state(true, Some("-14"), "19.4").summary(), "Running · -14 dB · 19.4 ms");
    assert_eq!(app.tray_state(true, None, "0.0").detail, "no signal · 0.0 ms");
    assert_eq!(repaint_after(true), 33);
    assert_eq!(repaint_after(false), 250);
}

#[test]
fn tiles_show_a_dash_before_anything_has_run() {
    let mut app = app();
    let shown = |app: &App, running: bool| {
        app.stats_tiles(running, "19.4", "+62", "+0.0")
            .into_iter()
            .map(|t| format!("{}={}{}", t.name, t.value, if t.bad { "!" } else { "" }))
            .collect::<Vec<_>>()
    };
    assert_eq!(shown(&app, false), ["packets=—", "format=—", "dropped=—", "gain=+0.0"]);
    app.mode = Mode::Receive;
    app.last = Some(snapshot(
        Status::Running,
        Stats {
            packets: 7,
            sample_rate: 44_100,
            channels: 2,
            underruns: 3,
            game_device: "CABLE Output".into(),
            reachable: names(&["10.0.0.2:1", "10.0.0.3:1"]),
            ..Stats::default()
        },
        (0..8).map(|i| format!("line {i}")).collect(),
    ));
    assert_eq!(
        shown(&app, true),
        [
            "packets=7",
            "format=44k·2ch",
            "buffer=19.4",
            "trim ppm=+62",
            "underruns=3!",
            "overruns=0",
            "lost=0",
            "late=0"
        ]
    );
    assert_eq!(
        app.banners(),
        [
            ("select this in the game", "CABLE Output".to_string()),
            ("send to", "10.0.0.2:1  or  10.0.0.3:1".to_string())
        ]
    );
    assert_eq!(app.log_tail(), ["line 2", "line 3", "line 4", "line 5", "line 6", "line 7"]);
    let rows: Vec<usize> = (0..9).filter(|i| ends_row(*i)).collect();
    assert_eq!(rows, [3, 7]);
    assert_eq!(Mode::Send.caption(), "This machine captures and sends");
}
