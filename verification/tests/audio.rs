//! Naming, finding, pairing and opening devices.

use micbridge::audio::capture::{
    capture_block, device_name, probe, start_capture, CaptureConfig, DeviceDefaults,
};
use micbridge::audio::devices::{
    describe_default_devices, find_device, list_devices, Direction, Pick,
};
use micbridge::audio::render::{self, RenderConfig};
use micbridge::audio::tone;
use micbridge::audio::virtual_device::{
    detect, find_device_named, route_for_render_device, routes, swap_first,
    Pairing,
};
use micbridge::signal::gain::Gain;
use micbridge::signal::level::LevelMeter;
use micbridge::signal::ring::frame_channel;

/// Names as Windows reports them with a cable installed alongside real hardware.
fn windows_with_a_cable() -> (Vec<String>, Vec<String>) {
    let inputs = vec![
        "Microphone (Realtek(R) Audio)".to_string(),
        "CABLE Output (VB-Audio Virtual Cable)".to_string(),
    ];
    let outputs = vec![
        "Speakers (Realtek(R) Audio)".to_string(),
        "CABLE Input (VB-Audio Virtual Cable)".to_string(),
    ];
    (inputs, outputs)
}

#[test]
fn finds_the_playback_half_that_feeds_a_microphone() {
    let (inputs, outputs) = windows_with_a_cable();
    let routes = routes(&inputs, &outputs);

    assert_eq!(routes.len(), 1, "one cable, one route: {routes:?}");
    assert_eq!(routes[0].game_mic, "CABLE Output (VB-Audio Virtual Cable)");
    assert_eq!(routes[0].render_into, "CABLE Input (VB-Audio Virtual Cable)");
    assert_eq!(routes[0].how, Pairing::NamedPair);
}

#[test]
fn real_speakers_and_microphones_are_not_a_route() {
    let (inputs, outputs) = windows_with_a_cable();
    let routes = routes(&inputs, &outputs);
    assert!(
        !routes.iter().any(|r| r.render_into.contains("Speakers")),
        "must not offer to render into real speakers: {routes:?}"
    );
}

#[test]
fn no_product_names_are_required() {
    let inputs = vec!["Widget Output".to_string()];
    let outputs = vec!["Widget Input".to_string()];
    let routes = routes(&inputs, &outputs);
    assert_eq!(routes.len(), 1, "pairing must be structural, not a vendor list");
    assert_eq!(routes[0].render_into, "Widget Input");
    assert_eq!(routes[0].how, Pairing::NamedPair);
}

#[test]
fn a_duplex_interface_is_offered_only_as_a_weak_pairing() {
    let inputs = vec!["UMC204HD 192k".to_string()];
    let outputs = vec!["UMC204HD 192k".to_string()];
    let routes = routes(&inputs, &outputs);

    assert_eq!(routes.len(), 1);
    assert_eq!(routes[0].how, Pairing::SameName);
    assert!(!routes[0].how.is_reliable(), "a duplex interface is not a known-good route");
}

#[test]
fn reliable_routes_are_listed_first() {
    let inputs = vec!["UMC204HD 192k".to_string(), "Widget Output".to_string()];
    let outputs = vec!["UMC204HD 192k".to_string(), "Widget Input".to_string()];
    let routes = routes(&inputs, &outputs);

    assert_eq!(routes.len(), 2);
    assert_eq!(routes[0].game_mic, "Widget Output", "the named pair should sort first");
    assert!(routes[0].how.is_reliable());
    assert!(!routes[1].how.is_reliable());
}

#[test]
fn a_machine_with_no_cable_offers_nothing() {
    let inputs = vec!["Microphone (Realtek(R) Audio)".to_string()];
    let outputs = vec!["Speakers (Realtek(R) Audio)".to_string()];
    assert!(routes(&inputs, &outputs).is_empty());
}

#[test]
fn the_trailing_suffix_is_not_rewritten() {
    let swapped = swap_first("CABLE Output (Vendor Output Device)", "output", "Input")
        .expect("contains output");
    assert_eq!(swapped, "CABLE Input (Vendor Output Device)");
}

#[test]
fn matching_ignores_case() {
    let inputs = vec!["cable output (vendor)".to_string()];
    let outputs = vec!["CABLE INPUT (Vendor)".to_string()];
    assert_eq!(routes(&inputs, &outputs).len(), 1, "case should not decide this");
}

#[test]
fn pairs_when_only_the_leading_name_matches() {
    let inputs = vec!["CABLE Output (VB-Audio Virtual Cable)".to_string()];
    let outputs = vec!["CABLE Input (VB-Audio Point)".to_string()];
    let routes = routes(&inputs, &outputs);
    assert_eq!(routes.len(), 1);
    assert_eq!(routes[0].render_into, "CABLE Input (VB-Audio Point)");
}

#[test]
fn a_render_device_can_be_traced_back_to_its_microphone() {
    let (inputs, outputs) = windows_with_a_cable();
    let all = routes(&inputs, &outputs);

    let found = route_for_render_device("CABLE Input (VB-Audio Virtual Cable)", &all)
        .expect("should trace back");
    assert_eq!(found.game_mic, "CABLE Output (VB-Audio Virtual Cable)");

    assert!(
        route_for_render_device("Speakers (Realtek(R) Audio)", &all).is_none(),
        "real speakers feed no microphone"
    );
}

#[test]
fn a_name_whose_letters_change_length_is_cut_where_the_word_stands() {
    // The dotted capital I takes more bytes in lower case, and the capital sharp s
    // fewer.
    assert_eq!(swap_first("CABLE", "output", "Input"), None);
    assert_eq!(swap_first("İ Output", "output", "Input"), Some("İ Input".into()));
    assert_eq!(swap_first("ẞ Output", "output", "Input"), Some("ẞ Input".into()));
    assert_eq!(swap_first("İ Output Device", "output", "Input"), Some("İ Input Device".into()));
    let found = routes(&["İ Output".to_string()], &["İ Input".to_string()]);
    assert_eq!(found.len(), 1);
    assert_eq!(found[0].render_into, "İ Input");
}

#[test]
fn devices_without_a_readable_name_are_left_out() {
    let inputs = [None, Some("Widget Output".to_string())];
    let outputs = [Some("Widget Input".to_string()), None];
    let found = detect(&inputs, &outputs);
    assert_eq!(found.len(), 1);
    assert_eq!(found[0].render_into, "Widget Input");
    assert_eq!(
        find_device_named("widget INPUT (x)", &["Widget Input (y)".to_string()]),
        Some("Widget Input (y)".to_string())
    );
}

#[test]
fn listing_devices_does_not_fail_on_a_machine_with_none() {
    assert!(list_devices(&[]).is_empty());
    assert_eq!(Direction::Input.label(), "input");
    assert_eq!(Direction::Output.label(), "output");
}

#[test]
fn a_missing_device_names_the_alternatives() {
    let message = find_device(Direction::Output, Some("definitely-not-a-real-device"), true, &[])
        .expect_err("a device with this name should not exist");
    assert!(message.contains("Available:"), "error should list alternatives: {message}");
    assert_eq!(
        message,
        "no output device matching \"definitely-not-a-real-device\". Available: none"
    );

    let names = [Some("Speakers".to_string()), None, Some("Headphones".to_string())];
    assert_eq!(
        find_device(Direction::Output, Some("x\"y"), true, &names),
        Err("no output device matching \"x\\\"y\". Available: Speakers, Headphones".to_string())
    );
    assert_eq!(
        find_device(Direction::Output, Some("HEAD"), false, &names),
        Ok(Pick::Listed(2))
    );
    assert_eq!(find_device(Direction::Input, None, true, &names), Ok(Pick::Default));
    assert_eq!(
        find_device(Direction::Input, None, false, &names),
        Err("no default input device".to_string())
    );
}

#[test]
fn the_defaults_are_described_in_one_line() {
    assert_eq!(
        describe_default_devices(Some("Mic"), None),
        "default input \"Mic\", default output \"none\""
    );
}

#[test]
fn default_format_is_48k_stereo() {
    let f = tone::format(None, None, 240);
    assert_eq!(f.sample_rate, 48_000);
    assert_eq!(f.channels, 2);
    assert_eq!(f64::from(f.frames_per_packet) * 1_000.0 / f64::from(f.sample_rate), 5.0);
}

fn microphone() -> DeviceDefaults {
    DeviceDefaults {
        name: Some("Mic".to_string()),
        sample_rate: 44_100,
        channels: 1,
        float_samples: true,
    }
}

#[test]
fn a_capture_takes_the_device_as_it_is_unless_told_otherwise() {
    let mut config = CaptureConfig {
        device: None,
        sample_rate: None,
        channels: None,
        buffer_frames: None,
        gain: Gain::unity(),
    };
    let (name, format) = probe(&config, &microphone(), 240);
    assert_eq!(name, "Mic");
    assert_eq!((format.sample_rate, format.channels), (44_100, 1));

    config.sample_rate = Some(48_000);
    let format = start_capture(&config, &microphone(), "F32", 1, 240).expect("starts");
    assert_eq!(format.sample_rate, 48_000);
    assert!(start_capture(&config, &microphone(), "F32", 2, 240).is_err(), "ring is stereo");
    let mut integer = microphone();
    integer.float_samples = false;
    assert!(start_capture(&config, &integer, "I16", 1, 240).is_err(), "not floating point");
    assert_eq!(device_name(&None), "<unnamed>");
}

#[test]
fn a_capture_block_is_metered_after_gain() {
    let (mut producer, mut consumer) = frame_channel(1, 4);
    let mut meter = LevelMeter::new();
    let block: Vec<u32> = [0.25f32, -0.5].iter().map(|s| s.to_bits()).collect();
    let double = |s: u32| (f32::from_bits(s) * 2.0).to_bits();
    let lost = capture_block(
        &mut producer,
        &mut meter,
        &block,
        Gain::with_factor(2.0f32.to_bits()),
        double,
        double,
    );
    assert_eq!(lost, 0);
    assert_eq!(f32::from_bits(meter.take()), 1.0);
    let mut out = vec![0; 2];
    assert_eq!(consumer.pop_frames(&mut out), 2);
    assert_eq!(out, [0.5f32.to_bits(), (-1.0f32).to_bits()]);
}

#[test]
fn an_output_is_opened_as_the_device_has_it() {
    let config =
        RenderConfig { device: None, sample_rate: None, channels: None, buffer_frames: Some(64) };
    let target = render::open(&config, &microphone(), "F32").expect("opens");
    assert_eq!((target.sample_rate, target.channels, target.buffer_frames), (44_100, 1, Some(64)));
    assert!(render::start(&target, 1).is_ok());
    assert!(render::start(&target, 2).is_err(), "the pipeline renders stereo");
}
