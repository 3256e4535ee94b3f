//! The audio path, from datagrams to the device buffer.

use micbridge::protocol::api::{StreamFormat, WireSampleFormat};
use micbridge::signal::channels::{ChannelMap, Mapping};
use micbridge::signal::gain::Gain;
use micbridge::signal::level::{block_peak, LevelMeter};
use micbridge::signal::pcm::{encode_into, i16_to_payload, payload_to_i16};
use micbridge::signal::pipeline::{
    build, FillReport, FillStart, MediaSink, PipelineConfig, PlaybackSource, SCRATCH_FRAMES,
};
use micbridge::signal::ring::frame_channel;
use micbridge::signal::sequencer::Sequencer;

/// A sample as the ring carries it.
fn bits(samples: &[f32]) -> Vec<u32> {
    samples.iter().map(|s| s.to_bits()).collect()
}

fn i16_to_f32(s: i16) -> f32 {
    f32::from(s) / 32_768.0
}

fn f32_to_i16(s: f32) -> i16 {
    (s * 32_768.0).clamp(-32_768.0, 32_767.0) as i16
}

fn mean(frame: &[f32]) -> f32 {
    frame.iter().sum::<f32>() / frame.len() as f32
}

#[test]
fn frames_survive_the_round_trip_in_order() {
    let (mut prod, mut cons) = frame_channel(2, 8);
    let dropped = prod.push_frames(&bits(&[1.0, -1.0, 2.0, -2.0]));
    assert_eq!(dropped, 0);
    assert_eq!(cons.occupied_frames(), 2);

    let mut out = vec![0; 4];
    assert_eq!(cons.pop_frames(&mut out), 2);
    assert_eq!(out, bits(&[1.0, -1.0, 2.0, -2.0]));
    assert_eq!(cons.occupied_frames(), 0);
}

#[test]
fn a_full_ring_drops_whole_frames_and_reports_them() {
    let (mut prod, _cons) = frame_channel(2, 2);
    let dropped = prod.push_frames(&bits(&[1.0, 1.0, 2.0, 2.0, 3.0, 3.0]));
    assert_eq!(dropped, 1, "one frame past capacity");
}

#[test]
fn pop_frame_reports_empty_without_touching_the_buffer() {
    let (_prod, mut cons) = frame_channel(2, 4);
    let mut frame = bits(&[7.0, 7.0]);
    assert!(!cons.pop_frame(&mut frame));
    assert_eq!(frame, bits(&[7.0, 7.0]), "left the caller's buffer alone");
}

#[test]
fn wraps_around_capacity_repeatedly() {
    let (mut prod, mut cons) = frame_channel(1, 4);
    let mut frame = vec![0; 1];
    for i in 0..100 {
        assert_eq!(prod.push_frames(&bits(&[i as f32])), 0);
        assert!(cons.pop_frame(&mut frame));
        assert_eq!(frame[0], (i as f32).to_bits());
    }
}

#[test]
fn vacant_and_occupied_agree_with_capacity() {
    let (mut prod, mut cons) = frame_channel(2, 10);
    assert_eq!(prod.vacant_frames(), 10);
    prod.push_frames(&[0; 8]); // 4 frames
    assert_eq!(cons.occupied_frames(), 4);
    assert_eq!(prod.vacant_frames(), 6);
}

#[test]
fn a_stray_sample_is_not_pushed() {
    // With one sample of a stereo frame offered, a reader must get nothing
    // rather than half a frame.
    let (mut prod, mut cons) = frame_channel(2, 4);
    prod.push_frames(&bits(&[0.5]));
    let mut frame = vec![0; 2];
    assert!(!cons.pop_frame(&mut frame), "should refuse a partial frame");
    assert_eq!(cons.occupied_frames(), 0, "half a frame is not a frame");
    prod.push_frames(&bits(&[1.0, 2.0, 3.0]));
    assert_eq!(cons.occupied_frames(), 1);
    assert!(cons.pop_frame(&mut frame));
    assert_eq!(frame, bits(&[1.0, 2.0]));
}

#[test]
fn scaling_on_the_way_in_keeps_order_across_chunks() {
    let (mut prod, mut cons) = frame_channel(1, 2_000);
    let samples: Vec<u32> = (0..1_500).collect();
    assert_eq!(prod.push_frames_scaled(&samples, |s| s + 7), 0);
    let mut out = vec![0; 1_500];
    assert_eq!(cons.pop_frames(&mut out), 1_500);
    assert_eq!(out, (7..1_507).collect::<Vec<u32>>());
    assert_eq!(prod.push_frames_scaled(&vec![1; 2_100], |s| s), 100);
}

const SEQ_CH: usize = 2;
const SEQ_FPP: usize = 4;

/// A packet whose samples encode their own frame index.
fn packet(first_frame: u64) -> Vec<i16> {
    (0..SEQ_FPP)
        .flat_map(|f| {
            let idx = (first_frame as usize + f) as i16;
            [idx * 10, idx * 10 + 1]
        })
        .collect()
}

fn frame_indices(out: &[i16]) -> Vec<i16> {
    out.chunks(SEQ_CH).map(|frame| frame[0] / 10).collect()
}

fn sequencer() -> Sequencer {
    Sequencer::new(SEQ_CH, SEQ_FPP, 4)
}

fn push(seq: &mut Sequencer, at: u64, samples: &[i16], out: &mut Vec<i16>) {
    assert!(seq.has_room(at, samples));
    seq.push(at, samples, out);
}

#[test]
fn in_order_packets_pass_straight_through() {
    let mut seq = sequencer();
    let mut out = Vec::new();
    for i in 0..3u64 {
        push(&mut seq, i * SEQ_FPP as u64, &packet(i * SEQ_FPP as u64), &mut out);
    }
    assert_eq!(frame_indices(&out), (0..12).collect::<Vec<i16>>());
    assert_eq!(seq.stats().frames_lost, 0);
    assert_eq!(seq.stats().packets_buffered, 0);
}

#[test]
fn stream_origin_comes_from_the_first_packet_not_from_zero() {
    let mut seq = sequencer();
    let mut out = Vec::new();
    push(&mut seq, 1_000_000, &packet(0), &mut out);
    assert_eq!(out.len(), SEQ_FPP * SEQ_CH);
    assert_eq!(seq.stats().frames_lost, 0);
}

#[test]
fn a_reordered_packet_is_held_and_then_released_in_order() {
    let mut seq = sequencer();
    let mut out = Vec::new();

    push(&mut seq, 0, &packet(0), &mut out);
    // Packet 2 overtakes packet 1.
    push(&mut seq, 8, &packet(8), &mut out);
    assert_eq!(
        frame_indices(&out),
        (0..4).collect::<Vec<i16>>(),
        "held back, nothing emitted yet"
    );

    push(&mut seq, 4, &packet(4), &mut out);
    assert_eq!(frame_indices(&out), (0..12).collect::<Vec<i16>>(), "gap filled, both released");
    assert_eq!(seq.stats().frames_lost, 0, "reordering is not loss");
    assert_eq!(seq.stats().packets_buffered, 1);
}

#[test]
fn a_lost_packet_becomes_silence_once_the_window_fills() {
    let mut seq = sequencer();
    let mut out = Vec::new();

    push(&mut seq, 0, &packet(0), &mut out);
    // The packet at frame 4 never arrives. Five more turn up, exceeding the
    // window of four.
    for i in 2..=6u64 {
        push(&mut seq, i * SEQ_FPP as u64, &packet(i * SEQ_FPP as u64), &mut out);
    }

    assert_eq!(seq.stats().frames_lost, SEQ_FPP as u64, "exactly the missing packet");
    let silent_frames = out.chunks(SEQ_CH).filter(|f| f[0] == 0 && f[1] == 0).count();
    assert_eq!(silent_frames, SEQ_FPP, "the gap is filled with silence, not skipped");
    // Six real packets plus the one packet's worth of substituted silence.
    assert_eq!(out.len() / SEQ_CH, 7 * SEQ_FPP);
}

#[test]
fn late_packets_are_dropped_rather_than_stalling_the_stream() {
    let mut seq = sequencer();
    let mut out = Vec::new();
    push(&mut seq, 0, &packet(0), &mut out);
    push(&mut seq, 4, &packet(4), &mut out);
    out.clear();

    push(&mut seq, 0, &packet(0), &mut out); // arrives after its slot was played
    assert!(out.is_empty());
    assert_eq!(seq.stats().packets_late, 1);
}

#[test]
fn duplicates_are_counted_and_ignored() {
    let mut seq = sequencer();
    let mut out = Vec::new();
    push(&mut seq, 0, &packet(0), &mut out);
    push(&mut seq, 8, &packet(8), &mut out);
    push(&mut seq, 8, &packet(8), &mut out); // duplicate of a pending packet
    assert_eq!(seq.stats().packets_duplicate, 1);
    assert_eq!(seq.pending_frames(), SEQ_FPP);
}

#[test]
fn reset_reestablishes_the_origin() {
    let mut seq = sequencer();
    let mut out = Vec::new();
    push(&mut seq, 0, &packet(0), &mut out);
    seq.reset();
    out.clear();
    // A frame index far in the past would be "late" without the reset.
    push(&mut seq, 0, &packet(0), &mut out);
    assert_eq!(out.len(), SEQ_FPP * SEQ_CH);
    assert_eq!(seq.stats().packets_late, 0);
}

#[test]
fn equal_counts_pass_through_untouched() {
    let map = ChannelMap::new(2, 2);
    assert!(map.is_passthrough());
    assert_eq!(map.mapping(), Mapping::Passthrough);

    let src = [0.1, -0.2, 0.3, -0.4];
    let mut dst = [0.0; 4];
    map.apply(&src, &mut dst, 0.0, mean);
    assert_eq!(dst, src);
}

#[test]
fn mono_fans_out_to_every_channel() {
    let map = ChannelMap::new(1, 2);
    assert_eq!(map.mapping(), Mapping::FanOutMono);

    let mut dst = [0.0; 6];
    map.apply(&[0.5, -0.25, 1.0], &mut dst, 0.0, mean);
    assert_eq!(dst, [0.5, 0.5, -0.25, -0.25, 1.0, 1.0]);
}

#[test]
fn mono_fans_out_to_more_than_two() {
    let map = ChannelMap::new(1, 4);
    let mut dst = [0.0; 8];
    map.apply(&[0.5, -0.5], &mut dst, 0.0, mean);
    assert_eq!(dst, [0.5, 0.5, 0.5, 0.5, -0.5, -0.5, -0.5, -0.5]);
}

#[test]
fn downmix_averages_rather_than_dropping_a_channel() {
    let map = ChannelMap::new(2, 1);
    assert_eq!(map.mapping(), Mapping::DownmixToMono);

    let mut dst = [0.0; 2];
    map.apply(&[0.0, 1.0, 0.5, 0.5], &mut dst, 0.0, mean);
    assert_eq!(dst, [0.5, 0.5]);

    // A hard-right signal survives at half amplitude rather than disappearing.
    let mut dst = [0.0; 1];
    map.apply(&[0.0, 0.8], &mut dst, 0.0, mean);
    assert!((dst[0] - 0.4).abs() < 1e-6);
}

#[test]
fn widening_pads_the_extra_channels_with_silence() {
    let map = ChannelMap::new(2, 4);
    assert_eq!(map.mapping(), Mapping::PadWithSilence);

    let mut dst = [9.0; 8];
    map.apply(&[0.1, 0.2, 0.3, 0.4], &mut dst, 0.0, mean);
    assert_eq!(dst, [0.1, 0.2, 0.0, 0.0, 0.3, 0.4, 0.0, 0.0]);
}

#[test]
fn narrowing_keeps_the_leading_channels() {
    let map = ChannelMap::new(4, 2);
    assert_eq!(map.mapping(), Mapping::TruncateExtra);

    let mut dst = [0.0; 4];
    map.apply(&[0.1, 0.2, 0.7, 0.8, 0.3, 0.4, 0.9, 1.0], &mut dst, 0.0, mean);
    assert_eq!(dst, [0.1, 0.2, 0.3, 0.4]);
}

#[test]
fn every_mapping_writes_the_whole_destination() {
    for (source, target) in [(1, 2), (2, 1), (2, 4), (4, 2), (3, 3), (1, 8), (8, 1)] {
        let map = ChannelMap::new(source, target);
        let frames = 5;
        let src: Vec<f32> = (0..frames * source).map(|i| (i as f32 + 1.0) / 100.0).collect();
        let mut dst = vec![f32::NAN; frames * target];
        map.apply(&src, &mut dst, 0.0, mean);
        assert!(
            dst.iter().all(|s| s.is_finite()),
            "{source}->{target} left part of the buffer unwritten"
        );
    }
}

#[test]
fn mappings_have_readable_descriptions() {
    assert_eq!(
        ChannelMap::new(1, 2).mapping().describe(),
        "mono fanned out to every output channel"
    );
    assert_eq!(ChannelMap::new(2, 2).mapping().describe(), "passthrough");
}

#[test]
fn unity_leaves_every_sample_exactly_alone() {
    let gain = Gain::unity();
    assert!(gain.is_unity());

    let original = bits(&[-1.0, -0.5, 0.0, 0.25, 0.999]);
    let mut samples = original.clone();
    gain.apply(&mut samples, |_, _| unreachable!("unity is not applied"));
    assert_eq!(samples, original);
}

#[test]
fn boosting_saturates_instead_of_wrapping() {
    let gain = Gain::with_factor(10.0f32.to_bits()); // 20 dB
    let mut samples = bits(&[0.5, -0.5, 0.05, -0.05]);
    gain.apply(&mut samples, |s, f| {
        (f32::from_bits(s) * f32::from_bits(f)).clamp(-1.0, 1.0).to_bits()
    });
    let samples: Vec<f32> = samples.iter().map(|s| f32::from_bits(*s)).collect();

    assert_eq!(samples[0], 1.0, "positive overshoot clamps to full scale");
    assert_eq!(samples[1], -1.0, "negative overshoot clamps to full scale");
    assert!((samples[2] - 0.5).abs() < 1e-5, "in-range samples still scale");
    assert!((samples[3] + 0.5).abs() < 1e-5);
}

#[test]
fn holds_the_largest_magnitude_seen() {
    let mut meter = LevelMeter::new();
    meter.record(&bits(&[0.1, -0.5, 0.2]));
    meter.record(&bits(&[0.3, 0.05]));
    assert_eq!(
        f32::from_bits(meter.peek()),
        0.5,
        "should hold the peak, not the most recent block"
    );
}

#[test]
fn take_resets_so_each_poll_covers_one_interval() {
    let mut meter = LevelMeter::new();
    meter.record(&bits(&[0.75]));
    assert_eq!(f32::from_bits(meter.take()), 0.75);
    assert_eq!(f32::from_bits(meter.take()), 0.0, "second poll sees nothing new");
    meter.record(&bits(&[0.25]));
    assert_eq!(f32::from_bits(meter.take()), 0.25);
}

#[test]
fn magnitude_is_absolute() {
    let mut meter = LevelMeter::new();
    meter.record(&bits(&[-0.9]));
    assert_eq!(f32::from_bits(meter.take()), 0.9);
}

#[test]
fn silence_reads_as_zero() {
    let mut meter = LevelMeter::new();
    meter.record(&bits(&[0.0, 0.0, 0.0]));
    assert_eq!(f32::from_bits(meter.take()), 0.0);
}

#[test]
fn empty_block_is_harmless() {
    let mut meter = LevelMeter::new();
    meter.record(&[]);
    assert_eq!(f32::from_bits(meter.take()), 0.0);
}

#[test]
fn nan_does_not_poison_the_meter() {
    let mut meter = LevelMeter::new();
    meter.record(&bits(&[f32::NAN, 0.4]));
    assert_eq!(f32::from_bits(meter.take()), 0.4);

    meter.record(&bits(&[f32::INFINITY]));
    assert_eq!(f32::from_bits(meter.take()), 0.0, "infinity is rejected too");
}

#[test]
fn a_block_peak_agrees_with_the_samples() {
    assert_eq!(f32::from_bits(block_peak(&bits(&[0.25, -0.75, 0.5]))), 0.75);
    assert_eq!(f32::from_bits(block_peak(&bits(&[-f32::INFINITY, f32::NAN]))), f32::INFINITY);
    let mut meter = LevelMeter::holding(0.5f32.to_bits());
    meter.record_scaled(&bits(&[0.4]), |s| (f32::from_bits(s) * 2.0).to_bits());
    assert_eq!(f32::from_bits(meter.take()), 0.8);
}

#[test]
fn payload_round_trips() {
    let samples = vec![0i16, 1, -1, i16::MAX, i16::MIN, 1234];
    let mut bytes = Vec::new();
    i16_to_payload(&samples, &mut bytes);
    assert_eq!(bytes.len(), samples.len() * 2);

    let mut decoded = Vec::new();
    payload_to_i16(&bytes, &mut decoded).expect("even length");
    assert_eq!(decoded, samples);
}

#[test]
fn odd_length_payload_is_rejected() {
    let mut decoded = vec![7i16];
    assert!(payload_to_i16(&[1, 2, 3], &mut decoded).is_none());
}

#[test]
fn encode_into_replaces_rather_than_appends() {
    let mut out = vec![9i16; 5];
    encode_into(&bits(&[0.0, 0.5]), |s| f32_to_i16(f32::from_bits(s)), &mut out);
    assert_eq!(out, vec![0, 16_384]);
}

#[test]
fn samples_travel_little_endian() {
    let mut bytes = Vec::new();
    i16_to_payload(&[0x1234, -2], &mut bytes);
    assert_eq!(bytes, [0x34, 0x12, 0xFE, 0xFF]);
}

const CH: usize = 2;
const FPP: usize = 240;
const RATE: u32 = 48_000;

fn format() -> StreamFormat {
    StreamFormat {
        sample_rate: RATE,
        channels: CH as u16,
        sample_format: WireSampleFormat::S16Le,
        frames_per_packet: FPP as u32,
    }
}

fn pipeline(target_ms: u32) -> (MediaSink, PlaybackSource) {
    let config = PipelineConfig::new(format(), RATE, target_ms);
    assert!(config.is_buildable());
    build(config)
}

fn tone_packet(first_frame: u64) -> Vec<i16> {
    (0..FPP)
        .flat_map(|f| {
            let t = (first_frame as usize + f) as f64 / f64::from(RATE);
            let v = (t * 1_000.0 * std::f64::consts::TAU).sin() * 0.5;
            let s = f32_to_i16(v as f32);
            [s, s]
        })
        .collect()
}

fn mono_tone_packet(first_frame: u64) -> Vec<i16> {
    (0..FPP)
        .map(|f| {
            let t = (first_frame as usize + f) as f64 / f64::from(RATE);
            f32_to_i16((t * 1_000.0 * std::f64::consts::TAU).sin() as f32 * 0.5)
        })
        .collect()
}

fn accept(sink: &mut MediaSink, at: u64, samples: &[i16]) {
    assert!(sink.can_accept(at, samples));
    sink.accept(at, samples, |s| i16_to_f32(s).to_bits());
}

/// Fills a device buffer frame by frame, at the rate the frames arrive.
fn fill(source: &mut PlaybackSource, out: &mut [f32]) -> FillReport {
    match source.begin(out.len()) {
        FillStart::Prebuffering { .. } => source.prebuffering(out, 0.0),
        FillStart::Render { run, .. } => {
            let mut run = run;
            let mut frame = vec![0u32; source.stream_channels()];
            loop {
                let frames = source.next_pass(run);
                if frames == 0 {
                    break;
                }
                let mut staged: Vec<f32> = Vec::new();
                for _ in 0..frames {
                    if !source.pop_frame(&mut frame) {
                        break;
                    }
                    staged.extend(frame.iter().map(|s| f32::from_bits(*s)));
                }
                run = source.place(run, &staged, out, 0.0, mean);
            }
            source.finish(run, out, 0.0)
        }
    }
}

#[test]
fn renders_silence_until_the_prebuffer_target_is_reached() {
    let (mut sink, mut source) = pipeline(20); // 960 frames
    let mut out = vec![9.0; 128 * CH];

    // One 240-frame packet is well short of the 960-frame target.
    accept(&mut sink, 0, &tone_packet(0));
    let report = fill(&mut source, &mut out);
    assert!(report.prebuffering);
    assert_eq!(report.frames_rendered, 0);
    assert!(out.iter().all(|&s| s == 0.0), "prebuffering must write silence, not stale data");
}

#[test]
fn prebuffering_is_not_counted_as_an_underrun() {
    let (_sink, mut source) = pipeline(20);
    let mut out = vec![0.0; 128 * CH];
    for _ in 0..10 {
        fill(&mut source, &mut out);
    }
    assert_eq!(source.stats().underruns(), 0, "startup silence is expected, not a fault");
}

#[test]
fn renders_audio_once_primed() {
    let (mut sink, mut source) = pipeline(10); // 480 frames
    for i in 0..4u64 {
        accept(&mut sink, i * FPP as u64, &tone_packet(i * FPP as u64));
    }
    let mut out = vec![0.0; 256 * CH];
    let report = fill(&mut source, &mut out);
    assert!(!report.prebuffering);
    assert_eq!(report.frames_rendered, 256);
    assert_eq!(report.frames_silent, 0);
    assert_eq!(source.stats().underruns(), 0);
    assert!(out.iter().any(|&s| s.abs() > 0.1), "should be carrying the tone");
}

#[test]
fn a_starved_callback_is_fully_written_and_counted() {
    let (mut sink, mut source) = pipeline(5); // 240 frames
    for i in 0..2u64 {
        accept(&mut sink, i * FPP as u64, &tone_packet(i * FPP as u64));
    }
    // Ask for far more than has arrived.
    let mut out = vec![9.0; 4_000 * CH];
    let report = fill(&mut source, &mut out);
    assert!(report.frames_silent > 0, "should have starved");
    assert_eq!(source.stats().underruns(), 1);
    assert!(out.iter().all(|&s| s != 9.0), "tail was left unwritten");
    assert!(
        out[report.frames_rendered * CH..].iter().all(|&s| s == 0.0),
        "the starved tail must be silence"
    );
}

#[test]
fn the_reorder_window_always_fits_inside_the_buffer_target() {
    for target_ms in [5, 10, 20, 40, 100, 250] {
        let window = PipelineConfig::default_reorder_window(format(), target_ms);
        let stall_ms = (window + 1) as f64 * 5.0;
        assert!(window >= 1, "{target_ms} ms: window must allow a simple swap");
        assert!(
            stall_ms <= f64::from(target_ms) || window == 1,
            "{target_ms} ms target: a {window}-packet window stalls {stall_ms} ms"
        );
    }
}

#[test]
fn a_bigger_buffer_buys_more_reorder_tolerance() {
    let small = PipelineConfig::default_reorder_window(format(), 20);
    let large = PipelineConfig::default_reorder_window(format(), 200);
    assert!(large > small, "{large} should exceed {small}");
}

#[test]
fn lost_packets_are_reported_but_playback_continues() {
    let (mut sink, mut source) = pipeline(20);
    let mut out = vec![0.0; 240 * CH];
    let mut next_frame = 0u64;

    for step in 0..2_000 {
        // Drop every fiftieth packet.
        if step % 50 != 49 {
            accept(&mut sink, next_frame, &tone_packet(next_frame));
        }
        next_frame += FPP as u64;
        fill(&mut source, &mut out);
    }

    assert!(sink.stats().frames_lost() > 0, "the drops should be visible");
    assert_eq!(source.stats().underruns(), 0, "loss becomes silence, not an underrun");
}

#[test]
fn reset_returns_to_prebuffering() {
    let (mut sink, mut source) = pipeline(5);
    for i in 0..4u64 {
        accept(&mut sink, i * FPP as u64, &tone_packet(i * FPP as u64));
    }
    let mut out = vec![0.0; 128 * CH];
    assert!(!fill(&mut source, &mut out).prebuffering);

    source.reset();
    sink.reset();
    let report = fill(&mut source, &mut out);
    assert!(report.prebuffering, "a new session starts by refilling the buffer");
    assert!(out.iter().all(|&s| s == 0.0));
}

#[test]
fn ring_capacity_is_never_smaller_than_the_target() {
    let mut config = PipelineConfig::new(format(), RATE, 100);
    config.ring_capacity_ms = 5;
    assert!(config.ring_capacity_frames() > config.target_frames());
}

/// A mono stream against a stereo device.
fn mono_pipeline_to_stereo_device() -> (MediaSink, PlaybackSource) {
    let format = StreamFormat {
        sample_rate: RATE,
        channels: 1,
        sample_format: WireSampleFormat::S16Le,
        frames_per_packet: FPP as u32,
    };
    let mut config = PipelineConfig::new(format, RATE, 20);
    config.output_channels = 2;
    assert!(config.is_buildable());
    build(config)
}

#[test]
fn a_mono_stream_renders_to_a_stereo_device() {
    let (mut sink, mut source) = mono_pipeline_to_stereo_device();
    assert_eq!(source.output_channels(), 2, "fill writes at the device's channel count");
    assert_eq!(source.stream_channels(), 1);
    assert_eq!(source.mapping(), Mapping::FanOutMono);

    // Prime past the 20 ms target with mono packets.
    for i in 0..8u64 {
        accept(&mut sink, i * FPP as u64, &mono_tone_packet(i * FPP as u64));
    }

    // A stereo device buffer: 256 frames is 512 samples.
    let mut out = vec![0.0; 256 * 2];
    let report = fill(&mut source, &mut out);

    assert!(!report.prebuffering);
    assert_eq!(report.frames_rendered, 256, "should have filled the whole callback");
    assert_eq!(source.stats().underruns(), 0);
    assert!(out.iter().any(|s| s.abs() > 0.1), "should be carrying the tone");

    // Mono fanned out: both channels of every frame identical.
    for frame in out.chunks(2) {
        assert_eq!(frame[0], frame[1], "mono should appear on both channels");
    }
}

#[test]
fn a_mapped_pipeline_survives_a_simulated_minute_without_faults() {
    let (mut sink, mut source) = mono_pipeline_to_stereo_device();
    let mut out = vec![0.0; FPP * 2];
    let mut next = 0u64;

    for step in 0..12_000 {
        accept(&mut sink, next, &mono_tone_packet(next));
        next += FPP as u64;
        let report = fill(&mut source, &mut out);
        if step > 100 {
            assert_eq!(report.frames_silent, 0, "underran at step {step}");
        }
    }

    assert_eq!(source.stats().underruns(), 0);
    assert_eq!(sink.stats().overrun_frames(), 0);
}

#[test]
fn a_callback_larger_than_the_staging_buffer_is_still_fully_written() {
    let (mut sink, mut source) = mono_pipeline_to_stereo_device();
    for i in 0..400u64 {
        accept(&mut sink, i * FPP as u64, &mono_tone_packet(i * FPP as u64));
    }

    let frames = SCRATCH_FRAMES + 1_000;
    let mut out = vec![f32::NAN; frames * 2];
    let report = fill(&mut source, &mut out);

    assert!(report.frames_rendered > SCRATCH_FRAMES, "should have made several passes");
    assert!(out.iter().all(|s| s.is_finite()), "the whole buffer must be written");
    for frame in out[..report.frames_rendered * 2].chunks(2) {
        assert_eq!(frame[0], frame[1]);
    }
}

#[test]
fn a_matched_pipeline_allocates_no_staging_buffer() {
    let (_, source) = pipeline(20);
    assert_eq!(source.mapping(), Mapping::Passthrough);
    assert_eq!(source.staging_len(), 0, "matched channels should need no staging");
}

#[test]
fn output_channels_defaults_to_the_stream_and_zero_means_the_same() {
    let config = PipelineConfig::new(format(), RATE, 20);
    assert_eq!(config.output_channels, format().channels);
    assert_eq!(config.resolved_output_channels(), CH);

    let mut zeroed = config;
    zeroed.output_channels = 0;
    assert_eq!(zeroed.resolved_output_channels(), CH, "zero means follow the stream");
}

#[test]
fn malformed_payloads_are_discarded_rather_than_shifting_the_interleave() {
    let (mut sink, _source) = pipeline(20);
    accept(&mut sink, 0, &[1, 2, 3]); // not a whole number of stereo frames
    accept(&mut sink, 0, &[]);
    assert_eq!(sink.stats().snapshot(0, 0).packets_received, 0);
}

#[test]
fn an_unbuildable_pipeline_is_recognised() {
    let mut config = PipelineConfig::new(format(), RATE, 20);
    config.format.channels = 0;
    config.output_channels = 0;
    assert!(!config.is_buildable());
}

#[test]
fn free_and_held_frames_fill_the_ring() {
    let (mut prod, mut cons) = frame_channel(2, 5);
    let mut out = vec![0; 4];
    for round in 0..20u32 {
        let before = prod.vacant_frames();
        let offered = 1 + round as usize % 4;
        let dropped = prod.push_frames(&vec![round; 2 * offered + 1]);
        assert_eq!(dropped, offered - offered.min(before));
        assert_eq!(prod.vacant_frames() + cons.occupied_frames(), 5);
        cons.pop_frames(&mut out);
        assert_eq!(prod.vacant_frames() + cons.occupied_frames(), 5);
    }
}

#[test]
fn an_unread_ring_keeps_what_fits_and_counts_the_rest() {
    let format = StreamFormat {
        sample_rate: 48_000,
        channels: 2,
        sample_format: WireSampleFormat::S16Le,
        frames_per_packet: 240,
    };
    let (mut sink, _source) = build(PipelineConfig::new(format, 48_000, 20));
    for i in 0..81u64 {
        sink.accept(i * 240, &[0i16; 480], |s| i16_to_f32(s).to_bits());
        let expected = if i < 80 { 0 } else { 240 };
        assert_eq!(sink.stats().overrun_frames(), expected, "packet {i}");
    }
}

#[test]
fn packets_in_any_order_within_the_window_play_in_order() {
    let packet = |x: i16| [x, -x, x + 1, -x - 1];
    let (fpp, origin) = (2u64, 1_000u64);
    let mut seq = Sequencer::new(2, 2, 3);
    let mut out = Vec::new();
    for x in [0u64, 3, 1, 3, 0, 4, 2, 7, 6, 5, 5] {
        seq.push(origin + fpp * x, &packet(10 * x as i16), &mut out);
        let stats = seq.stats();
        let frames = fpp * stats.packets_accepted - seq.pending_frames() as u64 + stats.frames_lost;
        assert_eq!(out.len() as u64, 2 * frames);
        assert!(seq.pending_frames() <= 2 * 3);
    }
    let expected: Vec<i16> = (0..8).flat_map(|x| packet(10 * x)).collect();
    assert_eq!(out, expected);
    assert_eq!((seq.stats().frames_lost, seq.pending_frames()), (0, 0));
    assert_eq!(seq.stats().packets_accepted, 8);
    assert_eq!((seq.stats().packets_late, seq.stats().packets_duplicate), (2, 1));
}

#[test]
fn a_reset_leaves_the_ring_empty() {
    let format = StreamFormat {
        sample_rate: 48_000,
        channels: 1,
        sample_format: WireSampleFormat::S16Le,
        frames_per_packet: 2,
    };
    let (mut sink, mut source) = build(PipelineConfig::new(format, 48_000, 20));
    for i in 0..3u64 {
        sink.accept(2 * i, &[1, 2], |s| s as u32);
    }
    let mut frame = [0u32];
    assert!(source.pop_frame(&mut frame));
    assert_eq!(source.begin(8), FillStart::Prebuffering { available: 5 });
    source.reset();
    assert!(!source.pop_frame(&mut frame));
    assert_eq!(source.begin(8), FillStart::Prebuffering { available: 0 });

    // What comes after is not lost with it.
    sink.accept(6, &[7, 8], |s| s as u32);
    assert!(source.pop_frame(&mut frame));
    assert_eq!(frame, [7]);
}

#[test]
fn playback_starts_with_the_frames_that_are_there() {
    let format = StreamFormat {
        sample_rate: 1_000,
        channels: 1,
        sample_format: WireSampleFormat::S16Le,
        frames_per_packet: 2,
    };
    let (mut sink, mut source) = build(PipelineConfig::new(format, 1_000, 4));
    sink.accept(0, &[1, 2], |s| s as u32);
    assert_eq!(source.begin(3), FillStart::Prebuffering { available: 2 });
    sink.accept(2, &[3, 4], |s| s as u32);
    assert!(matches!(
        source.begin(3),
        FillStart::Render { available: 4, run } if (run.want, run.done, run.dry) == (3, 0, false)
    ));
    source.reset();
    assert_eq!(source.begin(3), FillStart::Prebuffering { available: 0 });
}
