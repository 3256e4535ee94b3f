//! Input capture.
//!
//! The capture callback meters the device's frames and copies them into a
//! lock-free ring; everything else happens on the network thread.

use vstd::prelude::*;

use crate::protocol::api::{StreamFormat, WireSampleFormat};
use crate::signal::gain::Gain;
use crate::signal::gain;
use crate::signal::level;
use crate::signal::level::LevelMeter;
use crate::signal::ring;
use crate::signal::ring::FrameProducer;
use crate::text;

verus! {

/// How a capture device is opened.
#[derive(Debug, PartialEq, Eq)]
pub struct CaptureConfig {
    /// Case-insensitive substring of the device name. `None` takes the default.
    pub device: Option<String>,
    /// Requested rate. `None` accepts the device's default.
    pub sample_rate: Option<u32>,
    /// Requested channel count. `None` accepts the device's default.
    pub channels: Option<u16>,
    /// Requested callback size in frames. `None` lets the host decide.
    pub buffer_frames: Option<u32>,
    /// Applied to every captured sample before it goes on the wire.
    pub gain: Gain,
}

/// What a device says of itself.
#[derive(Debug, PartialEq, Eq)]
pub struct DeviceDefaults {
    /// `None` where the name cannot be read.
    pub name: Option<String>,
    pub sample_rate: u32,
    pub channels: u16,
    /// The device's samples are single-precision floats.
    pub float_samples: bool,
}

/// What a device is called.
pub open spec fn device_title(name: Option<String>) -> Seq<char> {
    match name {
        Some(n) => n@,
        None => "<unnamed>"@,
    }
}

/// What a device is called, in a copy.
pub fn device_name(name: &Option<String>) -> (title: String)
    ensures
        title@ == device_title(*name),
{
    match name {
        Some(n) => n.clone(),
        None => "<unnamed>".to_owned(),
    }
}

/// What was asked for, or else what the device has.
pub open spec fn negotiated(
    config: CaptureConfig,
    device: DeviceDefaults,
    frames_per_packet: u32,
) -> StreamFormat {
    StreamFormat {
        sample_rate: match config.sample_rate {
            Some(rate) => rate,
            None => device.sample_rate,
        },
        channels: match config.channels {
            Some(n) => n,
            None => device.channels,
        },
        sample_format: WireSampleFormat::S16Le,
        frames_per_packet,
    }
}

/// The name and the format a device would be opened with, without opening it.
pub fn probe(config: &CaptureConfig, device: &DeviceDefaults, frames_per_packet: u32) -> (r: (
    String,
    StreamFormat,
))
    ensures
        r.0@ == device_title(device.name),
        r.1 == negotiated(*config, *device, frames_per_packet),
{
    (
        device_name(&device.name),
        StreamFormat {
            sample_rate: config.sample_rate.unwrap_or(device.sample_rate),
            channels: config.channels.unwrap_or(device.channels),
            sample_format: WireSampleFormat::S16Le,
            frames_per_packet,
        },
    )
}

/// Checks that a device can feed a ring of `ring_channels` channels, and says
/// what it is opened with. `shown` is how the device's sample format is shown to
/// a programmer.
pub fn start_capture(
    config: &CaptureConfig,
    device: &DeviceDefaults,
    shown: &str,
    ring_channels: usize,
    frames_per_packet: u32,
) -> (r: Result<StreamFormat, String>)
    ensures
        ({
            let format = negotiated(*config, *device, frames_per_packet);
            if !device.float_samples {
                r matches Err(message) && message@ == text::quoted(device_title(device.name))
                    + " offers "@ + shown@ + " samples; this build only handles f32"@
            } else if format.channels != ring_channels {
                r matches Err(message) && message@ == "capture ring was built for "@
                    + text::decimal(ring_channels as nat) + " channels but the device gives "@
                    + text::decimal(format.channels as nat)
            } else {
                r == Ok::<StreamFormat, String>(format)
            }
        }),
{
    let (name, format) = probe(config, device, frames_per_packet);
    let mut message = String::new();
    if !device.float_samples {
        text::push_quoted(&mut message, name.as_str());
        message.append(" offers ");
        message.append(shown);
        message.append(" samples; this build only handles f32");
        assert(message@ =~= text::quoted(device_title(device.name)) + " offers "@ + shown@
            + " samples; this build only handles f32"@);
        return Err(message);
    }
    if format.channels as usize != ring_channels {
        message.append("capture ring was built for ");
        text::push_decimal(&mut message, ring_channels as u64);
        message.append(" channels but the device gives ");
        text::push_decimal(&mut message, format.channels as u64);
        assert(message@ =~= "capture ring was built for "@ + text::decimal(ring_channels as nat)
            + " channels but the device gives "@ + text::decimal(format.channels as nat));
        return Err(message);
    }
    Ok(format)
}

/// One callback of the capture device: the samples are metered as they will be
/// sent, scaled by the gain, and written to the ring. Returns the frames that
/// did not fit.
///
/// `scale` makes a sample of a sample and the gain's factor, and `scale_peak`
/// does the same for a magnitude. At unity the samples go through untouched.
pub fn capture_block<F: Fn(u32) -> u32, P: Fn(u32) -> u32>(
    ring: &mut FrameProducer,
    meter: &mut LevelMeter,
    samples: &[u32],
    gain: Gain,
    scale: F,
    scale_peak: P,
) -> (lost: usize)
    requires
        old(ring).wf(),
        forall|x: u32| call_requires(scale, (x,)),
        forall|x: u32| call_requires(scale_peak, (x,)),
    ensures
        final(ring).wf(),
        final(ring).frame_words() == old(ring).frame_words(),
        final(ring).capacity_frames() == old(ring).capacity_frames(),
        final(ring).traffic() == old(ring).traffic(),
        exists|peak: u32, scaled: u32|
            level::is_block_peak(samples@, peak) && #[trigger] call_ensures(
                scale_peak,
                (peak,),
                scaled,
            ) && final(meter)@ == level::held_after(old(meter)@, scaled),
        ({
            let offered = samples@.len() / old(ring).frame_words();
            let kept = offered - lost;
            let start = old(ring).sent().len();
            &&& ring::found_room(*old(ring), *final(ring), offered as int, kept)
            &&& kept * old(ring).frame_words() <= samples@.len()
            &&& final(ring).sent().len() == start + kept * old(ring).frame_words()
            &&& final(ring).sent().take(start as int) == old(ring).sent()
            &&& forall|i: int|
                0 <= i < kept * old(ring).frame_words() ==> if gain@ == gain::UNITY_BITS {
                    #[trigger] final(ring).sent()[start + i] == samples@[i]
                } else {
                    call_ensures(scale, (samples@[i],), final(ring).sent()[start + i])
                }
        }),
{
    meter.record_scaled(samples, scale_peak);
    if gain.is_unity() {
        let lost: usize = ring.push_frames(samples);
        proof {
            let start = old(ring).sent().len();
            assert(ring.sent().take(start as int) =~= old(ring).sent());
        }
        lost
    } else {
        ring.push_frames_scaled(samples, scale)
    }
}

/// What was asked for is what is negotiated, and what was not is as the device has
/// it.
pub proof fn what_was_asked_for_is_negotiated(
    config: CaptureConfig,
    device: DeviceDefaults,
    frames_per_packet: u32,
)
    ensures
        ({
            let format = negotiated(config, device, frames_per_packet);
            &&& config.sample_rate matches Some(rate) ==> format.sample_rate == rate
            &&& config.sample_rate is None ==> format.sample_rate == device.sample_rate
            &&& config.channels matches Some(n) ==> format.channels == n
            &&& config.channels is None ==> format.channels == device.channels
            &&& format.frames_per_packet == frames_per_packet
        }),
        device.name matches Some(name) ==> device_title(device.name) == name@,
        device.name is None ==> device_title(device.name) == "<unnamed>"@,
{
}

} // verus!
