//! Output rendering: resolving the device that a session renders to.

use vstd::prelude::*;

use crate::audio::capture;
use crate::audio::capture::DeviceDefaults;
use crate::text;

verus! {

/// How an output device is opened.
#[derive(Debug, PartialEq, Eq)]
pub struct RenderConfig {
    /// Case-insensitive substring of the device name.
    pub device: Option<String>,
    /// Override the rate. `None`, the normal case, takes the device's own.
    pub sample_rate: Option<u32>,
    /// Override the channel count. Left `None`: a shared endpoint supports only
    /// its own.
    pub channels: Option<u16>,
    /// Render callback size in frames. `None` lets the host decide.
    pub buffer_frames: Option<u32>,
}

/// A resolved output device, not yet streaming.
#[derive(Debug, Clone, PartialEq, Eq)]
pub struct OutputTarget {
    pub name: String,
    /// The rate the stream will run at.
    pub sample_rate: u32,
    /// The channel count the stream will run at. The pipeline maps onto this.
    pub channels: u16,
    pub buffer_frames: Option<u32>,
}

/// Says what a stream on a device would use. `shown` is how the device's sample
/// format is shown to a programmer.
pub fn open(config: &RenderConfig, device: &DeviceDefaults, shown: &str) -> (r: Result<
    OutputTarget,
    String,
>)
    ensures
        !device.float_samples ==> (r matches Err(message) && message@ == text::quoted(
            capture::device_title(device.name),
        ) + " wants "@ + shown@ + " samples; this build only handles f32"@),
        device.float_samples ==> (r matches Ok(target) && {
            &&& target.name@ == capture::device_title(device.name)
            &&& target.sample_rate == match config.sample_rate {
                Some(rate) => rate,
                None => device.sample_rate,
            }
            &&& target.channels == match config.channels {
                Some(n) => n,
                None => device.channels,
            }
            &&& target.buffer_frames == config.buffer_frames
        }),
{
    let name = capture::device_name(&device.name);
    if !device.float_samples {
        let mut message = String::new();
        text::push_quoted(&mut message, name.as_str());
        message.append(" wants ");
        message.append(shown);
        message.append(" samples; this build only handles f32");
        assert(message@ =~= text::quoted(capture::device_title(device.name)) + " wants "@ + shown@
            + " samples; this build only handles f32"@);
        return Err(message);
    }
    Ok(
        OutputTarget {
            name,
            sample_rate: config.sample_rate.unwrap_or(device.sample_rate),
            channels: config.channels.unwrap_or(device.channels),
            buffer_frames: config.buffer_frames,
        },
    )
}

/// Checks that the pipeline renders what the device takes.
pub fn start(target: &OutputTarget, pipeline_channels: usize) -> (r: Result<(), String>)
    ensures
        target.channels == pipeline_channels ==> r is Ok,
        target.channels != pipeline_channels ==> (r matches Err(message) && message@
            == "pipeline renders "@ + text::decimal(pipeline_channels as nat) + " channels but "@
            + text::quoted(target.name@) + " wants "@ + text::decimal(target.channels as nat)),
{
    if target.channels as usize == pipeline_channels {
        return Ok(());
    }
    let mut message = "pipeline renders ".to_owned();
    text::push_decimal(&mut message, pipeline_channels as u64);
    message.append(" channels but ");
    text::push_quoted(&mut message, target.name.as_str());
    message.append(" wants ");
    text::push_decimal(&mut message, target.channels as u64);
    Err(message)
}

} // verus!
