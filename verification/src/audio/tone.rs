//! A synthetic capture source.

use vstd::prelude::*;

use crate::protocol::api::{StreamFormat, WireSampleFormat};

verus! {

/// The format a tone source will advertise: 48 kHz stereo unless told otherwise,
/// which is what a Windows endpoint runs at natively.
pub fn format(sample_rate: Option<u32>, channels: Option<u16>, frames_per_packet: u32) -> (f:
    StreamFormat)
    ensures
        f == (StreamFormat {
            sample_rate: match sample_rate {
                Some(rate) => rate,
                None => 48_000,
            },
            channels: match channels {
                Some(n) => n,
                None => 2,
            },
            sample_format: WireSampleFormat::S16Le,
            frames_per_packet,
        }),
{
    StreamFormat {
        sample_rate: sample_rate.unwrap_or(48_000),
        channels: channels.unwrap_or(2),
        sample_format: WireSampleFormat::S16Le,
        frames_per_packet,
    }
}

} // verus!
