//! Conversions between samples and the bytes of a media payload.

use vstd::prelude::*;

verus! {

/// The sample that two little-endian bytes spell, in two's complement.
pub open spec fn le_sample(lo: u8, hi: u8) -> int {
    let v = lo + 256 * hi;
    if v >= 0x8000 {
        v - 0x1_0000
    } else {
        v
    }
}

/// The low byte of a sample.
pub open spec fn low_byte(sample: i16) -> u8 {
    (sample as int % 256) as u8
}

/// The high byte of a sample, in two's complement.
pub open spec fn high_byte(sample: i16) -> u8 {
    ((if sample < 0 {
        sample + 0x1_0000
    } else {
        sample as int
    }) / 256) as u8
}

/// The samples that a payload of even length spells.
pub open spec fn samples_of(payload: Seq<u8>) -> Seq<i16> {
    Seq::new(
        payload.len() / 2,
        |i: int| le_sample(payload[2 * i], payload[2 * i + 1]) as i16,
    )
}

/// The bytes of samples, two for each.
pub open spec fn payload_of(samples: Seq<i16>) -> Seq<u8> {
    Seq::new(
        samples.len() * 2,
        |i: int|
            if i % 2 == 0 {
                low_byte(samples[i / 2])
            } else {
                high_byte(samples[i / 2])
            },
    )
}

/// Replaces `out` with `samples`, each put through `convert`.
pub fn encode_into<F: Fn(u32) -> i16>(samples: &[u32], convert: F, out: &mut Vec<i16>)
    requires
        forall|x: u32| call_requires(convert, (x,)),
    ensures
        final(out)@.len() == samples@.len(),
        forall|i: int|
            0 <= i < samples@.len() ==> call_ensures(
                convert,
                (samples@[i],),
                #[trigger] final(out)@[i],
            ),
{
    out.clear();
    while out.len() < samples.len()
        invariant
            out@.len() <= samples@.len(),
            forall|x: u32| call_requires(convert, (x,)),
            forall|i: int|
                0 <= i < out@.len() ==> call_ensures(convert, (samples@[i],), #[trigger] out@[i]),
        decreases samples@.len() - out@.len(),
    {
        let sample: i16 = convert(samples[out.len()]);
        out.push(sample);
    }
}

/// Reads the little-endian bytes of a media payload as samples, replacing what
/// `out` held.
///
/// `None`, with `out` left alone, on an odd length: a truncated sample would
/// shift the channel interleave.
pub fn payload_to_i16(bytes: &[u8], out: &mut Vec<i16>) -> (r: Option<()>)
    ensures
        bytes@.len() % 2 == 0 ==> r is Some && final(out)@ == samples_of(bytes@),
        bytes@.len() % 2 != 0 ==> r is None && final(out)@ == old(out)@,
{
    if bytes.len() % 2 != 0 {
        return None;
    }
    out.clear();
    let mut at: usize = 0;
    while at < bytes.len()
        invariant
            at <= bytes@.len(),
            at % 2 == 0,
            bytes@.len() % 2 == 0,
            bytes@.len() == bytes.len(),
            out@ =~= samples_of(bytes@).take((at / 2) as int),
        decreases bytes@.len() - at,
    {
        let v: i32 = bytes[at] as i32 + 256 * bytes[at + 1] as i32;
        let sample: i32 = if v >= 0x8000 {
            v - 0x1_0000
        } else {
            v
        };
        out.push(sample as i16);
        at = at + 2;
    }
    assert(samples_of(bytes@).take((at / 2) as int) =~= samples_of(bytes@));
    Some(())
}

/// Appends samples to a byte buffer as little-endian pairs.
pub fn i16_to_payload(samples: &[i16], out: &mut Vec<u8>)
    ensures
        final(out)@ == old(out)@ + payload_of(samples@),
{
    let mut i: usize = 0;
    while i < samples.len()
        invariant
            i <= samples@.len(),
            out@ =~= old(out)@ + payload_of(samples@).take(2 * i),
        decreases samples@.len() - i,
    {
        let sample: i16 = samples[i];
        let v: i32 = if sample < 0 {
            sample as i32 + 0x1_0000
        } else {
            sample as i32
        };
        out.push((v % 256) as u8);
        out.push((v / 256) as u8);
        i = i + 1;
    }
    assert(payload_of(samples@).take(2 * i) =~= payload_of(samples@));
}

/// Samples come back from their own payload, which has two bytes for each.
pub proof fn payload_round_trips(samples: Seq<i16>)
    ensures
        payload_of(samples).len() == 2 * samples.len(),
        samples_of(payload_of(samples)) == samples,
{
    let bytes = payload_of(samples);
    assert forall|i: int| 0 <= i < samples.len() implies #[trigger] samples_of(bytes)[i]
        == samples[i] by {
        assert(bytes[2 * i] == low_byte(samples[i]));
        assert(bytes[2 * i + 1] == high_byte(samples[i]));
    }
    assert(samples_of(bytes) =~= samples);
}

/// A payload of even length is the payload of the samples it spells.
pub proof fn samples_round_trip(payload: Seq<u8>)
    requires
        payload.len() % 2 == 0,
    ensures
        payload_of(samples_of(payload)) == payload,
{
    let samples = samples_of(payload);
    assert forall|i: int| 0 <= i < payload.len() implies #[trigger] payload_of(samples)[i]
        == payload[i] by {
        let k = i / 2;
        assert(samples[k] == le_sample(payload[2 * k], payload[2 * k + 1]));
    }
    assert(payload_of(samples) =~= payload);
}

/// Samples are little-endian, in two's complement: of each pair of bytes the first
/// is the low one.
pub proof fn samples_are_little_endian(payload: Seq<u8>, i: int)
    requires
        0 <= i < payload.len() / 2,
    ensures
        samples_of(payload).len() == payload.len() / 2,
        ({
            let sample = samples_of(payload)[i] as int;
            let bytes = payload[2 * i] + 256 * payload[2 * i + 1];
            sample == bytes || sample == bytes - 0x1_0000
        }),
{
}

} // verus!
