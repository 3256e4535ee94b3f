//! The receive pipeline, split across the two threads that drive it.
//!
//! ```text
//!  network thread                   ring                audio callback
//!  MediaSink                                            PlaybackSource
//!    Sequencer  ──in-order frames──> FrameProducer ──>  FrameConsumer
//! ```
//!
//! Everything that can take an unbounded amount of time lives on the network
//! side. The audio callback asks its half how much to render, resamples, and
//! hands back what came of it.

use vstd::prelude::*;

use crate::protocol::api::{ReceiverStats, StreamFormat};
use crate::signal::channels;
use crate::signal::channels::{ChannelMap, Mapping};
use crate::signal::ring;
use crate::signal::ring::{frame_channel, FrameConsumer, FrameProducer};
use crate::signal::sequencer;
use crate::signal::sequencer::{Sequencer, SequencerStats};

verus! {

/// How the receive pipeline is sized.
#[derive(Debug, Clone, Copy, PartialEq, Eq, Structural)]
pub struct PipelineConfig {
    /// The negotiated stream format.
    pub format: StreamFormat,
    /// Rate of the local output device.
    pub output_rate: u32,
    /// Channel count of the local output device. Zero means "same as the
    /// stream".
    pub output_channels: u16,
    /// Jitter-buffer target: the dominant term in end-to-end latency.
    pub target_buffer_ms: u32,
    /// Datagrams held while waiting for a missing one before giving up and
    /// substituting silence.
    pub reorder_window_packets: usize,
    /// Ring capacity. Only has to exceed the target by enough to absorb a burst.
    pub ring_capacity_ms: u32,
}

/// Whole frames in a number of milliseconds.
pub open spec fn frames_in(ms: nat, rate: nat) -> nat {
    ms * rate / 1000
}

/// The largest reorder window that half the buffer target can afford, and at
/// least one.
pub open spec fn reorder_window(format: StreamFormat, target_buffer_ms: nat) -> nat {
    let per_packet = if format.frames_per_packet == 0 {
        1
    } else {
        format.frames_per_packet as nat
    };
    let fits = frames_in(target_buffer_ms, format.sample_rate as nat) / (2 * per_packet);
    if fits <= 2 {
        1
    } else {
        (fits - 1) as nat
    }
}

/// A product of two 32-bit numbers fits in 64 bits, with room to spare.
proof fn product_fits(a: u32, b: u32)
    ensures
        0 <= a * b <= 0xffff_fffe_0000_0001,
{
    assert(0 <= a * b <= 0xffff_ffff * 0xffff_ffff) by (nonlinear_arith)
        requires
            a <= 0xffff_ffff,
            b <= 0xffff_ffff,
    ;
}

/// The largest reorder window that half the buffer target can afford, and at
/// least one.
pub fn affordable_window(format: StreamFormat, target_buffer_ms: u32) -> (n: u64)
    ensures
        n == reorder_window(format, target_buffer_ms as nat),
{
    proof {
        product_fits(target_buffer_ms, format.sample_rate);
    }
    let target_frames: u64 = target_buffer_ms as u64 * format.sample_rate as u64 / 1000;
    let per_packet: u64 = if format.frames_per_packet == 0 {
        1
    } else {
        format.frames_per_packet as u64
    };
    let fits: u64 = target_frames / (2 * per_packet);
    if fits <= 2 {
        1
    } else {
        fits - 1
    }
}

impl PipelineConfig {
    /// Frames that playback waits for before it starts: the buffer target.
    pub open spec fn prebuffer(self) -> nat {
        let frames = frames_in(self.target_buffer_ms as nat, self.output_rate as nat);
        if frames == 0 {
            1
        } else {
            frames
        }
    }

    /// Frames that the ring holds: what was asked for, but never less than the
    /// target and four datagrams.
    pub open spec fn ring_frames(self) -> nat {
        let asked = frames_in(self.ring_capacity_ms as nat, self.format.sample_rate as nat);
        let least = self.prebuffer() + 4 * self.format.frames_per_packet as nat;
        if asked > least {
            asked
        } else {
            least
        }
    }

    /// Channels of the output device.
    pub open spec fn output_count(self) -> nat {
        if self.output_channels == 0 {
            self.format.channels as nat
        } else {
            self.output_channels as nat
        }
    }

    /// A pipeline of this shape can be built: there is something to carry, and
    /// the ring fits in memory.
    pub open spec fn buildable(self) -> bool {
        &&& self.format.channels > 0
        &&& self.format.frames_per_packet > 0
        &&& self.ring_frames() * self.format.channels * 4 <= isize::MAX
        &&& self.ring_capacity_ms * self.format.sample_rate <= usize::MAX
    }

    pub fn new(format: StreamFormat, output_rate: u32, target_buffer_ms: u32) -> (config: Self)
        requires
            reorder_window(format, target_buffer_ms as nat) <= usize::MAX,
        ensures
            config.format == format,
            config.output_rate == output_rate,
            config.output_channels == format.channels,
            config.target_buffer_ms == target_buffer_ms,
            config.reorder_window_packets == reorder_window(format, target_buffer_ms as nat),
            config.ring_capacity_ms == 400,
    {
        Self {
            format,
            output_rate,
            output_channels: format.channels,
            target_buffer_ms,
            reorder_window_packets: Self::default_reorder_window(format, target_buffer_ms),
            ring_capacity_ms: 400,
        }
    }

    /// Effective output channel count, resolving zero to the stream's own.
    pub fn resolved_output_channels(&self) -> (n: usize)
        ensures
            n == self.output_count(),
    {
        if self.output_channels == 0 {
            self.format.channels as usize
        } else {
            self.output_channels as usize
        }
    }

    /// The largest reorder window the buffer target can actually afford.
    ///
    /// A window of `w` packets means up to `w + 1` packet intervals with nothing
    /// entering the ring, drawn entirely from the jitter buffer. Half the target
    /// is the budget, and the window never falls below one, so that a straight
    /// swap of two datagrams is always recovered.
    pub fn default_reorder_window(format: StreamFormat, target_buffer_ms: u32) -> (n: usize)
        requires
            reorder_window(format, target_buffer_ms as nat) <= usize::MAX,
        ensures
            n == reorder_window(format, target_buffer_ms as nat),
    {
        affordable_window(format, target_buffer_ms) as usize
    }

    /// Whether a pipeline of this shape can be built.
    pub fn is_buildable(&self) -> (yes: bool)
        ensures
            yes == self.buildable(),
    {
        if self.format.channels == 0 || self.format.frames_per_packet == 0 {
            return false;
        }
        proof {
            product_fits(self.target_buffer_ms, self.output_rate);
            product_fits(self.ring_capacity_ms, self.format.sample_rate);
        }
        let asked_ms: u64 = self.ring_capacity_ms as u64 * self.format.sample_rate as u64;
        let asked: u64 = asked_ms / 1000;
        let target: u64 = self.target_buffer_ms as u64 * self.output_rate as u64 / 1000;
        let least: u64 = (if target == 0 {
            1
        } else {
            target
        }) + 4 * self.format.frames_per_packet as u64;
        let frames: u64 = if asked > least {
            asked
        } else {
            least
        };
        proof {
            assert(frames * self.format.channels <= 0x1_0000_0000_0000_0000 * 0x1_0000)
                by (nonlinear_arith)
                requires
                    frames <= 0x1_0000_0000_0000_0000,
                    self.format.channels <= 0x1_0000,
            ;
        }
        frames as u128 * self.format.channels as u128 * 4 <= isize::MAX as u128 && asked_ms as u128
            <= usize::MAX as u128
    }

    /// The buffer target, in frames of the output device.
    pub fn target_frames(&self) -> (n: usize)
        requires
            self.prebuffer() <= usize::MAX,
        ensures
            n == self.prebuffer(),
    {
        proof {
            product_fits(self.target_buffer_ms, self.output_rate);
        }
        let frames: u64 = self.target_buffer_ms as u64 * self.output_rate as u64 / 1000;
        if frames == 0 {
            1
        } else {
            frames as usize
        }
    }

    /// The size of the ring, in frames of the stream.
    pub fn ring_capacity_frames(&self) -> (n: usize)
        requires
            self.ring_frames() <= usize::MAX,
            self.ring_capacity_ms * self.format.sample_rate <= usize::MAX,
        ensures
            n == self.ring_frames(),
    {
        let asked: usize = self.ring_capacity_ms as usize * self.format.sample_rate as usize / 1000;
        let least: usize = self.target_frames() + 4 * self.format.frames_per_packet as usize;
        if asked > least {
            asked
        } else {
            least
        }
    }
}

/// A reorder window stalls the stream for no longer than the buffer target
/// lasts, except for the smallest one; and it always allows a simple swap.
pub proof fn the_reorder_window_fits_inside_the_target(format: StreamFormat, target_ms: nat)
    ensures
        ({
            let window = reorder_window(format, target_ms);
            &&& window >= 1
            &&& window == 1 || 2 * (window + 1) * format.frames_per_packet <= frames_in(
                target_ms,
                format.sample_rate as nat,
            )
        }),
{
    let target = frames_in(target_ms, format.sample_rate as nat);
    let per_packet = if format.frames_per_packet == 0 {
        1
    } else {
        format.frames_per_packet as nat
    };
    let window = reorder_window(format, target_ms);
    let fits = target / (2 * per_packet);
    vstd::arithmetic::div_mod::lemma_fundamental_div_mod(target as int, (2 * per_packet) as int);
    if window != 1 {
        assert(2 * (window + 1) * format.frames_per_packet <= (2 * per_packet) * fits)
            by (nonlinear_arith)
            requires
                window + 1 == fits,
                format.frames_per_packet <= per_packet,
        ;
    }
}

/// A bigger buffer never buys less reorder tolerance.
pub proof fn a_bigger_buffer_buys_no_less_tolerance(format: StreamFormat, small: nat, large: nat)
    requires
        small <= large,
    ensures
        reorder_window(format, small) <= reorder_window(format, large),
{
    let rate = format.sample_rate as nat;
    let per_packet = if format.frames_per_packet == 0 {
        1
    } else {
        format.frames_per_packet as nat
    };
    assert(small * rate <= large * rate) by (nonlinear_arith)
        requires
            small <= large,
    ;
    vstd::arithmetic::div_mod::lemma_div_is_ordered(
        frames_in(small, rate) as int,
        frames_in(large, rate) as int,
        (2 * per_packet) as int,
    );
}

/// The ring always has room for the target and more, whatever was asked for.
pub proof fn the_ring_holds_more_than_the_target(config: PipelineConfig)
    requires
        config.format.frames_per_packet > 0,
    ensures
        config.ring_frames() > config.prebuffer(),
{
}

/// What the two halves have counted. Counters wrap.
#[derive(Debug, Clone, Copy, PartialEq, Eq, Structural)]
pub struct PipelineStats {
    pub packets_received: u64,
    pub frames_lost: u64,
    pub packets_late: u64,
    pub packets_duplicate: u64,
    pub packets_reordered: u64,
    pub underruns: u64,
    pub overrun_frames: u64,
}

impl Default for PipelineStats {
    fn default() -> (stats: Self)
        ensures
            stats == nothing_counted(),
    {
        Self {
            packets_received: 0,
            frames_lost: 0,
            packets_late: 0,
            packets_duplicate: 0,
            packets_reordered: 0,
            underruns: 0,
            overrun_frames: 0,
        }
    }
}

/// The counters of a new pipeline.
pub open spec fn nothing_counted() -> PipelineStats {
    PipelineStats {
        packets_received: 0,
        frames_lost: 0,
        packets_late: 0,
        packets_duplicate: 0,
        packets_reordered: 0,
        underruns: 0,
        overrun_frames: 0,
    }
}

impl PipelineStats {
    /// The counters after a packet took the sequencer's from `before` to `after`
    /// and `dropped` frames did not fit in the ring.
    pub open spec fn counted(
        self,
        before: SequencerStats,
        after: SequencerStats,
        dropped: u64,
    ) -> PipelineStats {
        PipelineStats {
            packets_received: self.packets_received.wrapping_add(
                (after.packets_accepted - before.packets_accepted) as u64,
            ),
            packets_late: self.packets_late.wrapping_add(
                (after.packets_late - before.packets_late) as u64,
            ),
            packets_duplicate: self.packets_duplicate.wrapping_add(
                (after.packets_duplicate - before.packets_duplicate) as u64,
            ),
            packets_reordered: self.packets_reordered.wrapping_add(
                (after.packets_buffered - before.packets_buffered) as u64,
            ),
            frames_lost: self.frames_lost.wrapping_add(
                (after.frames_lost - before.frames_lost) as u64,
            ),
            overrun_frames: self.overrun_frames.wrapping_add(dropped),
            underruns: self.underruns,
        }
    }

    /// The counters as the receiver reports them, beside the bit patterns of the
    /// buffer fill and of the resampling ratio.
    pub fn snapshot(&self, buffer_fill_bits: u32, resample_ratio_bits: u64) -> (stats:
        ReceiverStats)
        ensures
            stats == (ReceiverStats {
                packets_received: self.packets_received,
                frames_lost: self.frames_lost,
                packets_late: self.packets_late,
                packets_reordered: self.packets_reordered,
                underruns: self.underruns,
                overruns: self.overrun_frames,
                buffer_fill_bits,
                resample_ratio_bits,
            }),
    {
        ReceiverStats {
            packets_received: self.packets_received,
            frames_lost: self.frames_lost,
            packets_late: self.packets_late,
            packets_reordered: self.packets_reordered,
            underruns: self.underruns,
            overruns: self.overrun_frames,
            buffer_fill_bits,
            resample_ratio_bits,
        }
    }

    pub fn underruns(&self) -> (n: u64)
        ensures
            n == self.underruns,
    {
        self.underruns
    }

    pub fn overrun_frames(&self) -> (n: u64)
        ensures
            n == self.overrun_frames,
    {
        self.overrun_frames
    }

    pub fn frames_lost(&self) -> (n: u64)
        ensures
            n == self.frames_lost,
    {
        self.frames_lost
    }

    pub fn packets_duplicate(&self) -> (n: u64)
        ensures
            n == self.packets_duplicate,
    {
        self.packets_duplicate
    }
}

/// Network-thread half: datagrams in, in-order frames into the ring.
pub struct MediaSink {
    sequencer: Sequencer,
    producer: FrameProducer,
    stats: PipelineStats,
    /// Reused across datagrams.
    staging: Vec<i16>,
    words: Vec<u32>,
    channels: usize,
}

impl MediaSink {
    pub closed spec fn frame_words(&self) -> nat {
        self.channels as nat
    }

    pub closed spec fn window(&self) -> nat {
        self.sequencer.window()
    }

    /// Where the stream stands.
    pub closed spec fn stream(&self) -> sequencer::Stream {
        self.sequencer@
    }

    pub closed spec fn counters(&self) -> PipelineStats {
        self.stats
    }

    /// The writing half of the ring.
    pub closed spec fn ring(&self) -> FrameProducer {
        self.producer
    }

    /// The halves agree on the frame, and only whole frames are held.
    pub closed spec fn wf(&self) -> bool {
        &&& self.sequencer.wf()
        &&& self.producer.wf()
        &&& self.channels > 0
        &&& self.sequencer.channels() == self.channels
        &&& self.producer.frame_words() == self.channels
        &&& sequencer::all_whole(self.sequencer@.pending, self.channels as nat)
    }

    /// The samples can be placed: there are some, they are whole frames, and the
    /// counters and the index have room.
    pub open spec fn takes(&self, sample_idx: u64, samples: Seq<i16>) -> bool {
        is_payload(samples, self.frame_words()) ==> self.stream().has_room(
            self.frame_words(),
            sample_idx,
            samples,
        )
    }

    /// Whether a packet is one that [`MediaSink::accept`] can take: false only
    /// where an index or a counter would overflow.
    pub fn can_accept(&self, sample_idx: u64, samples: &[i16]) -> (yes: bool)
        requires
            self.wf(),
        ensures
            yes == self.takes(sample_idx, samples@),
    {
        samples.len() == 0 || samples.len() % self.channels != 0 || self.sequencer.has_room(
            sample_idx,
            samples,
        )
    }

    /// Places one datagram's samples and forwards whatever became contiguous,
    /// put through `convert`, to the ring.
    ///
    /// A payload that is not a whole number of frames cannot be placed without
    /// shifting the interleave, so it is discarded whole. Frames that do not fit
    /// in the ring are dropped and counted.
    pub fn accept<F: Fn(i16) -> u32>(&mut self, sample_idx: u64, samples: &[i16], convert: F)
        requires
            old(self).wf(),
            old(self).takes(sample_idx, samples@),
            forall|x: i16| call_requires(convert, (x,)),
        ensures
            final(self).wf(),
            final(self).ring().wf(),
            final(self).frame_words() == old(self).frame_words(),
            final(self).window() == old(self).window(),
            accepted(*old(self), *final(self), sample_idx, samples@, convert),
    {
        if samples.len() == 0 || samples.len() % self.channels != 0 {
            return;
        }
        self.staging.clear();
        let before = self.sequencer.stats();
        let ghost ring = self.producer;
        let ghost stream = self.sequencer@;
        proof {
            sequencer::whole_frames_stay_whole(
                stream,
                self.frame_words(),
                self.window(),
                sample_idx,
                samples@,
            );
            sequencer::counters_only_grow(
                stream,
                self.frame_words(),
                self.window(),
                sample_idx,
                samples@,
            );
        }
        self.sequencer.push(sample_idx, samples, &mut self.staging);
        let after = self.sequencer.stats();
        let ghost emitted = self.staging@;
        proof {
            let out = stream.pushed(self.frame_words(), self.window(), sample_idx, samples@).1;
            assert(emitted =~= out);
        }
        self.stats.packets_received = self.stats.packets_received.wrapping_add(
            after.packets_accepted - before.packets_accepted,
        );
        self.stats.packets_late = self.stats.packets_late.wrapping_add(
            after.packets_late - before.packets_late,
        );
        self.stats.packets_duplicate = self.stats.packets_duplicate.wrapping_add(
            after.packets_duplicate - before.packets_duplicate,
        );
        self.stats.packets_reordered = self.stats.packets_reordered.wrapping_add(
            after.packets_buffered - before.packets_buffered,
        );
        self.stats.frames_lost = self.stats.frames_lost.wrapping_add(
            after.frames_lost - before.frames_lost,
        );
        convert_all(self.staging.as_slice(), convert, &mut self.words);
        let dropped: usize = self.producer.push_frames(self.words.as_slice());
        self.stats.overrun_frames = self.stats.overrun_frames.wrapping_add(dropped as u64);
        proof {
            let start = ring.sent().len();
            assert(self.producer.sent().take(start as int) =~= ring.sent());
            assert(forwarded(old(self).ring(), self.ring(), emitted, dropped as u64, convert));
        }
    }

    /// Discards buffered state for a new session. The counters and what is
    /// already in the ring stay.
    pub fn reset(&mut self)
        requires
            old(self).wf(),
        ensures
            final(self).wf(),
            final(self).frame_words() == old(self).frame_words(),
            final(self).window() == old(self).window(),
            final(self).stream() == sequencer::Stream::started(old(self).stream().stats),
            final(self).counters() == old(self).counters(),
            final(self).ring() == old(self).ring(),
    {
        self.sequencer.reset();
        self.staging.clear();
    }

    pub fn stats(&self) -> (stats: PipelineStats)
        ensures
            stats == self.counters(),
    {
        self.stats
    }
}

/// Replaces `words` with `samples`, each put through `convert`.
fn convert_all<F: Fn(i16) -> u32>(samples: &[i16], convert: F, words: &mut Vec<u32>)
    requires
        forall|x: i16| call_requires(convert, (x,)),
    ensures
        final(words)@.len() == samples@.len(),
        forall|i: int|
            0 <= i < samples@.len() ==> call_ensures(
                convert,
                (samples@[i],),
                #[trigger] final(words)@[i],
            ),
{
    words.clear();
    while words.len() < samples.len()
        invariant
            words@.len() <= samples@.len(),
            forall|x: i16| call_requires(convert, (x,)),
            forall|i: int|
                0 <= i < words@.len() ==> call_ensures(
                    convert,
                    (samples@[i],),
                    #[trigger] words@[i],
                ),
        decreases samples@.len() - words@.len(),
    {
        let word: u32 = convert(samples[words.len()]);
        words.push(word);
    }
}

/// What [`MediaSink::accept`] does with a packet.
pub open spec fn accepted<F: Fn(i16) -> u32>(
    before: MediaSink,
    after: MediaSink,
    sample_idx: u64,
    samples: Seq<i16>,
    convert: F,
) -> bool {
    let channels = before.frame_words();
    let (stream, emitted) = before.stream().pushed(channels, before.window(), sample_idx, samples);
    if !is_payload(samples, channels) {
        &&& after.stream() == before.stream()
        &&& after.counters() == before.counters()
        &&& after.ring() == before.ring()
    } else {
        &&& after.stream() == stream
        &&& emitted.len() % channels == 0
        &&& exists|dropped: u64|
            #[trigger] forwarded(before.ring(), after.ring(), emitted, dropped, convert)
                && after.counters() == before.counters().counted(
                before.stream().stats,
                stream.stats,
                dropped,
            )
    }
}

/// The samples are some whole frames.
pub open spec fn is_payload(samples: Seq<i16>, channels: nat) -> bool {
    samples.len() > 0 && samples.len() % channels == 0
}

/// The ring went from `before` to `after` by taking the samples of `emitted`,
/// converted, but for `dropped` frames at its end. Only frames that there was no
/// room for were dropped.
pub open spec fn forwarded<F: Fn(i16) -> u32>(
    before: FrameProducer,
    after: FrameProducer,
    emitted: Seq<i16>,
    dropped: u64,
    convert: F,
) -> bool {
    let offered = emitted.len() / before.frame_words();
    let kept = offered - dropped;
    let start = before.sent().len();
    &&& ring::found_room(before, after, offered as int, kept)
    &&& after.frame_words() == before.frame_words()
    &&& after.capacity_frames() == before.capacity_frames()
    &&& after.traffic() == before.traffic()
    &&& after.sent().len() == start + kept * before.frame_words()
    &&& after.sent().take(start as int) == before.sent()
    &&& forall|i: int|
        0 <= i < kept * before.frame_words() ==> call_ensures(
            convert,
            (emitted[i],),
            #[trigger] after.sent()[start + i],
        )
}

/// Packets that the ring has room for are kept whole, and leave no less room than
/// they take. Where frames are dropped and counted, no room is left.
pub proof fn frames_are_dropped_only_by_a_full_ring<F: Fn(i16) -> u32>(
    before: MediaSink,
    after: MediaSink,
    sample_idx: u64,
    samples: Seq<i16>,
    convert: F,
)
    requires
        is_payload(samples, before.frame_words()),
        accepted(before, after, sample_idx, samples, convert),
    ensures
        ({
            let emitted = before.stream().pushed(
                before.frame_words(),
                before.window(),
                sample_idx,
                samples,
            ).1;
            let offered = emitted.len() / before.ring().frame_words();
            &&& offered <= before.ring().sure_frames() ==> after.counters().overrun_frames
                == before.counters().overrun_frames
            &&& after.counters().overrun_frames != before.counters().overrun_frames
                ==> after.ring().sure_frames() == 0
            &&& after.ring().sure_frames() + offered >= before.ring().sure_frames()
        }),
{
}

/// With a reader that the ring has seen all of, the frames that are dropped and
/// counted are exactly those that do not fit beside the frames that wait.
pub proof fn an_overrun_is_what_the_ring_cannot_hold<F: Fn(i16) -> u32>(
    before: MediaSink,
    after: MediaSink,
    reader: FrameConsumer,
    sample_idx: u64,
    samples: Seq<i16>,
    convert: F,
)
    requires
        before.wf(),
        after.wf(),
        ring::of_one_ring(before.ring(), reader),
        is_payload(samples, before.frame_words()),
        accepted(before, after, sample_idx, samples, convert),
        after.ring().seen() == reader.taken().len(),
    ensures
        ({
            let channels = before.frame_words();
            let emitted = before.stream().pushed(
                channels,
                before.window(),
                sample_idx,
                samples,
            ).1;
            let offered = emitted.len() / channels;
            let vacant = before.ring().capacity_frames() - ring::waiting(
                before.ring(),
                reader,
            ).len() / channels;
            &&& offered <= vacant ==> after.counters().overrun_frames
                == before.counters().overrun_frames
            &&& offered > vacant ==> after.counters().overrun_frames
                == before.counters().overrun_frames.wrapping_add((offered - vacant) as u64)
        }),
{
    let channels = before.frame_words();
    let (stream, emitted) = before.stream().pushed(
        channels,
        before.window(),
        sample_idx,
        samples,
    );
    let offered = emitted.len() / channels;
    let dropped = choose|dropped: u64| #[trigger]
        forwarded(before.ring(), after.ring(), emitted, dropped, convert)
            && after.counters() == before.counters().counted(
            before.stream().stats,
            stream.stats,
            dropped,
        );
    ring::vacant_is_what_does_not_wait(
        before.ring(),
        after.ring(),
        reader,
        offered,
        (offered - dropped) as nat,
    );
}

/// Frames of staging that the mapped render path uses at a time.
pub const SCRATCH_FRAMES: usize = 4096;

/// What one callback did.
#[derive(Debug, Clone, Copy, PartialEq, Eq, Structural)]
pub struct FillReport {
    /// Frames the resampler produced from real input.
    pub frames_rendered: usize,
    /// Frames that had to be filled with silence.
    pub frames_silent: usize,
    /// True while pre-buffering. Silence during this phase is expected and is
    /// not counted as an underrun.
    pub prebuffering: bool,
}

/// How a callback begins.
#[derive(Debug, Clone, Copy, PartialEq, Eq, Structural)]
pub enum FillStart {
    /// The buffer has not reached its target: the whole callback is silence.
    /// Holds the frames that are there.
    Prebuffering { available: usize },
    /// Render, with this many frames there.
    Render { available: usize, run: RenderRun },
}

/// How far one callback has got.
#[derive(Debug, Clone, Copy, PartialEq, Eq, Structural)]
pub struct RenderRun {
    /// Frames the callback asks for.
    pub want: usize,
    /// Frames rendered so far.
    pub done: usize,
    /// The ring ran dry.
    pub dry: bool,
}

/// Audio-callback half: ring out, frames into the device buffer.
pub struct PlaybackSource {
    consumer: FrameConsumer,
    stats: PipelineStats,
    /// The stream's channel count, which is what the ring works in.
    channels: usize,
    /// The output device's channel count.
    out_channels: usize,
    map: ChannelMap,
    /// Playback waits for the buffer to reach its target before starting.
    started: bool,
    prebuffer_frames: usize,
}

impl PlaybackSource {
    /// The reading half of the ring.
    pub closed spec fn ring(&self) -> FrameConsumer {
        self.consumer
    }

    pub closed spec fn counters(&self) -> PipelineStats {
        self.stats
    }

    pub closed spec fn stream_count(&self) -> nat {
        self.channels as nat
    }

    pub closed spec fn output_count(&self) -> nat {
        self.out_channels as nat
    }

    pub closed spec fn is_started(&self) -> bool {
        self.started
    }

    pub closed spec fn prebuffer(&self) -> nat {
        self.prebuffer_frames as nat
    }

    pub closed spec fn wf(&self) -> bool {
        &&& self.consumer.wf()
        &&& self.channels > 0
        &&& self.out_channels > 0
        &&& self.consumer.frame_words() == self.channels
        &&& self.map.wf()
        &&& self.map.source_count() == self.channels
        &&& self.map.target_count() == self.out_channels
    }

    /// Nothing but the ring differs.
    pub open spec fn same_but_ring(&self, other: &PlaybackSource) -> bool {
        &&& self.wf() == other.wf()
        &&& self.counters() == other.counters()
        &&& self.stream_count() == other.stream_count()
        &&& self.output_count() == other.output_count()
        &&& self.prebuffer() == other.prebuffer()
    }

    /// Starts a callback whose buffer holds `out_len` samples at the device's
    /// channel count. Playback starts once the prebuffer target is there, and
    /// then goes on whatever the ring holds.
    pub fn begin(&mut self, out_len: usize) -> (start: FillStart)
        requires
            old(self).wf(),
        ensures
            final(self).wf(),
            final(self).same_but_ring(old(self)),
            final(self).ring().taken() == old(self).ring().taken(),
            final(self).ring().capacity_frames() == old(self).ring().capacity_frames(),
            final(self).ring().traffic() == old(self).ring().traffic(),
            old(self).ring().sure_frames() <= final(self).ring().sure_frames(),
            final(self).output_count() > 0,
            start is Prebuffering <==> !old(self).is_started() && final(self).ring().sure_frames()
                < old(self).prebuffer(),
            final(self).is_started() <==> start is Render,
            match start {
                FillStart::Prebuffering { available } => available
                    == final(self).ring().sure_frames(),
                FillStart::Render { available, run } => {
                    &&& available == final(self).ring().sure_frames()
                    &&& run.want == out_len as nat / final(self).output_count()
                    &&& run.done == 0
                    &&& !run.dry
                },
            },
    {
        let want: usize = out_len / self.out_channels;
        let available: usize = self.consumer.occupied_frames();
        if !self.started {
            if available < self.prebuffer_frames {
                return FillStart::Prebuffering { available };
            }
            self.started = true;
        }
        FillStart::Render { available, run: RenderRun { want, done: 0, dry: false } }
    }

    /// Frames to resample next: none once the callback is full or the ring has
    /// run dry. With a channel map the passes are bounded by the staging buffer;
    /// without one the rest is rendered at once.
    pub fn next_pass(&self, run: RenderRun) -> (frames: usize)
        requires
            self.wf(),
            run.done <= run.want,
        ensures
            frames == self.pass_size(run),
    {
        if run.dry {
            return 0;
        }
        let left: usize = run.want - run.done;
        if self.map.is_passthrough() || left < SCRATCH_FRAMES {
            left
        } else {
            SCRATCH_FRAMES
        }
    }

    /// What [`PlaybackSource::next_pass`] gives.
    pub open spec fn pass_size(&self, run: RenderRun) -> nat {
        if run.dry {
            0
        } else if self.stream_count() == self.output_count() || run.want - run.done
            < SCRATCH_FRAMES {
            (run.want - run.done) as nat
        } else {
            SCRATCH_FRAMES as nat
        }
    }

    /// Takes note that a pass gave `produced` frames. A short pass means that the
    /// ring ran dry.
    pub fn passed(&self, run: RenderRun, produced: usize) -> (after: RenderRun)
        requires
            self.wf(),
            run.done <= run.want,
            produced <= self.pass_size(run),
        ensures
            after == (RenderRun {
                want: run.want,
                done: (run.done + produced) as usize,
                dry: run.dry || produced < self.pass_size(run),
            }),
            after.done <= after.want,
    {
        let pass: usize = self.next_pass(run);
        RenderRun { want: run.want, done: run.done + produced, dry: run.dry || produced < pass }
    }

    /// Reads one frame from the ring, for the resampler.
    pub fn pop_frame(&mut self, frame: &mut [u32]) -> (read: bool)
        requires
            old(self).wf(),
            old(frame)@.len() == old(self).stream_count(),
        ensures
            final(self).wf(),
            final(self).same_but_ring(old(self)),
            final(self).is_started() == old(self).is_started(),
            final(self).ring().traffic() == old(self).ring().traffic(),
            final(frame)@.len() == old(frame)@.len(),
            final(self).ring().capacity_frames() == old(self).ring().capacity_frames(),
            old(self).ring().sure_frames() > 0 ==> read,
            ring::found_frames(
                old(self).ring(),
                final(self).ring(),
                1,
                if read {
                    1
                } else {
                    0
                },
            ),
            read ==> final(self).ring().taken() == old(self).ring().taken() + final(frame)@,
            !read ==> final(self).ring().taken() == old(self).ring().taken() && final(frame)@
                == old(frame)@,
    {
        self.consumer.pop_frame(frame)
    }

    /// Puts the frames that a pass produced into the device buffer, through the
    /// channel map, after those already there.
    pub fn place<T: Copy, F: Fn(&[T]) -> T>(
        &self,
        run: RenderRun,
        staged: &[T],
        out: &mut [T],
        silence: T,
        average: F,
    ) -> (after: RenderRun)
        requires
            self.wf(),
            staged@.len() % self.stream_count() == 0,
            run.done <= run.want,
            run.want == old(out)@.len() / self.output_count(),
            staged@.len() / self.stream_count() <= self.pass_size(run),
            forall|whole: &[T]| call_requires(average, (whole,)),
        ensures
            after == (RenderRun {
                want: run.want,
                done: (run.done + staged@.len() / self.stream_count()) as usize,
                dry: run.dry || staged@.len() / self.stream_count() < self.pass_size(run),
            }),
            after.done <= after.want,
            final(out)@.len() == old(out)@.len(),
            forall|f: int, c: int|
                0 <= f < staged@.len() / self.stream_count() && 0 <= c < self.output_count()
                    ==> channels::channel_gets(
                    self.stream_count(),
                    self.output_count(),
                    channels::frame_of(staged@, self.stream_count(), f),
                    c,
                    silence,
                    average,
                    #[trigger] channels::sample_at(
                        final(out)@.skip(run.done * self.output_count()),
                        self.output_count(),
                        f,
                        c,
                    ),
                ),
            forall|i: int|
                0 <= i < run.done * self.output_count() || after.done * self.output_count() <= i
                    < old(out)@.len() ==> final(out)@[i] == old(out)@[i],
    {
        let produced: usize = staged.len() / self.channels;
        let ghost targets = self.out_channels as nat;
        let ghost before = out@;
        let after = self.passed(run, produced);
        proof {
            vstd::arithmetic::div_mod::lemma_fundamental_div_mod(
                before.len() as int,
                targets as int,
            );
            vstd::arithmetic::mul::lemma_mul_is_commutative(targets as int, run.want as int);
            assert(run.done * targets + produced * targets == after.done * targets && after.done
                * targets <= run.want * targets && 0 <= run.done * targets) by (nonlinear_arith)
                requires
                    after.done == run.done + produced,
                    after.done <= run.want,
            ;
            vstd::arithmetic::div_mod::lemma_div_by_multiple(produced as int, targets as int);
            if targets == self.channels {
                vstd::arithmetic::div_mod::lemma_fundamental_div_mod(
                    staged@.len() as int,
                    targets as int,
                );
                vstd::arithmetic::mul::lemma_mul_is_commutative(targets as int, produced as int);
            }
        }
        assert(out@.len() == out.len());
        let (head, rest) = out.split_at_mut(run.done * self.out_channels);
        let (room, tail) = rest.split_at_mut(produced * self.out_channels);
        self.map.apply(staged, room, silence, average);
        proof {
            assert forall|f: int, c: int|
                0 <= f < produced && 0 <= c < targets implies #[trigger] channels::sample_at(
                out@.skip(run.done * targets),
                targets,
                f,
                c,
            ) == channels::sample_at(room@, targets, f, c) by {
                assert(0 <= f * targets + c < produced * targets) by (nonlinear_arith)
                    requires
                        0 <= f < produced,
                        0 <= c < targets,
                ;
            }
        }
        after
    }

    /// Ends a callback: what was not rendered becomes silence, and a shortfall
    /// is counted as one underrun.
    pub fn finish<T: Copy>(&mut self, run: RenderRun, out: &mut [T], silence: T) -> (report:
        FillReport)
        requires
            old(self).wf(),
            run.done <= run.want,
            run.want == old(out)@.len() / old(self).output_count(),
        ensures
            final(self).wf(),
            final(self).ring() == old(self).ring(),
            final(self).stream_count() == old(self).stream_count(),
            final(self).output_count() == old(self).output_count(),
            final(self).prebuffer() == old(self).prebuffer(),
            final(self).is_started() == old(self).is_started(),
            report == (FillReport {
                frames_rendered: run.done,
                frames_silent: (run.want - run.done) as usize,
                prebuffering: false,
            }),
            final(self).counters() == if run.done < run.want {
                PipelineStats {
                    underruns: old(self).counters().underruns.wrapping_add(1),
                    ..old(self).counters()
                }
            } else {
                old(self).counters()
            },
            final(out)@.len() == old(out)@.len(),
            forall|i: int|
                0 <= i < run.done * old(self).output_count() && i < old(out)@.len()
                    ==> final(out)@[i] == old(out)@[i],
            run.done < run.want ==> forall|i: int|
                run.done * old(self).output_count() <= i < old(out)@.len() ==> final(out)@[i]
                    == silence,
            run.done == run.want ==> final(out)@ == old(out)@,
    {
        let silent: usize = run.want - run.done;
        if silent > 0 {
            proof {
                let targets = self.out_channels as nat;
                vstd::arithmetic::div_mod::lemma_fundamental_div_mod(
                    out@.len() as int,
                    targets as int,
                );
                vstd::arithmetic::mul::lemma_mul_is_commutative(targets as int, run.want as int);
                assert(run.done * targets <= run.want * targets) by (nonlinear_arith)
                    requires
                        run.done <= run.want,
                ;
            }
            assert(out@.len() == out.len());
            let from: usize = run.done * self.out_channels;
            silence_from(out, from, silence);
            self.stats.underruns = self.stats.underruns.wrapping_add(1);
        }
        FillReport { frames_rendered: run.done, frames_silent: silent, prebuffering: false }
    }

    /// A callback that comes while pre-buffering: the whole buffer is silence,
    /// and nothing is counted.
    pub fn prebuffering<T: Copy>(&self, out: &mut [T], silence: T) -> (report: FillReport)
        requires
            self.wf(),
        ensures
            report.frames_rendered == 0,
            report.frames_silent == old(out)@.len() / self.output_count(),
            report.prebuffering,
            final(out)@.len() == old(out)@.len(),
            forall|i: int| 0 <= i < old(out)@.len() ==> final(out)@[i] == silence,
    {
        silence_from(out, 0, silence);
        FillReport {
            frames_rendered: 0,
            frames_silent: out.len() / self.out_channels,
            prebuffering: true,
        }
    }

    /// Returns to pre-buffering and discards what the ring holds: frames are taken
    /// out until none is left, those that the writing half adds meanwhile among
    /// them.
    pub fn reset(&mut self)
        requires
            old(self).wf(),
        ensures
            final(self).wf(),
            final(self).same_but_ring(old(self)),
            !final(self).is_started(),
            final(self).ring().capacity_frames() == old(self).ring().capacity_frames(),
            final(self).ring().traffic() == old(self).ring().traffic(),
            old(self).ring().taken().is_prefix_of(final(self).ring().taken()),
            final(self).ring().taken().len() >= old(self).ring().taken().len()
                + old(self).ring().sure_frames() * old(self).stream_count(),
            final(self).ring().sure_frames() == 0,
    {
        self.started = false;
        let mut frame: Vec<u32> = Vec::new();
        frame.resize(self.channels, 0);
        let ghost mut gone: nat = 0;
        assert(0 * self.channels == 0);
        let mut left = true;
        while left
            invariant
                self.wf(),
                self.same_but_ring(old(self)),
                !self.is_started(),
                self.consumer.capacity_frames() == old(self).ring().capacity_frames(),
                self.consumer.traffic() == old(self).ring().traffic(),
                frame@.len() == self.channels,
                old(self).ring().taken().is_prefix_of(self.consumer.taken()),
                self.consumer.taken().len() == old(self).ring().taken().len() + gone
                    * self.stream_count(),
                self.consumer.sure_frames() + gone >= old(self).ring().sure_frames(),
                !left ==> self.consumer.sure_frames() == 0,
            decreases
                    self.consumer.traffic().len() - self.consumer.taken().len(),
                    if left {
                        1int
                    } else {
                        0
                    },
        {
            left = self.consumer.pop_frame(frame.as_mut_slice());
            proof {
                ring::what_is_taken_has_passed(self.consumer);
                if left {
                    vstd::arithmetic::mul::lemma_mul_is_distributive_add_other_way(
                        self.stream_count() as int,
                        gone as int,
                        1,
                    );
                    gone = gone + 1;
                }
            }
        }
        proof {
            vstd::arithmetic::mul::lemma_mul_inequality(
                old(self).ring().sure_frames() as int,
                gone as int,
                self.stream_count() as int,
            );
        }
    }

    /// The output device's channel count: what the device buffer is laid out in.
    pub fn output_channels(&self) -> (n: usize)
        ensures
            n == self.output_count(),
    {
        self.out_channels
    }

    /// The stream's channel count, before mapping.
    pub fn stream_channels(&self) -> (n: usize)
        ensures
            n == self.stream_count(),
    {
        self.channels
    }

    /// What the channel map will do, for logging.
    pub fn mapping(&self) -> (m: Mapping)
        requires
            self.wf(),
        ensures
            m == channels::mapping_between(self.stream_count(), self.output_count()),
    {
        self.map.mapping()
    }

    /// Samples of staging that the render path needs: none where the channel
    /// counts match.
    pub fn staging_len(&self) -> (n: usize)
        requires
            self.wf(),
            SCRATCH_FRAMES * self.stream_count() <= usize::MAX,
        ensures
            n == if self.stream_count() == self.output_count() {
                0
            } else {
                SCRATCH_FRAMES * self.stream_count()
            },
    {
        if self.map.is_passthrough() {
            0
        } else {
            SCRATCH_FRAMES * self.channels
        }
    }

    pub fn stats(&self) -> (stats: PipelineStats)
        ensures
            stats == self.counters(),
    {
        self.stats
    }
}

/// Silences a buffer from one place on.
fn silence_from<T: Copy>(out: &mut [T], from: usize, silence: T)
    requires
        from <= old(out)@.len(),
    ensures
        final(out)@.len() == old(out)@.len(),
        forall|i: int| 0 <= i < from ==> final(out)@[i] == old(out)@[i],
        forall|i: int| from <= i < old(out)@.len() ==> final(out)@[i] == silence,
{
    let ghost before = out@;
    let mut i: usize = from;
    while i < out.len()
        invariant
            from <= i <= out@.len(),
            out@.len() == before.len(),
            forall|j: int| 0 <= j < from ==> out@[j] == before[j],
            forall|j: int| from <= j < i ==> out@[j] == silence,
        decreases out@.len() - i,
    {
        out[i] = silence;
        i = i + 1;
    }
}

/// Builds both halves of the receive pipeline.
pub fn build(config: PipelineConfig) -> (halves: (MediaSink, PlaybackSource))
    requires
        config.buildable(),
    ensures
        halves.0.wf(),
        halves.0.frame_words() == config.format.channels,
        halves.0.window() == if config.reorder_window_packets == 0 {
            1
        } else {
            config.reorder_window_packets as nat
        },
        halves.0.stream() == sequencer::Stream::started(sequencer::no_packets()),
        halves.0.counters() == nothing_counted(),
        halves.0.ring().sent() == Seq::<u32>::empty(),
        ring::of_one_ring(halves.0.ring(), halves.1.ring()),
        halves.0.ring().frame_words() == config.format.channels,
        halves.0.ring().seen() == 0,
        halves.0.ring().sure_frames() == config.ring_frames(),
        halves.0.ring().capacity_frames() == config.ring_frames(),
        halves.1.wf(),
        halves.1.stream_count() == config.format.channels,
        halves.1.output_count() == config.output_count(),
        halves.1.prebuffer() == config.prebuffer(),
        !halves.1.is_started(),
        halves.1.counters() == nothing_counted(),
        halves.1.ring().taken() == Seq::<u32>::empty(),
        halves.1.ring().sure_frames() == 0,
        halves.1.ring().capacity_frames() == config.ring_frames(),
{
    let channels: usize = config.format.channels as usize;
    proof {
        let frames = config.ring_frames();
        assert(frames <= frames * channels * 4) by (nonlinear_arith)
            requires
                channels >= 1,
        ;
    }
    let capacity: usize = config.ring_capacity_frames();
    let (producer, consumer) = frame_channel(channels, capacity);
    let sink = MediaSink {
        sequencer: Sequencer::new(
            channels,
            config.format.frames_per_packet as usize,
            config.reorder_window_packets,
        ),
        producer,
        stats: PipelineStats::default(),
        staging: Vec::new(),
        words: Vec::new(),
        channels,
    };
    let out_channels: usize = config.resolved_output_channels();
    let source = PlaybackSource {
        consumer,
        stats: PipelineStats::default(),
        channels,
        out_channels,
        map: ChannelMap::new(channels, out_channels),
        started: false,
        prebuffer_frames: config.target_frames(),
    };
    (sink, source)
}

/// Playback never starts with less than the buffer target there: the prebuffer, in
/// frames of the output device, lasts for the target short of one frame, and no
/// longer, unless it is the minimum of one frame. The stream's own rate has no part
/// in it.
pub proof fn the_prebuffer_lasts_for_the_target(config: PipelineConfig)
    ensures
        config.prebuffer() >= 1,
        (config.prebuffer() + 1) * 1000 > config.target_buffer_ms * config.output_rate,
        config.prebuffer() == 1 || config.prebuffer() * 1000 <= config.target_buffer_ms
            * config.output_rate,
{
    product_fits(config.target_buffer_ms, config.output_rate);
}

/// The ring lasts for what was asked for, in frames of the stream, and holds the
/// target and four datagrams besides, whichever is more; and no more than that.
pub proof fn the_ring_lasts_for_what_was_asked(config: PipelineConfig)
    ensures
        (config.ring_frames() + 1) * 1000 > config.ring_capacity_ms * config.format.sample_rate,
        config.ring_frames() >= config.prebuffer() + 4 * config.format.frames_per_packet,
        config.ring_frames() == config.prebuffer() + 4 * config.format.frames_per_packet
            || config.ring_frames() * 1000 <= config.ring_capacity_ms * config.format.sample_rate,
{
    product_fits(config.ring_capacity_ms, config.format.sample_rate);
}

/// The reorder window is the largest whose stall, with one packet to spare, half
/// the buffer target can afford, and one where it can afford none: a wider one
/// would not fit.
pub proof fn the_reorder_window_is_the_largest_that_fits(format: StreamFormat, target_ms: nat)
    ensures
        ({
            let window = reorder_window(format, target_ms);
            let held = target_ms * format.sample_rate;
            &&& window >= 1
            &&& window == 1 || 2 * (window + 1) * format.frames_per_packet * 1000 <= held
            &&& format.frames_per_packet > 0 ==> 2 * (window + 2) * format.frames_per_packet * 1000
                > held
        }),
{
    let held = target_ms * format.sample_rate as nat;
    let target = held / 1000;
    let per_packet = if format.frames_per_packet == 0 {
        1
    } else {
        format.frames_per_packet as nat
    };
    let window = reorder_window(format, target_ms);
    let both = 2 * per_packet;
    let fits = target / both;
    vstd::arithmetic::div_mod::lemma_fundamental_div_mod(target as int, both as int);
    the_reorder_window_fits_inside_the_target(format, target_ms);
    if format.frames_per_packet > 0 {
        vstd::arithmetic::mul::lemma_mul_is_distributive_add(both as int, fits as int, 1);
        assert(2 * (window + 2) * per_packet >= both * (fits + 1)) by (nonlinear_arith)
            requires
                both == 2 * per_packet,
                window + 2 >= fits + 1,
        ;
    }
}

/// Every pipeline that has something to carry, and whose ring fits in memory, can be
/// built.
pub proof fn what_fits_in_memory_is_built(config: PipelineConfig)
    ensures
        config.buildable() ==> config.format.channels > 0 && config.format.frames_per_packet > 0
            && config.ring_frames() * config.format.channels * 4 <= isize::MAX,
        config.format.channels > 0 && config.format.frames_per_packet > 0
            && config.ring_capacity_ms * config.format.sample_rate <= usize::MAX && (
        config.target_buffer_ms * config.output_rate + config.ring_capacity_ms
            * config.format.sample_rate + 1 + 4 * config.format.frames_per_packet)
            * config.format.channels * 4 <= isize::MAX ==> config.buildable(),
{
    the_ring_lasts_for_what_was_asked(config);
    the_prebuffer_lasts_for_the_target(config);
    product_fits(config.target_buffer_ms, config.output_rate);
    product_fits(config.ring_capacity_ms, config.format.sample_rate);
    let most = config.target_buffer_ms * config.output_rate + config.ring_capacity_ms
        * config.format.sample_rate + 1 + 4 * config.format.frames_per_packet;
    let frames = config.ring_frames();
    assert(frames * config.format.channels <= most * config.format.channels) by (nonlinear_arith)
        requires
            frames <= most,
    ;
}

/// A device that says how many channels it has gets that many, and one that does
/// not gets as many as the stream.
pub proof fn the_device_sets_the_output_channels(config: PipelineConfig)
    ensures
        config.output_channels > 0 ==> config.output_count() == config.output_channels,
        config.output_channels == 0 ==> config.output_count() == config.format.channels,
{
}

/// Whole frames are a payload, however many there are; nothing at all is none, nor
/// is anything with part of a frame.
pub proof fn whole_frames_are_a_payload(samples: Seq<i16>, channels: nat, frames: nat)
    requires
        channels > 0,
    ensures
        frames > 0 && samples.len() == frames * channels ==> is_payload(samples, channels),
        samples.len() == 0 ==> !is_payload(samples, channels),
        samples.len() % channels != 0 ==> !is_payload(samples, channels),
{
    if frames > 0 && samples.len() == frames * channels {
        vstd::arithmetic::div_mod::lemma_mod_multiples_basic(frames as int, channels as int);
        assert(frames * channels > 0) by (nonlinear_arith)
            requires
                frames > 0,
                channels > 0,
        ;
    }
}

/// A packet is turned away only at the end of what can be counted: one whose last
/// frame has an index, that leaves no gap beyond counting, and that every counter
/// has room for, is taken.
pub proof fn only_what_cannot_be_counted_is_turned_away(
    sink: MediaSink,
    sample_idx: u64,
    samples: Seq<i16>,
)
    requires
        sink.wf(),
    ensures
        ({
            let stats = sink.stream().stats;
            let from = match sink.stream().next {
                Some(next) => next,
                None => sample_idx,
            };
            &&& sample_idx + samples.len() <= u64::MAX && stats.packets_accepted < u64::MAX
                && stats.packets_late < u64::MAX && stats.packets_duplicate < u64::MAX
                && stats.packets_buffered < u64::MAX && stats.frames_lost + sample_idx - from
                <= u64::MAX ==> sink.takes(sample_idx, samples)
        }),
{
    let channels = sink.frame_words();
    assert(samples.len() / channels <= samples.len()) by {
        vstd::arithmetic::div_mod::lemma_div_nonincreasing(samples.len() as int, channels as int);
    }
}

/// Each packet of whole frames is counted once in what the receiver reports: as
/// received, unless its place has been played, when it is late, or it is already
/// held, when it is a duplicate. Frames that its arrival shows to be lost are counted
/// too, and it makes no underrun.
pub proof fn the_report_counts_each_packet_once<F: Fn(i16) -> u32>(
    before: MediaSink,
    after: MediaSink,
    sample_idx: u64,
    samples: Seq<i16>,
    convert: F,
)
    requires
        before.wf(),
        before.takes(sample_idx, samples),
        samples.len() > 0,
        samples.len() % before.frame_words() == 0,
        accepted(before, after, sample_idx, samples, convert),
    ensures
        ({
            let late = before.stream().next matches Some(next) && sample_idx < next;
            let again = before.stream().pending.contains_key(sample_idx);
            let was = before.counters();
            let is = after.counters();
            &&& is.packets_received == if late || again {
                was.packets_received
            } else {
                was.packets_received.wrapping_add(1)
            }
            &&& is.packets_late == if late {
                was.packets_late.wrapping_add(1)
            } else {
                was.packets_late
            }
            &&& is.packets_duplicate == if again && !late {
                was.packets_duplicate.wrapping_add(1)
            } else {
                was.packets_duplicate
            }
            &&& is.packets_reordered == if !late && !again && sample_idx != before.stream().base(
                sample_idx,
            ) {
                was.packets_reordered.wrapping_add(1)
            } else {
                was.packets_reordered
            }
            &&& is.frames_lost == was.frames_lost.wrapping_add(
                (after.stream().stats.frames_lost - before.stream().stats.frames_lost) as u64,
            )
            &&& is.underruns == was.underruns
        }),
{
    let channels = before.frame_words();
    whole_frames_are_a_payload(samples, channels, samples.len() / channels);
    assert(samples.len() >= channels) by {
        if samples.len() < channels {
            vstd::arithmetic::div_mod::lemma_small_mod(samples.len(), channels);
        }
    }
    sequencer::each_packet_is_counted_once(
        before.stream(),
        channels,
        before.window(),
        sample_idx,
        samples,
    );
    sequencer::only_packets_ahead_are_held_back(
        before.stream(),
        channels,
        before.window(),
        sample_idx,
        samples,
    );
}

/// A packet that is next in turn goes straight to the ring: while there is room for
/// it and nothing is held back, all of its samples are written, converted and in
/// their order, behind what was there.
pub proof fn a_packet_in_turn_goes_straight_to_the_ring<F: Fn(i16) -> u32>(
    before: MediaSink,
    after: MediaSink,
    sample_idx: u64,
    samples: Seq<i16>,
    convert: F,
)
    requires
        before.wf(),
        before.takes(sample_idx, samples),
        samples.len() > 0,
        samples.len() % before.frame_words() == 0,
        before.stream().pending == Map::<u64, Seq<i16>>::empty(),
        before.stream().next is None || before.stream().next == Some(sample_idx),
        samples.len() / before.frame_words() <= before.ring().sure_frames(),
        accepted(before, after, sample_idx, samples, convert),
    ensures
        after.ring().sent().len() == before.ring().sent().len() + samples.len(),
        after.ring().sent().take(before.ring().sent().len() as int) == before.ring().sent(),
        forall|i: int|
            0 <= i < samples.len() ==> call_ensures(
                convert,
                (samples[i],),
                #[trigger] after.ring().sent()[before.ring().sent().len() + i],
            ),
        after.stream().next == Some(
            (sample_idx + samples.len() / before.frame_words()) as u64,
        ),
        after.counters().frames_lost == before.counters().frames_lost,
        after.counters().overrun_frames == before.counters().overrun_frames,
{
    let channels = before.frame_words();
    whole_frames_are_a_payload(samples, channels, samples.len() / channels);
    vstd::arithmetic::div_mod::lemma_fundamental_div_mod(samples.len() as int, channels as int);
    vstd::arithmetic::mul::lemma_mul_is_commutative(
        (samples.len() / channels) as int,
        channels as int,
    );
    assert(samples.len() / channels > 0) by {
        if samples.len() / channels == 0 {
            assert(channels * 0 == 0);
        }
    }
    let (stream, emitted) = before.stream().pushed(
        channels,
        before.window(),
        sample_idx,
        samples,
    );
    assert(samples + Seq::<i16>::empty() =~= samples);
    assert(emitted == samples);
}

/// What waits to be rendered is rendered, in passes no larger than the staging
/// buffer where channels are mapped and at once where they are not, until the
/// callback is full or the ring is dry.
pub proof fn a_pass_renders_what_is_left(source: PlaybackSource, run: RenderRun)
    requires
        run.done <= run.want,
    ensures
        run.dry ==> source.pass_size(run) == 0,
        !run.dry && run.done < run.want ==> source.pass_size(run) > 0,
        run.done + source.pass_size(run) <= run.want,
        !run.dry && source.stream_count() == source.output_count() ==> run.done
            + source.pass_size(run) == run.want,
        !run.dry && source.stream_count() != source.output_count() ==> {
            &&& source.pass_size(run) <= 4096
            &&& run.done + source.pass_size(run) == run.want || source.pass_size(run) == 4096
        },
{
}

/// What changes with the ring alone leaves the counters, the channels and the target
/// as they are.
pub proof fn only_the_ring_changes(a: &PlaybackSource, b: &PlaybackSource)
    requires
        a.same_but_ring(b),
    ensures
        a.counters() == b.counters(),
        a.stream_count() == b.stream_count(),
        a.output_count() == b.output_count(),
        a.prebuffer() == b.prebuffer(),
{
}

/// A new pipeline has counted nothing.
pub proof fn a_new_pipeline_has_counted_nothing()
    ensures
        ({
            let n = nothing_counted();
            &&& n.packets_received == 0 && n.frames_lost == 0 && n.packets_late == 0
            &&& n.packets_duplicate == 0 && n.packets_reordered == 0
            &&& n.underruns == 0 && n.overrun_frames == 0
        }),
{
}

} // verus!
