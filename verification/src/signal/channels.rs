//! Mapping a stream's channel count onto an output device's.
//!
//! The device's channel count is authoritative, the same way its sample rate
//! is, and a mismatch is resolved here rather than being pushed onto the driver.

use vstd::prelude::*;

verus! {

/// How a stream's channels are laid out across an output device's.
#[derive(Debug, Clone, Copy, PartialEq, Eq, Structural)]
pub struct ChannelMap {
    source: usize,
    target: usize,
}

/// What a [`ChannelMap`] will actually do, for logging.
#[derive(Debug, Clone, Copy, PartialEq, Eq, Structural)]
pub enum Mapping {
    /// Counts match; samples are copied through untouched.
    Passthrough,
    /// One source channel replicated to every output channel.
    FanOutMono,
    /// All source channels averaged into one.
    DownmixToMono,
    /// Source channels copied in order, remaining output channels silenced.
    PadWithSilence,
    /// Leading output channels copied in order, extra source channels discarded.
    TruncateExtra,
}

impl Mapping {
    /// The mapping in words.
    pub open spec fn words(self) -> Seq<char> {
        match self {
            Mapping::Passthrough => "passthrough"@,
            Mapping::FanOutMono => "mono fanned out to every output channel"@,
            Mapping::DownmixToMono => "downmixed to mono"@,
            Mapping::PadWithSilence => "copied in order, extra output channels silent"@,
            Mapping::TruncateExtra => "extra source channels discarded"@,
        }
    }

    pub fn describe(self) -> (words: &'static str)
        ensures
            words@ == self.words(),
    {
        match self {
            Mapping::Passthrough => "passthrough",
            Mapping::FanOutMono => "mono fanned out to every output channel",
            Mapping::DownmixToMono => "downmixed to mono",
            Mapping::PadWithSilence => "copied in order, extra output channels silent",
            Mapping::TruncateExtra => "extra source channels discarded",
        }
    }
}

/// What maps `source` channels onto `target`.
pub open spec fn mapping_between(source: nat, target: nat) -> Mapping {
    if source == target {
        Mapping::Passthrough
    } else if source == 1 {
        Mapping::FanOutMono
    } else if target == 1 {
        Mapping::DownmixToMono
    } else if source < target {
        Mapping::PadWithSilence
    } else {
        Mapping::TruncateExtra
    }
}

/// The samples of one frame.
pub open spec fn frame_of<T>(samples: Seq<T>, channels: nat, frame: int) -> Seq<T> {
    samples.subrange(frame * channels, frame * channels + channels)
}

/// The sample of one channel in one frame.
pub open spec fn sample_at<T>(samples: Seq<T>, channels: nat, frame: int, channel: int) -> T {
    samples[frame * channels + channel]
}

/// Where a frame stands among the samples.
proof fn frame_bounds(len: nat, channels: nat, frame: int)
    requires
        channels > 0,
        0 <= frame < len / channels,
    ensures
        0 <= frame * channels,
        frame * channels + channels <= len,
        frame * channels + channels == (frame + 1) * channels,
{
    let frames = (len / channels) as int;
    assert(0 <= frame * channels && frame * channels + channels == (frame + 1) * channels && (frame
        + 1) * channels <= frames * channels) by (nonlinear_arith)
        requires
            channels > 0,
            0 <= frame < frames,
    ;
    vstd::arithmetic::div_mod::lemma_fundamental_div_mod(len as int, channels as int);
    vstd::arithmetic::mul::lemma_mul_is_commutative(frames, channels as int);
}

/// Samples of an earlier frame stand before those of a later one.
proof fn earlier_frame(channels: nat, earlier: int, channel: int, later: int)
    requires
        0 <= channel < channels,
        0 <= earlier < later,
    ensures
        0 <= earlier * channels + channel < later * channels,
{
    assert(0 <= earlier * channels && earlier * channels + channel < later * channels)
        by (nonlinear_arith)
        requires
            0 <= channel < channels,
            0 <= earlier < later,
    ;
}

/// `value` is what an output channel gets of a source frame: the frame's own
/// sample at that channel, or its only sample, or what `average` makes of the
/// whole frame, or silence.
pub open spec fn channel_gets<T, F: Fn(&[T]) -> T>(
    source: nat,
    target: nat,
    frame: Seq<T>,
    channel: int,
    silence: T,
    average: F,
    value: T,
) -> bool {
    match mapping_between(source, target) {
        Mapping::Passthrough => value == frame[channel],
        Mapping::FanOutMono => value == frame[0],
        Mapping::DownmixToMono => exists|whole: &[T]|
            #![trigger call_ensures(average, (whole,), value)]
            whole@ == frame && call_ensures(average, (whole,), value),
        Mapping::PadWithSilence => value == if channel < source {
            frame[channel]
        } else {
            silence
        },
        Mapping::TruncateExtra => value == frame[channel],
    }
}

impl ChannelMap {
    pub closed spec fn source_count(&self) -> nat {
        self.source as nat
    }

    pub closed spec fn target_count(&self) -> nat {
        self.target as nat
    }

    pub closed spec fn wf(&self) -> bool {
        self.source > 0 && self.target > 0
    }

    pub fn new(source: usize, target: usize) -> (map: Self)
        requires
            source > 0,
            target > 0,
        ensures
            map.wf(),
            map.source_count() == source,
            map.target_count() == target,
    {
        Self { source, target }
    }

    pub fn source(&self) -> (n: usize)
        ensures
            n == self.source_count(),
    {
        self.source
    }

    pub fn target(&self) -> (n: usize)
        ensures
            n == self.target_count(),
    {
        self.target
    }

    pub fn is_passthrough(&self) -> (yes: bool)
        ensures
            yes == (self.source_count() == self.target_count()),
    {
        self.source == self.target
    }

    pub fn mapping(&self) -> (m: Mapping)
        ensures
            m == mapping_between(self.source_count(), self.target_count()),
    {
        if self.source == self.target {
            Mapping::Passthrough
        } else if self.source == 1 {
            Mapping::FanOutMono
        } else if self.target == 1 {
            Mapping::DownmixToMono
        } else if self.source < self.target {
            Mapping::PadWithSilence
        } else {
            Mapping::TruncateExtra
        }
    }

    /// Maps `src` frames into `dst`, which hold the same number of frames at
    /// their respective channel counts. Every frame of `dst` is written whole;
    /// what it holds past its last whole frame is left alone.
    ///
    /// `silence` goes to output channels that no source channel feeds, and
    /// `average` makes one sample of a frame.
    pub fn apply<T: Copy, F: Fn(&[T]) -> T>(
        &self,
        src: &[T],
        dst: &mut [T],
        silence: T,
        average: F,
    )
        requires
            self.wf(),
            src@.len() / self.source_count() == old(dst)@.len() / self.target_count(),
            self.source_count() == self.target_count() ==> src@.len() == old(dst)@.len(),
            forall|whole: &[T]| call_requires(average, (whole,)),
        ensures
            final(dst)@.len() == old(dst)@.len(),
            self.source_count() == self.target_count() ==> final(dst)@ == src@,
            forall|f: int, c: int|
                0 <= f < src@.len() / self.source_count() && 0 <= c < self.target_count()
                    ==> channel_gets(
                    self.source_count(),
                    self.target_count(),
                    frame_of(src@, self.source_count(), f),
                    c,
                    silence,
                    average,
                    #[trigger] sample_at(final(dst)@, self.target_count(), f, c),
                ),
            self.source_count() != self.target_count() ==> forall|i: int|
                (src@.len() / self.source_count()) * self.target_count() <= i < old(dst)@.len()
                    ==> final(dst)@[i] == old(dst)@[i],
    {
        let frames: usize = src.len() / self.source;
        let ghost before = dst@;
        let ghost source = self.source as nat;
        let ghost target = self.target as nat;
        if self.source == self.target {
            let mut i: usize = 0;
            while i < src.len()
                invariant
                    i <= src@.len() == dst@.len(),
                    forall|j: int| 0 <= j < i ==> dst@[j] == src@[j],
                decreases src@.len() - i,
            {
                dst[i] = src[i];
                i = i + 1;
            }
            assert(dst@ =~= src@);
            proof {
                assert forall|f: int, c: int|
                    0 <= f < src@.len() / source && 0 <= c < target implies channel_gets(
                    source,
                    target,
                    frame_of(src@, source, f),
                    c,
                    silence,
                    average,
                    #[trigger] sample_at(dst@, target, f, c),
                ) by {
                    frame_bounds(src@.len(), source, f);
                }
            }
            return;
        }
        let mapping = self.mapping();
        let mut f: usize = 0;
        assert(0 * target == 0);
        while f < frames
            invariant
                self.wf(),
                source == self.source,
                target == self.target,
                source != target,
                mapping == mapping_between(source, target),
                f <= frames,
                frames == src@.len() / source,
                frames == before.len() / target,
                dst@.len() == before.len(),
                forall|whole: &[T]| call_requires(average, (whole,)),
                forall|g: int, c: int|
                    0 <= g < f && 0 <= c < target ==> channel_gets(
                        source,
                        target,
                        frame_of(src@, source, g),
                        c,
                        silence,
                        average,
                        #[trigger] sample_at(dst@, target, g, c),
                    ),
                forall|i: int| f * target <= i < before.len() ==> dst@[i] == before[i],
            decreases frames - f,
        {
            proof {
                frame_bounds(src@.len(), source, f as int);
                frame_bounds(before.len(), target, f as int);
            }
            assert(src@.len() == src.len() && dst@.len() == dst.len());
            let start: usize = f * self.source;
            let base: usize = f * self.target;
            let frame = &src[start..start + self.source];
            assert(frame@ == frame_of(src@, source, f as int));
            let mut c: usize = 0;
            while c < self.target
                invariant
                    self.wf(),
                    source == self.source,
                    target == self.target,
                    source != target,
                    mapping == mapping_between(source, target),
                    c <= target,
                    base == f * target,
                    base + target <= before.len(),
                    dst@.len() == before.len(),
                    dst@.len() == dst.len(),
                    frame@.len() == source,
                    frame@ == frame_of(src@, source, f as int),
                    forall|whole: &[T]| call_requires(average, (whole,)),
                    forall|g: int, d: int|
                        (0 <= g < f && 0 <= d < target) || (g == f && 0 <= d < c) ==> channel_gets(
                            source,
                            target,
                            frame_of(src@, source, g),
                            d,
                            silence,
                            average,
                            #[trigger] sample_at(dst@, target, g, d),
                        ),
                    forall|i: int| base + c <= i < before.len() ==> dst@[i] == before[i],
                decreases target - c,
            {
                let value: T = match mapping {
                    Mapping::FanOutMono => frame[0],
                    Mapping::DownmixToMono => average(frame),
                    _ => if c < self.source {
                        frame[c]
                    } else {
                        silence
                    },
                };
                let ghost was = dst@;
                dst[base + c] = value;
                proof {
                    assert forall|g: int, d: int|
                        (0 <= g < f && 0 <= d < target) || (g == f && 0 <= d
                            <= c) implies channel_gets(
                        source,
                        target,
                        frame_of(src@, source, g),
                        d,
                        silence,
                        average,
                        #[trigger] sample_at(dst@, target, g, d),
                    ) by {
                        if g < f {
                            earlier_frame(target, g, d, f as int);
                        }
                        if g < f || d < c {
                            assert(sample_at(dst@, target, g, d) == sample_at(was, target, g, d));
                        }
                    }
                }
                c = c + 1;
            }
            f = f + 1;
        }
    }
}

/// What each output channel gets depends on the source frame alone: two
/// destinations mapped from the same source, with an `average` that gives one
/// answer, agree in every sample of every frame.
pub proof fn mapping_is_determined<T, F: Fn(&[T]) -> T>(
    source: nat,
    target: nat,
    frame: Seq<T>,
    channel: int,
    silence: T,
    average: F,
    a: T,
    b: T,
)
    requires
        channel_gets(source, target, frame, channel, silence, average, a),
        channel_gets(source, target, frame, channel, silence, average, b),
        forall|x: &[T], y: &[T], p: T, q: T|
            x@ == y@ && call_ensures(average, (x,), p) && call_ensures(average, (y,), q) ==> p == q,
    ensures
        a == b,
{
}

/// What is done follows from the two counts: equal ones pass through, one channel
/// fans out, several are averaged into one, fewer are padded with silence and more
/// are cut off.
pub proof fn the_mapping_follows_the_counts(source: nat, target: nat)
    requires
        source > 0 && target > 0 || source == target,
    ensures
        mapping_between(source, target) == Mapping::Passthrough <==> source == target,
        mapping_between(source, target) == Mapping::FanOutMono <==> source == 1 && target != 1,
        mapping_between(source, target) == Mapping::DownmixToMono <==> source > 1 && target == 1,
        mapping_between(source, target) == Mapping::PadWithSilence <==> 1 < source < target,
        mapping_between(source, target) == Mapping::TruncateExtra <==> source > target > 1,
{
}

/// What an output channel hears, count by count. A stream that has the channel is
/// heard on it as it is; a mono stream is heard on every channel; a mono device
/// hears the average of the whole frame; and a channel that the stream does not have
/// is silent.
pub proof fn each_output_channel_hears_its_own<T, F: Fn(&[T]) -> T>(
    source: nat,
    target: nat,
    frame: Seq<T>,
    channel: int,
    silence: T,
    average: F,
    value: T,
)
    requires
        0 < source == frame.len(),
        0 <= channel < target,
    ensures
        ({
            let hears = channel_gets(source, target, frame, channel, silence, average, value);
            &&& channel < source && source != 1 && (target != 1 || source == target) ==> (hears
                <==> value == frame[channel])
            &&& source == 1 ==> (hears <==> value == frame[0])
            &&& source > 1 && channel >= source ==> (hears <==> value == silence)
            &&& source > 1 && target == 1 ==> (hears <==> exists|whole: &[T]|
                #![trigger call_ensures(average, (whole,), value)]
                whole@ == frame && call_ensures(average, (whole,), value))
        }),
{
}

/// A mapping is named for what it does.
pub proof fn each_mapping_has_its_own_words()
    ensures
        Mapping::Passthrough.words() == "passthrough"@,
        Mapping::FanOutMono.words() == "mono fanned out to every output channel"@,
        Mapping::DownmixToMono.words() == "downmixed to mono"@,
        Mapping::PadWithSilence.words() == "copied in order, extra output channels silent"@,
        Mapping::TruncateExtra.words() == "extra source channels discarded"@,
{
}

/// Samples are interleaved: a frame is as many neighbouring samples as there are
/// channels, and a channel has its own place in each.
pub proof fn samples_are_interleaved<T>(samples: Seq<T>, channels: nat, frame: int, channel: int)
    requires
        0 <= frame,
        0 <= channel < channels,
        (frame + 1) * channels <= samples.len(),
    ensures
        frame_of(samples, channels, frame).len() == channels,
        frame_of(samples, channels, frame)[channel] == samples[frame * channels + channel],
        sample_at(samples, channels, frame, channel) == samples[frame * channels + channel],
{
    assert(0 <= frame * channels && frame * channels + channels == (frame + 1) * channels)
        by (nonlinear_arith)
        requires
            0 <= frame,
    ;
}

} // verus!
