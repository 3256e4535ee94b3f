//! Turns a stream of datagrams that may arrive out of order, twice, or not at
//! all into a single in-order run of samples.
//!
//! Placement is by `sample_idx`, never by arrival order.

use std::collections::BTreeMap;

use vstd::prelude::*;

verus! {

/// Counters describing what the sequencer had to do to keep the stream
/// contiguous.
#[derive(Debug, Clone, Copy, PartialEq, Eq, Structural)]
pub struct SequencerStats {
    pub packets_accepted: u64,
    /// Arrived entirely in the past: its samples had already been played.
    pub packets_late: u64,
    /// Same `sample_idx` seen twice.
    pub packets_duplicate: u64,
    /// Arrived ahead of the next expected index and had to be held back.
    pub packets_buffered: u64,
    /// Frames invented as silence because the datagram carrying them never
    /// showed up before the window was full.
    pub frames_lost: u64,
}

impl Default for SequencerStats {
    fn default() -> (stats: Self)
        ensures
            stats == no_packets(),
    {
        Self {
            packets_accepted: 0,
            packets_late: 0,
            packets_duplicate: 0,
            packets_buffered: 0,
            frames_lost: 0,
        }
    }
}

/// The counters before the first packet.
pub open spec fn no_packets() -> SequencerStats {
    SequencerStats {
        packets_accepted: 0,
        packets_late: 0,
        packets_duplicate: 0,
        packets_buffered: 0,
        frames_lost: 0,
    }
}

/// Where the stream stands.
#[verifier::ext_equal]
pub struct Stream {
    /// Index of the next frame to emit; `None` until a packet sets the origin.
    pub next: Option<u64>,
    /// Packets held back, by the index of their first frame.
    pub pending: Map<u64, Seq<i16>>,
    pub stats: SequencerStats,
}

/// Whole frames in a run of samples.
pub open spec fn frames(samples: Seq<i16>, channels: nat) -> nat {
    samples.len() / channels
}

/// `n` samples of silence.
pub open spec fn silence(n: nat) -> Seq<i16> {
    Seq::new(n, |i: int| 0i16)
}

/// What comes out when held packets are released from `next` on for as long as
/// the one that continues the stream is there: the samples, the next index, and
/// the packets still held.
pub open spec fn drained(next: u64, pending: Map<u64, Seq<i16>>, channels: nat) -> (
    Seq<i16>,
    u64,
    Map<u64, Seq<i16>>,
)
    decreases pending.len(),
    when pending.dom().finite()
{
    if pending.contains_key(next) {
        let s = pending[next];
        let (out, end, left) = drained(
            (next + frames(s, channels)) as u64,
            pending.remove(next),
            channels,
        );
        (s + out, end, left)
    } else {
        (seq![], next, pending)
    }
}

/// `k` is the smallest index held.
pub open spec fn is_oldest(pending: Map<u64, Seq<i16>>, k: u64) -> bool {
    pending.contains_key(k) && forall|j: u64| #[trigger] pending.contains_key(j) ==> k <= j
}

/// The smallest index held.
pub open spec fn oldest(pending: Map<u64, Seq<i16>>) -> u64 {
    choose|k: u64| is_oldest(pending, k)
}

/// One packet more in one counter.
pub open spec fn one_more(n: u64) -> u64 {
    (n + 1) as u64
}

impl Stream {
    /// No packet has arrived yet, or none since a reset.
    pub open spec fn started(stats: SequencerStats) -> Stream {
        Stream { next: None, pending: Map::empty(), stats }
    }

    /// The index a packet is measured against: its own, where it is the first.
    pub open spec fn base(self, sample_idx: u64) -> u64 {
        match self.next {
            Some(n) => n,
            None => sample_idx,
        }
    }

    /// The stream after a packet, and the samples that became contiguous.
    pub open spec fn pushed(
        self,
        channels: nat,
        window: nat,
        sample_idx: u64,
        samples: Seq<i16>,
    ) -> (Stream, Seq<i16>) {
        let next = self.base(sample_idx);
        let stats = self.stats;
        if frames(samples, channels) == 0 {
            (self, seq![])
        } else if sample_idx < next {
            (
                Stream {
                    stats: SequencerStats { packets_late: one_more(stats.packets_late), ..stats },
                    ..self
                },
                seq![],
            )
        } else if self.pending.contains_key(sample_idx) {
            (
                Stream {
                    next: Some(next),
                    stats: SequencerStats {
                        packets_duplicate: one_more(stats.packets_duplicate),
                        ..stats
                    },
                    ..self
                },
                seq![],
            )
        } else if sample_idx == next {
            let (out, end, left) = drained(
                (next + frames(samples, channels)) as u64,
                self.pending,
                channels,
            );
            (
                Stream {
                    next: Some(end),
                    pending: left,
                    stats: SequencerStats {
                        packets_accepted: one_more(stats.packets_accepted),
                        ..stats
                    },
                },
                samples + out,
            )
        } else {
            let held = self.pending.insert(sample_idx, samples);
            let buffered = SequencerStats {
                packets_accepted: one_more(stats.packets_accepted),
                packets_buffered: one_more(stats.packets_buffered),
                ..stats
            };
            if held.len() <= window {
                (Stream { next: Some(next), pending: held, stats: buffered }, seq![])
            } else {
                Stream { next: Some(next), pending: held, stats: buffered }.gave_up(channels)
            }
        }
    }

    /// The stream after filling silence up to the oldest held packet and
    /// releasing what that made contiguous, and what came out.
    pub open spec fn gave_up(self, channels: nat) -> (Stream, Seq<i16>) {
        let first = oldest(self.pending);
        let next = self.next->Some_0;
        let missing: nat = if first > next {
            (first - next) as nat
        } else {
            0
        };
        let (out, end, left) = drained(
            if first > next {
                first
            } else {
                next
            },
            self.pending,
            channels,
        );
        (
            Stream {
                next: Some(end),
                pending: left,
                stats: SequencerStats {
                    frames_lost: (self.stats.frames_lost + missing) as u64,
                    ..self.stats
                },
            },
            silence(missing * channels) + out,
        )
    }

    /// The counters and the index can take one more packet without overflow.
    pub open spec fn has_room(self, channels: nat, sample_idx: u64, samples: Seq<i16>) -> bool {
        &&& sample_idx + frames(samples, channels) <= u64::MAX
        &&& self.stats.packets_accepted < u64::MAX
        &&& self.stats.packets_late < u64::MAX
        &&& self.stats.packets_duplicate < u64::MAX
        &&& self.stats.packets_buffered < u64::MAX
        &&& self.stats.frames_lost + sample_idx - self.base(sample_idx) <= u64::MAX
    }

    /// What every reachable stream satisfies.
    pub open spec fn wf(self, channels: nat) -> bool {
        &&& self.pending.dom().finite()
        &&& self.next is None ==> self.pending.len() == 0
        &&& forall|k: u64| #[trigger]
            self.pending.contains_key(k) ==> {
                &&& frames(self.pending[k], channels) > 0
                &&& k + frames(self.pending[k], channels) <= u64::MAX
            }
    }
}

/// Reassembles datagrams into a contiguous sample stream.
///
/// Meant for a fixed packet size, which the control handshake negotiates. A
/// datagram whose `sample_idx` falls before the next expected index is treated
/// as wholly late.
pub struct Sequencer {
    channels: usize,
    frames_per_packet: usize,
    window_packets: usize,
    next_idx: Option<u64>,
    pending: BTreeMap<u64, Vec<i16>>,
    stats: SequencerStats,
}

/// Held packets, by what their vectors hold.
pub open spec fn contents(m: Map<u64, Vec<i16>>) -> Map<u64, Seq<i16>> {
    m.map_values(|v: Vec<i16>| v@)
}

/// A held packet with the smallest index exists wherever a packet is held.
proof fn oldest_exists(pending: Map<u64, Seq<i16>>)
    requires
        pending.dom().finite(),
        pending.len() > 0,
    ensures
        is_oldest(pending, oldest(pending)),
    decreases pending.len(),
{
    let k = pending.dom().choose();
    assert(pending.contains_key(k));
    let rest = pending.remove(k);
    if rest.len() == 0 {
        assert forall|j: u64| #[trigger] pending.contains_key(j) implies k <= j by {
            if j != k {
                assert(rest.dom().contains(j));
                assert(rest.dom() =~= Set::empty());
            }
        }
        assert(is_oldest(pending, k));
    } else {
        oldest_exists(rest);
        let first = oldest(rest);
        assert forall|j: u64| #[trigger] pending.contains_key(j) && j != k implies first <= j by {
            assert(rest.contains_key(j));
        }
        assert(is_oldest(rest, first));
        assert(pending.contains_key(first));
        assert(is_oldest(pending, if k < first { k } else { first }));
    }
}

/// Taking the vectors' contents keeps the number of packets.
proof fn contents_len(m: Map<u64, Vec<i16>>)
    ensures
        contents(m).len() == m.len(),
{
    assert(contents(m).dom() =~= m.dom());
}

/// Appends `frames` frames of silence.
fn push_silence(out: &mut Vec<i16>, frames: u64, channels: usize)
    ensures
        final(out)@ == old(out)@ + silence((frames * channels) as nat),
{
    let mut f: u64 = 0;
    assert(silence(0) =~= Seq::<i16>::empty());
    assert(0 * channels == 0);
    while f < frames
        invariant
            f <= frames,
            out@ =~= old(out)@ + silence((f * channels) as nat),
        decreases frames - f,
    {
        let ghost before = out@;
        let mut c: usize = 0;
        while c < channels
            invariant
                c <= channels,
                out@ =~= before + silence(c as nat),
            decreases channels - c,
        {
            out.push(0);
            c = c + 1;
        }
        assert((f + 1) * channels == f * channels + channels) by (nonlinear_arith);
        f = f + 1;
    }
}

impl View for Sequencer {
    type V = Stream;

    closed spec fn view(&self) -> Stream {
        Stream { next: self.next_idx, pending: contents(self.pending@), stats: self.stats }
    }
}

impl Sequencer {
    pub closed spec fn channels(&self) -> nat {
        self.channels as nat
    }

    pub closed spec fn packet_frames(&self) -> nat {
        self.frames_per_packet as nat
    }

    /// How many packets may be held before the missing one is given up on.
    pub closed spec fn window(&self) -> nat {
        self.window_packets as nat
    }

    pub open spec fn wf(&self) -> bool {
        &&& self.channels() > 0
        &&& self.packet_frames() > 0
        &&& self.window() > 0
        &&& self@.wf(self.channels())
    }

    pub fn new(channels: usize, frames_per_packet: usize, window_packets: usize) -> (s: Self)
        requires
            channels > 0,
            frames_per_packet > 0,
        ensures
            s.wf(),
            s.channels() == channels,
            s.packet_frames() == frames_per_packet,
            s.window() == if window_packets == 0 {
                1
            } else {
                window_packets as nat
            },
            s@ == Stream::started(no_packets()),
    {
        let s = Self {
            channels,
            frames_per_packet,
            window_packets: if window_packets == 0 {
                1
            } else {
                window_packets
            },
            next_idx: None,
            pending: BTreeMap::new(),
            stats: SequencerStats::default(),
        };
        assert(s@.pending =~= Map::empty());
        s
    }

    pub fn stats(&self) -> (stats: SequencerStats)
        ensures
            stats == self@.stats,
    {
        self.stats
    }

    /// Frames currently held back waiting for a gap to fill.
    pub fn pending_frames(&self) -> (n: usize)
        requires
            self@.pending.len() * self.packet_frames() <= usize::MAX,
        ensures
            n == self@.pending.len() * self.packet_frames(),
    {
        proof {
            contents_len(self.pending@);
        }
        self.pending.len() * self.frames_per_packet
    }

    /// Whether the counters and the index can take this packet without
    /// overflow.
    pub fn has_room(&self, sample_idx: u64, samples: &[i16]) -> (yes: bool)
        requires
            self.wf(),
        ensures
            yes == self@.has_room(self.channels(), sample_idx, samples@),
    {
        let frames: usize = samples.len() / self.channels;
        let ahead: u64 = match self.next_idx {
            Some(next) => if sample_idx > next { sample_idx - next } else { 0 },
            None => 0,
        };
        let behind: u64 = match self.next_idx {
            Some(next) => if sample_idx < next { next - sample_idx } else { 0 },
            None => 0,
        };
        let stats = self.stats;
        sample_idx as u128 + frames as u128 <= u64::MAX as u128 && stats.packets_accepted
            < u64::MAX && stats.packets_late < u64::MAX && stats.packets_duplicate < u64::MAX
            && stats.packets_buffered < u64::MAX && stats.frames_lost as u128 + ahead as u128
            <= u64::MAX as u128 + behind as u128
    }

    /// Accepts one datagram's samples and appends whatever became contiguous to
    /// `out`, interleaved.
    pub fn push(&mut self, sample_idx: u64, samples: &[i16], out: &mut Vec<i16>)
        requires
            old(self).wf(),
            old(self)@.has_room(old(self).channels(), sample_idx, samples@),
        ensures
            final(self).wf(),
            final(self).channels() == old(self).channels(),
            final(self).packet_frames() == old(self).packet_frames(),
            final(self).window() == old(self).window(),
            ({
                let (stream, emitted) = old(self)@.pushed(
                    old(self).channels(),
                    old(self).window(),
                    sample_idx,
                    samples@,
                );
                final(self)@ == stream && final(out)@ == old(out)@ + emitted
            }),
    {
        let frames: usize = samples.len() / self.channels;
        if frames == 0 {
            assert(out@ =~= old(out)@ + Seq::<i16>::empty());
            return;
        }
        let next: u64 = match self.next_idx {
            Some(next) => next,
            None => sample_idx,
        };
        self.next_idx = Some(next);
        if sample_idx < next {
            self.stats.packets_late = self.stats.packets_late + 1;
            assert(out@ =~= old(out)@ + Seq::<i16>::empty());
            return;
        }
        if self.pending.contains_key(&sample_idx) {
            self.stats.packets_duplicate = self.stats.packets_duplicate + 1;
            assert(out@ =~= old(out)@ + Seq::<i16>::empty());
            return;
        }
        self.stats.packets_accepted = self.stats.packets_accepted + 1;
        if sample_idx == next {
            // The common case: extend the stream directly, then see whether this
            // unblocked anything already waiting.
            out.extend_from_slice(samples);
            self.next_idx = Some(next + frames as u64);
            self.drain_contiguous(out);
            return;
        }
        self.stats.packets_buffered = self.stats.packets_buffered + 1;
        let mut held: Vec<i16> = Vec::new();
        held.extend_from_slice(samples);
        assert(held@ =~= samples@);
        self.pending.insert(sample_idx, held);
        proof {
            assert(self@.pending =~= old(self)@.pending.insert(sample_idx, samples@));
            contents_len(self.pending@);
            if self@.pending.len() > 0 {
                oldest_exists(self@.pending);
                assert(self@.pending.contains_key(sample_idx));
            }
        }
        if self.pending.len() > self.window_packets {
            self.give_up_on_gap(out);
        }
    }

    /// The smallest index held.
    fn oldest_held(&self) -> (k: Option<u64>)
        ensures
            k is None <==> self@.pending.len() == 0,
            k matches Some(first) ==> is_oldest(self@.pending, first),
    {
        let mut best: Option<u64> = None;
        for k in it: self.pending.keys()
            invariant
                it.seq().unref().to_set() == self.pending@.dom(),
                best is None <==> it.index() == 0,
                best matches Some(b) ==> {
                    &&& exists|i: int| 0 <= i < it.index() && b == *(#[trigger] it.seq()[i])
                    &&& forall|i: int| 0 <= i < it.index() ==> b <= *(#[trigger] it.seq()[i])
                },
        {
            assert(*k == *it.seq()[it.index()]);
            let b: u64 = match best {
                Some(b) => if b < *k { b } else { *k },
                None => *k,
            };
            best = Some(b);
        }
        proof {
            let keys = vstd::std_specs::iter::IteratorSpec::remaining(&self.pending.keys());
            let plain = keys.unref();
            assert forall|j: u64| #[trigger] self@.pending.contains_key(j) implies exists|i: int|
                0 <= i < keys.len() && *(#[trigger] keys[i]) == j by {
                assert(plain.to_set().contains(j));
                let i = choose|i: int| 0 <= i < plain.len() && plain[i] == j;
                assert(*keys[i] == j);
            }
            if let Some(b) = best {
                let i = choose|i: int| 0 <= i < keys.len() && b == *(#[trigger] keys[i]);
                assert(plain[i] == b);
                assert(plain.to_set().contains(b));
                assert(self@.pending.contains_key(b));
                assert(self@.pending.dom() =~= self.pending@.dom());
                assert(self@.pending.dom().contains(b));
            } else {
                assert(self@.pending.dom() =~= Set::empty());
            }
        }
        best
    }

    /// Emits silence up to the oldest held packet, then releases everything that
    /// is now contiguous.
    fn give_up_on_gap(&mut self, out: &mut Vec<i16>)
        requires
            old(self).wf(),
            old(self)@.next is Some,
            old(self)@.pending.len() > 0,
            ({
                let first = oldest(old(self)@.pending);
                old(self)@.stats.frames_lost + first - old(self)@.next->Some_0 <= u64::MAX
            }),
        ensures
            final(self).wf(),
            final(self).channels() == old(self).channels(),
            final(self).packet_frames() == old(self).packet_frames(),
            final(self).window() == old(self).window(),
            final(self)@ == old(self)@.gave_up(old(self).channels()).0,
            final(out)@ == old(out)@ + old(self)@.gave_up(old(self).channels()).1,
    {
        let first: u64 = match self.oldest_held() {
            Some(first) => first,
            None => return,
        };
        let next: u64 = match self.next_idx {
            Some(next) => next,
            None => return,
        };
        assert(first == oldest(self@.pending));
        if first > next {
            let missing: u64 = first - next;
            self.stats.frames_lost = self.stats.frames_lost + missing;
            push_silence(out, missing, self.channels);
            self.next_idx = Some(first);
        } else {
            assert(silence(0) =~= Seq::<i16>::empty());
            assert(0 * self.channels() == 0);
        }
        self.drain_contiguous(out);
        assert(out@ =~= old(out)@ + old(self)@.gave_up(old(self).channels()).1);
    }

    /// Releases held packets for as long as one continues the stream.
    fn drain_contiguous(&mut self, out: &mut Vec<i16>)
        requires
            old(self).wf(),
            old(self)@.next is Some,
        ensures
            final(self).wf(),
            final(self).channels() == old(self).channels(),
            final(self).packet_frames() == old(self).packet_frames(),
            final(self).window() == old(self).window(),
            ({
                let (emitted, next, pending) = drained(
                    old(self)@.next->Some_0,
                    old(self)@.pending,
                    old(self).channels(),
                );
                &&& final(out)@ == old(out)@ + emitted
                &&& final(self)@ == (Stream { next: Some(next), pending, ..old(self)@ })
            }),
    {
        let ghost start = old(self)@;
        let ghost channels = self.channels();
        let mut next: u64 = match self.next_idx {
            Some(next) => next,
            None => return,
        };
        let ghost mut emitted: Seq<i16> = seq![];
        assert(out@ =~= old(out)@ + emitted);
        assert forall|x: Seq<i16>| #[trigger] (Seq::<i16>::empty() + x) =~= x by {}
        while self.pending.contains_key(&next)
            invariant
                self.wf(),
                self.channels() == channels,
                channels == old(self).channels(),
                self.packet_frames() == old(self).packet_frames(),
                self.window() == old(self).window(),
                self@.stats == start.stats,
                self.next_idx == Some(next),
                start == old(self)@,
                out@ == old(out)@ + emitted,
                ({
                    let (rest, end, left) = drained(next, self@.pending, channels);
                    drained(start.next->Some_0, start.pending, channels) == (
                        emitted + rest,
                        end,
                        left,
                    )
                }),
            decreases self@.pending.len(),
        {
            let ghost before = self@.pending;
            match self.pending.remove(&next) {
                None => {},
                Some(samples) => {
                    assert(self@.pending =~= before.remove(next));
                    let frames: usize = samples.len() / self.channels;
                    out.extend_from_slice(samples.as_slice());
                    let ghost rest = drained(
                        (next + frames) as u64,
                        self@.pending,
                        channels,
                    );
                    assert(emitted + (samples@ + rest.0) =~= (emitted + samples@) + rest.0);
                    proof {
                        emitted = emitted + samples@;
                    }
                    next = next + frames as u64;
                    self.next_idx = Some(next);
                },
            }
        }
        assert(emitted + Seq::<i16>::empty() =~= emitted);
        assert(!self@.pending.contains_key(next));
    }

    /// Discards all state so the next datagram re-establishes the origin. The
    /// counters go on.
    pub fn reset(&mut self)
        requires
            old(self).wf(),
        ensures
            final(self).wf(),
            final(self).channels() == old(self).channels(),
            final(self).packet_frames() == old(self).packet_frames(),
            final(self).window() == old(self).window(),
            final(self)@ == Stream::started(old(self)@.stats),
    {
        self.next_idx = None;
        self.pending.clear();
        assert(self@.pending =~= Map::empty());
    }
}

impl Stream {
    /// Every packet so far had `fpp` whole frames and an index on the grid that
    /// the first one set: what holds of a sender that keeps to the negotiated
    /// packet size.
    pub open spec fn aligned(self, channels: nat, fpp: nat) -> bool {
        &&& self.wf(channels)
        &&& self.next matches Some(n) ==> on_grid(self.pending, n, channels, fpp) && !(
        #[trigger] self.pending.contains_key(n))
    }
}

/// Every packet held has `fpp` frames and stands on the grid from `next` on.
pub open spec fn on_grid(pending: Map<u64, Seq<i16>>, next: u64, channels: nat, fpp: nat) -> bool {
    forall|k: u64| #[trigger]
        pending.contains_key(k) ==> {
            &&& next <= k
            &&& (k - next) % (fpp as int) == 0
            &&& pending[k].len() == fpp * channels
            &&& k + fpp <= u64::MAX
        }
}

/// The samples of packet `k` stand in `out`, which starts at frame `next`, at
/// the place its index says.
pub open spec fn placed(
    out: Seq<i16>,
    next: u64,
    k: u64,
    samples: Seq<i16>,
    channels: nat,
) -> bool {
    let at = (k - next) * channels;
    &&& 0 <= at
    &&& at + samples.len() <= out.len()
    &&& out.subrange(at, at + samples.len()) == samples
}

/// Two indices on the grid are equal or a packet apart.
proof fn grid_step(next: u64, k: u64, fpp: nat)
    requires
        fpp > 0,
        next < k,
        (k - next) % (fpp as int) == 0,
    ensures
        k >= next + fpp,
        (k - (next + fpp)) % (fpp as int) == 0,
{
    let d = k - next;
    vstd::arithmetic::div_mod::lemma_mod_sub_multiples_vanish(d, fpp as int);
    if d < fpp {
        vstd::arithmetic::div_mod::lemma_small_mod(d as nat, fpp);
    }
}

/// What releasing held packets does on the grid.
proof fn drained_on_grid(next: u64, pending: Map<u64, Seq<i16>>, channels: nat, fpp: nat)
    requires
        channels > 0,
        fpp > 0,
        pending.dom().finite(),
        on_grid(pending, next, channels, fpp),
    ensures
        ({
            let (out, end, left) = drained(next, pending, channels);
            &&& next <= end
            &&& (end - next) % (fpp as int) == 0
            &&& out.len() == (end - next) * channels
            &&& left.dom().finite()
            &&& left.len() <= pending.len()
            &&& pending.contains_key(next) ==> left.len() < pending.len()
            &&& !left.contains_key(end)
            &&& on_grid(left, end, channels, fpp)
            &&& forall|k: u64| #[trigger]
                left.contains_key(k) ==> pending.contains_key(k) && left[k] == pending[k]
            &&& forall|k: u64| #[trigger]
                pending.contains_key(k) ==> if k < end {
                    placed(out, next, k, pending[k], channels)
                } else {
                    left.contains_key(k)
                }
        }),
    decreases pending.len(),
{
    let (out, end, left) = drained(next, pending, channels);
    if !pending.contains_key(next) {
        assert(0 * channels == 0);
        vstd::arithmetic::div_mod::lemma_small_mod(0, fpp);
    } else {
        let s = pending[next];
        let rest = pending.remove(next);
        assert(frames(s, channels) == fpp) by {
            vstd::arithmetic::div_mod::lemma_div_by_multiple(fpp as int, channels as int);
        }
        let after = (next + fpp) as u64;
        assert forall|k: u64| #[trigger] rest.contains_key(k) implies {
            &&& after <= k
            &&& (k - after) % (fpp as int) == 0
            &&& rest[k].len() == fpp * channels
            &&& k + fpp <= u64::MAX
        } by {
            assert(pending.contains_key(k));
            grid_step(next, k, fpp);
        }
        drained_on_grid(after, rest, channels, fpp);
        let (more, end2, left2) = drained(after, rest, channels);
        assert(end == end2 && left == left2 && out == s + more);
        assert((end - next) * channels == (end - after) * channels + fpp * channels)
            by (nonlinear_arith)
            requires
                end - next == (end - after) + fpp,
        ;
        vstd::arithmetic::div_mod::lemma_mod_add_multiples_vanish(end - after, fpp as int);
        assert(end - next == fpp + (end - after));
        assert forall|k: u64| #[trigger] pending.contains_key(k) implies if k < end {
            placed(out, next, k, pending[k], channels)
        } else {
            left.contains_key(k)
        } by {
            if k == next {
                assert(0 * channels == 0);
                assert(out.subrange(0, s.len() as int) =~= s);
            } else {
                assert(rest.contains_key(k));
                if k < end {
                    assert(placed(more, after, k, rest[k], channels));
                    let at = (k - after) * channels;
                    assert((k - next) * channels == at + fpp * channels) by (nonlinear_arith)
                        requires
                            at == (k - after) * channels,
                            k - next == (k - after) + fpp,
                    ;
                    assert(out.subrange(
                        (k - next) * channels,
                        (k - next) * channels + pending[k].len(),
                    ) =~= more.subrange(at, at + rest[k].len()));
                }
            }
        }
        assert forall|k: u64| #[trigger] left.contains_key(k) implies pending.contains_key(k)
            && left[k] == pending[k] by {
            assert(rest.contains_key(k));
        }
    }
}

/// What [`packets_land_where_their_index_says`] says of one packet.
pub open spec fn landed(
    stream: Stream,
    channels: nat,
    fpp: nat,
    window: nat,
    sample_idx: u64,
    samples: Seq<i16>,
) -> bool {
    let (after, out) = stream.pushed(channels, window, sample_idx, samples);
    let start = stream.base(sample_idx);
    &&& after.aligned(channels, fpp)
    &&& stream.pending.len() <= window ==> after.pending.len() <= window
    &&& after.next matches Some(end) && start <= end && {
        let lost = after.stats.frames_lost - stream.stats.frames_lost;
        &&& out.len() == (end - start) * channels
        &&& 0 <= lost <= end - start
        &&& out.take(lost * channels as int) == silence((lost * channels) as nat)
        &&& sample_idx >= start && sample_idx < end && !stream.pending.contains_key(
            sample_idx,
        ) ==> placed(out, start, sample_idx, samples, channels)
        &&& forall|k: u64| #[trigger]
            stream.pending.contains_key(k) ==> if k < end {
                k >= start + lost && placed(out, start, k, stream.pending[k], channels)
            } else {
                after.pending.contains_key(k) && after.pending[k] == stream.pending[k]
            }
    }
}

/// Packets of the negotiated size land where their index says.
///
/// What comes out covers exactly the frames from the old next index to the new
/// one, each packet that is due stands at its own place in it, and the frames
/// counted as lost are silence at its start. The held packets stay within the
/// window.
pub proof fn packets_land_where_their_index_says(
    stream: Stream,
    channels: nat,
    fpp: nat,
    window: nat,
    sample_idx: u64,
    samples: Seq<i16>,
)
    requires
        channels > 0,
        fpp > 0,
        window > 0,
        stream.aligned(channels, fpp),
        stream.has_room(channels, sample_idx, samples),
        samples.len() == fpp * channels,
        (sample_idx - stream.base(sample_idx)) % (fpp as int) == 0,
    ensures
        landed(stream, channels, fpp, window, sample_idx, samples),
{
    let start = stream.base(sample_idx);
    let (after, out) = stream.pushed(channels, window, sample_idx, samples);
    assert(frames(samples, channels) == fpp) by {
        vstd::arithmetic::div_mod::lemma_div_by_multiple(fpp as int, channels as int);
        if fpp * channels == 0 {
            assert(fpp * channels > 0) by (nonlinear_arith)
                requires
                    fpp > 0,
                    channels > 0,
            ;
        }
    }
    assert(0 * channels == 0);
    assert(silence(0) =~= Seq::<i16>::empty());
    if stream.next is None {
        assert(stream.pending.dom() =~= Set::empty());
    }
    if sample_idx < start || stream.pending.contains_key(sample_idx) {
        assert(out.take(0) =~= Seq::<i16>::empty());
    } else if sample_idx == start {
        let next = (start + fpp) as u64;
        assert forall|k: u64| #[trigger] stream.pending.contains_key(k) implies {
            &&& next <= k
            &&& (k - next) % (fpp as int) == 0
            &&& stream.pending[k].len() == fpp * channels
            &&& k + fpp <= u64::MAX
        } by {
            grid_step(start, k, fpp);
        }
        drained_on_grid(next, stream.pending, channels, fpp);
        let (more, end, left) = drained(next, stream.pending, channels);
        assert((end - start) * channels == (end - next) * channels + fpp * channels)
            by (nonlinear_arith)
            requires
                end - start == (end - next) + fpp,
        ;
        assert(out.take(0) =~= Seq::<i16>::empty());
        assert(out.subrange(0, samples.len() as int) =~= samples);
        assert forall|k: u64| #[trigger] stream.pending.contains_key(k) && k < end implies placed(
            out,
            start,
            k,
            stream.pending[k],
            channels,
        ) by {
            assert(placed(more, next, k, stream.pending[k], channels));
            let at = (k - next) * channels;
            assert((k - start) * channels == at + fpp * channels) by (nonlinear_arith)
                requires
                    at == (k - next) * channels,
                    k - start == (k - next) + fpp,
            ;
            assert(out.subrange(
                (k - start) * channels,
                (k - start) * channels + stream.pending[k].len(),
            ) =~= more.subrange(at, at + stream.pending[k].len()));
        }
        whole_frames_follow(after, channels, fpp);
    } else {
        held_packet_lands(stream, channels, fpp, window, sample_idx, samples);
    }
}

/// Packets of `fpp` frames are packets of at least one.
proof fn whole_frames_follow(stream: Stream, channels: nat, fpp: nat)
    requires
        channels > 0,
        fpp > 0,
        stream.pending.dom().finite(),
        stream.next matches Some(n) && on_grid(stream.pending, n, channels, fpp)
            && !stream.pending.contains_key(n),
    ensures
        stream.aligned(channels, fpp),
{
    assert forall|k: u64| #[trigger] stream.pending.contains_key(k) implies frames(
        stream.pending[k],
        channels,
    ) == fpp by {
        vstd::arithmetic::div_mod::lemma_div_by_multiple(fpp as int, channels as int);
    }
}

/// A packet that arrives ahead of the stream.
proof fn held_packet_lands(
    stream: Stream,
    channels: nat,
    fpp: nat,
    window: nat,
    sample_idx: u64,
    samples: Seq<i16>,
)
    requires
        channels > 0,
        fpp > 0,
        window > 0,
        stream.aligned(channels, fpp),
        stream.has_room(channels, sample_idx, samples),
        samples.len() == fpp * channels,
        frames(samples, channels) == fpp,
        (sample_idx - stream.base(sample_idx)) % (fpp as int) == 0,
        sample_idx > stream.base(sample_idx),
        !stream.pending.contains_key(sample_idx),
    ensures
        landed(stream, channels, fpp, window, sample_idx, samples),
{
    let start = stream.base(sample_idx);
    let held = stream.pending.insert(sample_idx, samples);
    let (after, out) = stream.pushed(channels, window, sample_idx, samples);
    assert(0 * channels == 0);
    assert(silence(0) =~= Seq::<i16>::empty());
    assert(stream.next == Some(start));
    assert forall|k: u64| #[trigger] held.contains_key(k) implies {
        &&& start < k
        &&& (k - start) % (fpp as int) == 0
        &&& held[k].len() == fpp * channels
        &&& k + fpp <= u64::MAX
    } by {
        if k != sample_idx {
            assert(stream.pending.contains_key(k));
        }
    }
    if held.len() <= window {
        assert(out.take(0) =~= Seq::<i16>::empty());
        whole_frames_follow(after, channels, fpp);
    } else {
        oldest_exists(held);
        let first = oldest(held);
        assert(held.contains_key(first));
        assert(held.contains_key(sample_idx));
        let missing = first - start;
        assert forall|k: u64| #[trigger] held.contains_key(k) implies {
            &&& first <= k
            &&& (k - first) % (fpp as int) == 0
            &&& held[k].len() == fpp * channels
            &&& k + fpp <= u64::MAX
        } by {
            vstd::arithmetic::div_mod::lemma_sub_mod_noop(k - start, missing, fpp as int);
            vstd::arithmetic::div_mod::lemma_small_mod(0, fpp);
        }
        drained_on_grid(first, held, channels, fpp);
        let (more, end, left) = drained(first, held, channels);
        let gap = silence((missing * channels) as nat);
        assert(missing * channels >= 0) by (nonlinear_arith)
            requires
                missing >= 0,
                channels > 0,
        ;
        assert(out == gap + more);
        assert((end - start) * channels == (end - first) * channels + missing * channels)
            by (nonlinear_arith)
            requires
                end - start == (end - first) + missing,
        ;
        assert(out.take(missing * channels as int) =~= gap);
        assert forall|k: u64| #[trigger] held.contains_key(k) && k < end implies placed(
            out,
            start,
            k,
            held[k],
            channels,
        ) by {
            assert(placed(more, first, k, held[k], channels));
            let at = (k - first) * channels;
            assert((k - start) * channels == at + missing * channels) by (nonlinear_arith)
                requires
                    at == (k - first) * channels,
                    k - start == (k - first) + missing,
            ;
            assert(out.subrange((k - start) * channels, (k - start) * channels + held[k].len())
                =~= more.subrange(at, at + held[k].len()));
        }
        assert forall|k: u64| #[trigger] stream.pending.contains_key(k) implies if k < end {
            k >= start + missing && placed(out, start, k, stream.pending[k], channels)
        } else {
            after.pending.contains_key(k) && after.pending[k] == stream.pending[k]
        } by {
            assert(held.contains_key(k));
        }
        whole_frames_follow(after, channels, fpp);
    }
}

/// The order in which two neighbouring packets arrive makes no difference while
/// the window has room: the same samples come out, and nothing is lost.
pub proof fn reordering_is_not_loss(
    stream: Stream,
    channels: nat,
    window: nat,
    idx: u64,
    first: Seq<i16>,
    second: Seq<i16>,
)
    requires
        channels > 0,
        stream.wf(channels),
        stream.next == Some(idx),
        frames(first, channels) > 0,
        frames(second, channels) > 0,
        idx + frames(first, channels) + frames(second, channels) <= u64::MAX,
        !stream.pending.contains_key(idx),
        !stream.pending.contains_key((idx + frames(first, channels)) as u64),
        stream.pending.len() < window,
    ensures
        ({
            let later = (idx + frames(first, channels)) as u64;
            let (s1, out1) = stream.pushed(channels, window, idx, first);
            let (s2, out2) = s1.pushed(channels, window, later, second);
            let (t1, held1) = stream.pushed(channels, window, later, second);
            let (t2, held2) = t1.pushed(channels, window, idx, first);
            &&& out1 + out2 == held1 + held2
            &&& s2.next == t2.next
            &&& s2.pending == t2.pending
            &&& t2.stats.frames_lost == stream.stats.frames_lost
            &&& s2.stats.frames_lost == stream.stats.frames_lost
        }),
{
    let later = (idx + frames(first, channels)) as u64;
    let (s1, out1) = stream.pushed(channels, window, idx, first);
    let (s2, out2) = s1.pushed(channels, window, later, second);
    let (t1, held1) = stream.pushed(channels, window, later, second);
    let (t2, held2) = t1.pushed(channels, window, idx, first);
    assert(t1.pending.remove(later) =~= stream.pending);
    let (more, end, left) = drained(
        (later + frames(second, channels)) as u64,
        stream.pending,
        channels,
    );
    assert(out1 + out2 =~= first + second + more);
    assert(held1 + held2 =~= first + second + more);
}

/// A packet that is late, or already held, changes nothing but its counter.
pub proof fn late_and_duplicate_packets_change_nothing(
    stream: Stream,
    channels: nat,
    window: nat,
    sample_idx: u64,
    samples: Seq<i16>,
)
    requires
        stream.next matches Some(next) && (sample_idx < next || stream.pending.contains_key(
            sample_idx,
        )),
    ensures
        ({
            let (after, out) = stream.pushed(channels, window, sample_idx, samples);
            &&& out == Seq::<i16>::empty()
            &&& after.next == stream.next
            &&& after.pending == stream.pending
            &&& after.stats.frames_lost == stream.stats.frames_lost
            &&& after.stats.packets_accepted == stream.stats.packets_accepted
        }),
{
}

/// The first packet, and the first after a reset, sets the origin whatever its
/// index, and comes straight out.
pub proof fn the_first_packet_sets_the_origin(
    stats: SequencerStats,
    channels: nat,
    window: nat,
    sample_idx: u64,
    samples: Seq<i16>,
)
    requires
        channels > 0,
        frames(samples, channels) > 0,
        sample_idx + frames(samples, channels) <= u64::MAX,
    ensures
        ({
            let (after, out) = Stream::started(stats).pushed(
                channels,
                window,
                sample_idx,
                samples,
            );
            &&& out == samples
            &&& after.next == Some((sample_idx + frames(samples, channels)) as u64)
            &&& after.stats.packets_late == stats.packets_late
            &&& after.stats.frames_lost == stats.frames_lost
        }),
{
    assert(samples + Seq::<i16>::empty() =~= samples);
}

/// Every packet held is a whole number of frames.
pub open spec fn all_whole(pending: Map<u64, Seq<i16>>, channels: nat) -> bool {
    forall|k: u64| #[trigger]
        pending.contains_key(k) ==> pending[k].len() % channels == 0
}

/// Two whole numbers of frames make a whole number of frames.
proof fn whole_sum(a: nat, b: nat, channels: nat)
    requires
        channels > 0,
        a % channels == 0,
        b % channels == 0,
    ensures
        (a + b) % channels == 0,
{
    vstd::arithmetic::div_mod::lemma_add_mod_noop(a as int, b as int, channels as int);
    vstd::arithmetic::div_mod::lemma_small_mod(0, channels);
}

proof fn drained_is_whole(next: u64, pending: Map<u64, Seq<i16>>, channels: nat)
    requires
        channels > 0,
        pending.dom().finite(),
        all_whole(pending, channels),
    ensures
        drained(next, pending, channels).0.len() % channels == 0,
        all_whole(drained(next, pending, channels).2, channels),
    decreases pending.len(),
{
    if pending.contains_key(next) {
        let s = pending[next];
        let rest = pending.remove(next);
        assert forall|k: u64| #[trigger] rest.contains_key(k) implies rest[k].len() % channels
            == 0 by {
            assert(pending.contains_key(k));
        }
        let after = (next + frames(s, channels)) as u64;
        drained_is_whole(after, rest, channels);
        whole_sum(s.len(), drained(after, rest, channels).0.len(), channels);
    } else {
        vstd::arithmetic::div_mod::lemma_small_mod(0, channels);
    }
}

/// Whole frames in, whole frames out: the channel interleave never shifts.
pub proof fn whole_frames_stay_whole(
    stream: Stream,
    channels: nat,
    window: nat,
    sample_idx: u64,
    samples: Seq<i16>,
)
    requires
        channels > 0,
        stream.wf(channels),
        all_whole(stream.pending, channels),
        samples.len() % channels == 0,
    ensures
        ({
            let (after, out) = stream.pushed(channels, window, sample_idx, samples);
            &&& all_whole(after.pending, channels)
            &&& out.len() % channels == 0
        }),
{
    let next = stream.base(sample_idx);
    let (after, out) = stream.pushed(channels, window, sample_idx, samples);
    vstd::arithmetic::div_mod::lemma_small_mod(0, channels);
    let held = stream.pending.insert(sample_idx, samples);
    assert forall|k: u64| #[trigger] held.contains_key(k) implies held[k].len() % channels == 0 by {
        if k != sample_idx {
            assert(stream.pending.contains_key(k));
        }
    }
    let end = (next + frames(samples, channels)) as u64;
    drained_is_whole(end, stream.pending, channels);
    whole_sum(samples.len(), drained(end, stream.pending, channels).0.len(), channels);
    let first = oldest(held);
    let from = if first > next {
        first
    } else {
        next
    };
    drained_is_whole(from, held, channels);
    let missing: nat = if first > next {
        (first - next) as nat
    } else {
        0
    };
    vstd::arithmetic::div_mod::lemma_mod_multiples_basic(missing as int, channels as int);
    whole_sum(missing * channels, drained(from, held, channels).0.len(), channels);
}

/// No counter ever goes down.
pub proof fn counters_only_grow(
    stream: Stream,
    channels: nat,
    window: nat,
    sample_idx: u64,
    samples: Seq<i16>,
)
    requires
        channels > 0,
        stream.wf(channels),
        stream.has_room(channels, sample_idx, samples),
    ensures
        ({
            let before = stream.stats;
            let after = stream.pushed(channels, window, sample_idx, samples).0.stats;
            &&& before.packets_accepted <= after.packets_accepted
            &&& before.packets_late <= after.packets_late
            &&& before.packets_duplicate <= after.packets_duplicate
            &&& before.packets_buffered <= after.packets_buffered
            &&& before.frames_lost <= after.frames_lost
        }),
{
    let held = stream.pending.insert(sample_idx, samples);
    assert(held.contains_key(sample_idx));
    oldest_exists(held);
}

/// Each packet is counted once: as late where its place has been played, else as
/// a duplicate where it is already held, and else as accepted. One that is late or
/// a duplicate changes nothing but that counter, and less than a frame of samples
/// nothing at all.
pub proof fn each_packet_is_counted_once(
    stream: Stream,
    channels: nat,
    window: nat,
    sample_idx: u64,
    samples: Seq<i16>,
)
    requires
        channels > 0,
        stream.wf(channels),
        stream.has_room(channels, sample_idx, samples),
    ensures
        ({
            let (after, out) = stream.pushed(channels, window, sample_idx, samples);
            let late = stream.next matches Some(next) && sample_idx < next;
            let again = stream.pending.contains_key(sample_idx);
            if samples.len() < channels {
                after == stream && out == Seq::<i16>::empty()
            } else {
                &&& after.stats.packets_late == stream.stats.packets_late + if late {
                    1int
                } else {
                    0
                }
                &&& after.stats.packets_duplicate == stream.stats.packets_duplicate + if !late
                    && again {
                    1int
                } else {
                    0
                }
                &&& after.stats.packets_accepted == stream.stats.packets_accepted + if !late
                    && !again {
                    1int
                } else {
                    0
                }
                &&& late || again ==> {
                    &&& out == Seq::<i16>::empty()
                    &&& after.pending == stream.pending
                    &&& after.stats.packets_buffered == stream.stats.packets_buffered
                    &&& after.stats.frames_lost == stream.stats.frames_lost
                }
            }
        }),
{
    if samples.len() < channels {
        vstd::arithmetic::div_mod::lemma_basic_div(samples.len() as int, channels as int);
    } else {
        vstd::arithmetic::div_mod::lemma_div_non_zero(samples.len() as int, channels as int);
    }
}

/// The stream after several packets, and all that came out.
pub open spec fn pushed_all(
    stream: Stream,
    channels: nat,
    window: nat,
    packets: Seq<(u64, Seq<i16>)>,
) -> (Stream, Seq<i16>)
    decreases packets.len(),
{
    if packets.len() == 0 {
        (stream, seq![])
    } else {
        let (before, out) = pushed_all(stream, channels, window, packets.drop_last());
        let (after, more) = before.pushed(
            channels,
            window,
            packets.last().0,
            packets.last().1,
        );
        (after, out + more)
    }
}

/// The index of a packet among those of `fpp` frames that start at `origin`.
pub open spec fn index_of(origin: u64, fpp: nat, x: nat) -> u64 {
    (origin + x * fpp) as u64
}

/// Packets in the order of their arrival.
pub open spec fn arrivals(
    origin: u64,
    fpp: nat,
    packets: Seq<Seq<i16>>,
    order: Seq<nat>,
) -> Seq<(u64, Seq<i16>)> {
    Seq::new(order.len(), |i: int| (index_of(origin, fpp, order[i]), packets[order[i] as int]))
}

/// The samples of the packets from one up to another, in their order.
pub open spec fn laid(packets: Seq<Seq<i16>>, from: nat, to: nat) -> Seq<i16>
    decreases to - from,
{
    if from >= to {
        seq![]
    } else {
        packets[from as int] + laid(packets, from + 1, to)
    }
}

/// The first packet from `from` on that is not among those seen, of `count`.
pub open spec fn missing_from(seen: Set<nat>, from: nat, count: nat) -> nat
    decreases count - from,
{
    if from >= count || !seen.contains(from) {
        from
    } else {
        missing_from(seen, from + 1, count)
    }
}

/// The packets seen from `from` on, by their index.
pub open spec fn seen_from(
    origin: u64,
    fpp: nat,
    packets: Seq<Seq<i16>>,
    seen: Set<nat>,
    from: nat,
) -> Map<u64, Seq<i16>> {
    Map::new(
        |key: u64|
            {
                let x = (key - origin) / (fpp as int);
                &&& key >= origin
                &&& (key - origin) % (fpp as int) == 0
                &&& from <= x < packets.len()
                &&& seen.contains(x as nat)
            },
        |key: u64| packets[(key - origin) / (fpp as int)],
    )
}

/// The packets that came ahead of one that is still missing: those that have to be
/// held back.
pub open spec fn ahead(
    origin: u64,
    fpp: nat,
    packets: Seq<Seq<i16>>,
    seen: Set<nat>,
) -> Map<u64, Seq<i16>> {
    seen_from(origin, fpp, packets, seen, missing_from(seen, 0, packets.len()))
}

/// A packet's index leads back to its number.
proof fn index_leads_back(origin: u64, fpp: nat, x: nat, count: nat)
    requires
        fpp > 0,
        x < count,
        origin + count * fpp <= u64::MAX,
    ensures
        index_of(origin, fpp, x) == origin + x * fpp,
        index_of(origin, fpp, x) + fpp <= u64::MAX,
        (index_of(origin, fpp, x) - origin) / (fpp as int) == x,
        (index_of(origin, fpp, x) - origin) % (fpp as int) == 0,
{
    assert(x * fpp + fpp <= count * fpp && 0 <= x * fpp) by (nonlinear_arith)
        requires
            x + 1 <= count,
            x >= 0,
            fpp > 0,
    ;
    vstd::arithmetic::div_mod::lemma_div_by_multiple(x as int, fpp as int);
    vstd::arithmetic::div_mod::lemma_mod_multiples_basic(x as int, fpp as int);
}

/// An index on the grid is that of a packet.
proof fn number_leads_back(origin: u64, fpp: nat, key: u64)
    requires
        fpp > 0,
        key >= origin,
        (key - origin) % (fpp as int) == 0,
    ensures
        index_of(origin, fpp, ((key - origin) / (fpp as int)) as nat) == key,
{
    vstd::arithmetic::div_mod::lemma_fundamental_div_mod(key - origin, fpp as int);
    vstd::arithmetic::mul::lemma_mul_is_commutative(
        (key - origin) / (fpp as int),
        fpp as int,
    );
}

/// Everything before the first missing packet was seen, and what is missing was not.
proof fn missing_is_first(seen: Set<nat>, from: nat, count: nat)
    requires
        from <= count,
    ensures
        from <= missing_from(seen, from, count) <= count,
        forall|x: nat|
            from <= x < missing_from(seen, from, count) ==> #[trigger] seen.contains(x),
        missing_from(seen, from, count) < count ==> !seen.contains(
            missing_from(seen, from, count),
        ),
    decreases count - from,
{
    if from < count && seen.contains(from) {
        missing_is_first(seen, from + 1, count);
    }
}

/// The first missing packet is known by that.
proof fn missing_is(seen: Set<nat>, from: nat, count: nat, at: nat)
    requires
        from <= at <= count,
        forall|x: nat| from <= x < at ==> #[trigger] seen.contains(x),
        at < count ==> !seen.contains(at),
    ensures
        missing_from(seen, from, count) == at,
    decreases at - from,
{
    if from < at {
        assert(seen.contains(from));
        missing_is(seen, from + 1, count, at);
    }
}

/// Samples laid out in two parts are laid out in one.
proof fn laid_in_parts(packets: Seq<Seq<i16>>, a: nat, b: nat, c: nat)
    requires
        a <= b <= c,
    ensures
        laid(packets, a, b) + laid(packets, b, c) == laid(packets, a, c),
    decreases b - a,
{
    if a < b {
        laid_in_parts(packets, a + 1, b, c);
        assert(packets[a as int] + laid(packets, a + 1, b) + laid(packets, b, c)
            =~= packets[a as int] + (laid(packets, a + 1, b) + laid(packets, b, c)));
    } else {
        assert(laid(packets, a, b) + laid(packets, b, c) =~= laid(packets, b, c));
    }
}

/// Packets of the agreed size, with room for all of their indices.
pub open spec fn agreed(origin: u64, channels: nat, fpp: nat, packets: Seq<Seq<i16>>) -> bool {
    &&& channels > 0
    &&& fpp > 0
    &&& origin + packets.len() * fpp <= u64::MAX
    &&& forall|i: int| 0 <= i < packets.len() ==> (#[trigger] packets[i]).len() == fpp * channels
}

/// Releasing what was seen from one packet on gives the packets up to the next
/// missing one.
proof fn drained_in_order(
    origin: u64,
    channels: nat,
    fpp: nat,
    packets: Seq<Seq<i16>>,
    seen: Set<nat>,
    from: nat,
)
    requires
        agreed(origin, channels, fpp, packets),
        from <= packets.len(),
        seen_from(origin, fpp, packets, seen, from).dom().finite(),
    ensures
        ({
            let end = missing_from(seen, from, packets.len());
            let left = seen_from(origin, fpp, packets, seen, end);
            &&& drained(
                index_of(origin, fpp, from),
                seen_from(origin, fpp, packets, seen, from),
                channels,
            ) == (laid(packets, from, end), index_of(origin, fpp, end), left)
            &&& left.dom().finite()
        }),
    decreases packets.len() - from,
{
    let count = packets.len();
    let pending = seen_from(origin, fpp, packets, seen, from);
    let next = index_of(origin, fpp, from);
    if from < count {
        index_leads_back(origin, fpp, from, count);
        if seen.contains(from) {
            assert(pending.contains_key(next));
            let rest = seen_from(origin, fpp, packets, seen, from + 1);
            assert(pending.remove(next) =~= rest) by {
                assert forall|key: u64| #[trigger] pending.remove(next).contains_key(key)
                    <==> rest.contains_key(key) by {
                    if key >= origin && (key - origin) % (fpp as int) == 0 {
                        number_leads_back(origin, fpp, key);
                    }
                }
            }
            vstd::arithmetic::div_mod::lemma_div_by_multiple(fpp as int, channels as int);
            assert(frames(pending[next], channels) == fpp);
            assert((from + 1) * fpp == from * fpp + fpp) by (nonlinear_arith);
            drained_in_order(origin, channels, fpp, packets, seen, from + 1);
            missing_is_first(seen, from + 1, count);
        } else {
            assert(!pending.contains_key(next));
        }
    } else {
        assert(count * fpp == from * fpp);
        assert(next == origin + from * fpp) by {
            assert(0 <= from * fpp) by (nonlinear_arith);
        }
        if pending.contains_key(next) {
            vstd::arithmetic::div_mod::lemma_div_by_multiple(from as int, fpp as int);
        }
    }
}

/// The stream after some packets were seen, where none had to be given up on: what
/// came out is what stands before the first missing one, and what is held is what
/// came ahead of it.
pub open spec fn in_line(
    stream: Stream,
    out: Seq<i16>,
    origin: u64,
    fpp: nat,
    packets: Seq<Seq<i16>>,
    seen: Set<nat>,
) -> bool {
    let next = missing_from(seen, 0, packets.len());
    &&& stream.next == Some(index_of(origin, fpp, next))
    &&& stream.pending == ahead(origin, fpp, packets, seen)
    &&& stream.pending.dom().finite()
    &&& stream.stats.frames_lost == 0
    &&& out == laid(packets, 0, next)
}

/// One more packet keeps the stream in line.
proof fn one_more_in_line(
    stream: Stream,
    out: Seq<i16>,
    origin: u64,
    channels: nat,
    window: nat,
    fpp: nat,
    packets: Seq<Seq<i16>>,
    seen: Set<nat>,
    x: nat,
)
    requires
        agreed(origin, channels, fpp, packets),
        x < packets.len(),
        in_line(stream, out, origin, fpp, packets, seen),
        ahead(origin, fpp, packets, seen.insert(x)).len() <= window,
    ensures
        ({
            let (after, more) = stream.pushed(
                channels,
                window,
                index_of(origin, fpp, x),
                packets[x as int],
            );
            in_line(after, out + more, origin, fpp, packets, seen.insert(x))
        }),
{
    let count = packets.len();
    let next = missing_from(seen, 0, count);
    let now = seen.insert(x);
    let idx = index_of(origin, fpp, x);
    let (after, more) = stream.pushed(channels, window, idx, packets[x as int]);
    missing_is_first(seen, 0, count);
    index_leads_back(origin, fpp, x, count);
    vstd::arithmetic::div_mod::lemma_div_by_multiple(fpp as int, channels as int);
    assert(frames(packets[x as int], channels) == fpp);
    if next < count {
        index_leads_back(origin, fpp, next, count);
    } else {
        assert(index_of(origin, fpp, next) == origin + count * fpp);
    }
    let expected = index_of(origin, fpp, next);
    assert(x < next ==> idx < expected) by (nonlinear_arith)
        requires
            idx == origin + x * fpp,
            expected == origin + next * fpp,
            fpp > 0,
    ;
    assert(x > next ==> idx > expected) by (nonlinear_arith)
        requires
            idx == origin + x * fpp,
            expected == origin + next * fpp,
            fpp > 0,
    ;
    if x < next || seen.contains(x) {
        assert(seen.contains(x));
        assert(now =~= seen);
        assert(out + Seq::<i16>::empty() =~= out);
    } else if x == next {
        let pending = stream.pending;
        assert(pending =~= seen_from(origin, fpp, packets, now, next + 1)) by {
            let other = seen_from(origin, fpp, packets, now, next + 1);
            assert forall|key: u64| #[trigger] pending.contains_key(key)
                <==> other.contains_key(key) by {
                if key >= origin && (key - origin) % (fpp as int) == 0 {
                    number_leads_back(origin, fpp, key);
                }
            }
        }
        assert((next + 1) * fpp == next * fpp + fpp) by (nonlinear_arith);
        drained_in_order(origin, channels, fpp, packets, now, next + 1);
        let end = missing_from(now, next + 1, count);
        missing_is_first(now, next + 1, count);
        assert forall|y: nat| 0 <= y < end implies #[trigger] now.contains(y) by {
            if y < next {
                assert(seen.contains(y));
            }
        }
        missing_is(now, 0, count, end);
        laid_in_parts(packets, 0, next, end);
        assert(laid(packets, next, end) == packets[next as int] + laid(packets, next + 1, end));
    } else {
        assert forall|y: nat| 0 <= y < next implies #[trigger] now.contains(y) by {
            assert(seen.contains(y));
        }
        missing_is(now, 0, count, next);
        let held = stream.pending.insert(idx, packets[x as int]);
        assert(held =~= ahead(origin, fpp, packets, now)) by {
            let other = ahead(origin, fpp, packets, now);
            assert forall|key: u64| #[trigger] held.contains_key(key) <==> other.contains_key(
                key,
            ) by {
                if key >= origin && (key - origin) % (fpp as int) == 0 {
                    number_leads_back(origin, fpp, key);
                }
            }
        }
        assert(out + Seq::<i16>::empty() =~= out);
    }
}

/// Packets play in the order of their indices, however they arrive.
///
/// Packets of the agreed size may come in any order after the first, and more than
/// once. As long as no more than the window have to be held back at once, all of
/// them come out, each once and in the order of their indices, with nothing lost
/// and nothing left over: just as if they had arrived in order.
pub proof fn packets_play_in_order_however_they_arrive(
    origin: u64,
    channels: nat,
    window: nat,
    fpp: nat,
    packets: Seq<Seq<i16>>,
    order: Seq<nat>,
)
    requires
        agreed(origin, channels, fpp, packets),
        packets.len() > 0,
        order.len() > 0,
        order[0] == 0,
        forall|i: int| 0 <= i < order.len() ==> #[trigger] order[i] < packets.len(),
        forall|x: nat| x < packets.len() ==> #[trigger] order.contains(x),
        forall|m: int|
            0 <= m <= order.len() ==> ahead(
                origin,
                fpp,
                packets,
                (#[trigger] order.take(m)).to_set(),
            ).len() <= window,
    ensures
        ({
            let (stream, out) = pushed_all(
                Stream::started(no_packets()),
                channels,
                window,
                arrivals(origin, fpp, packets, order),
            );
            &&& out == laid(packets, 0, packets.len())
            &&& stream.next == Some(index_of(origin, fpp, packets.len()))
            &&& stream.pending == Map::<u64, Seq<i16>>::empty()
            &&& stream.stats.frames_lost == 0
        }),
{
    let count = packets.len();
    stays_in_line(origin, channels, window, fpp, packets, order, order.len() as int);
    let seen = order.take(order.len() as int).to_set();
    assert(order.take(order.len() as int) =~= order);
    assert forall|x: nat| 0 <= x < count implies #[trigger] seen.contains(x) by {
        assert(order.contains(x));
    }
    missing_is(seen, 0, count, count);
    assert(ahead(origin, fpp, packets, seen) =~= Map::<u64, Seq<i16>>::empty());
    assert(arrivals(origin, fpp, packets, order.take(order.len() as int)) =~= arrivals(
        origin,
        fpp,
        packets,
        order,
    ));
}

/// The stream is in line after each arrival.
proof fn stays_in_line(
    origin: u64,
    channels: nat,
    window: nat,
    fpp: nat,
    packets: Seq<Seq<i16>>,
    order: Seq<nat>,
    m: int,
)
    requires
        agreed(origin, channels, fpp, packets),
        0 < m <= order.len(),
        order[0] == 0,
        forall|i: int| 0 <= i < order.len() ==> #[trigger] order[i] < packets.len(),
        forall|m: int|
            0 <= m <= order.len() ==> ahead(
                origin,
                fpp,
                packets,
                (#[trigger] order.take(m)).to_set(),
            ).len() <= window,
    ensures
        ({
            let (stream, out) = pushed_all(
                Stream::started(no_packets()),
                channels,
                window,
                arrivals(origin, fpp, packets, order.take(m)),
            );
            in_line(stream, out, origin, fpp, packets, order.take(m).to_set())
        }),
    decreases m,
{
    let came = arrivals(origin, fpp, packets, order.take(m));
    let x = order[m - 1];
    let start = Stream::started(no_packets());
    let before = order.take(m - 1);
    assert(came.drop_last() =~= arrivals(origin, fpp, packets, before));
    assert(came.last() == (index_of(origin, fpp, x), packets[x as int]));
    assert(order.take(m) =~= before.push(x));
    assert(order.take(m).to_set() =~= before.to_set().insert(x)) by {
        assert forall|y: nat| #[trigger] order.take(m).to_set().contains(y)
            <==> before.to_set().insert(x).contains(y) by {
            if before.contains(y) {
                let k = choose|k: int| 0 <= k < before.len() && before[k] == y;
                assert(order.take(m)[k] == y);
            }
            if y == x {
                assert(order.take(m)[m - 1] == y);
            }
            if order.take(m).contains(y) && y != x {
                let k = choose|k: int| 0 <= k < m && order.take(m)[k] == y;
                assert(before[k] == y);
            }
        }
    }
    if m > 1 {
        stays_in_line(origin, channels, window, fpp, packets, order, m - 1);
        let (stream, out) = pushed_all(
            start,
            channels,
            window,
            arrivals(origin, fpp, packets, before),
        );
        one_more_in_line(
            stream,
            out,
            origin,
            channels,
            window,
            fpp,
            packets,
            before.to_set(),
            x,
        );
    } else {
        // A stream that waits for the first packet at its origin takes it just as
        // one that has not begun.
        let none = Set::<nat>::empty();
        assert(before.to_set() =~= none);
        let waiting = Stream { next: Some(origin), ..start };
        missing_is(none, 0, packets.len(), 0);
        assert(0 * fpp == 0);
        assert(ahead(origin, fpp, packets, none) =~= Map::<u64, Seq<i16>>::empty());
        one_more_in_line(
            waiting,
            seq![],
            origin,
            channels,
            window,
            fpp,
            packets,
            none,
            x,
        );
        index_leads_back(origin, fpp, x, packets.len());
        let samples = packets[x as int];
        vstd::arithmetic::div_mod::lemma_div_by_multiple(fpp as int, channels as int);
        assert(start.pushed(channels, window, origin, samples) == waiting.pushed(
            channels,
            window,
            origin,
            samples,
        ));
        assert(pushed_all(start, channels, window, came.drop_last()) == (
            start,
            Seq::<i16>::empty(),
        ));
        assert(came.last() == (origin, samples));
    }
}

/// What is released on the grid are whole packets: as many frames as they hold.
proof fn drained_counts(next: u64, pending: Map<u64, Seq<i16>>, channels: nat, fpp: nat)
    requires
        channels > 0,
        fpp > 0,
        pending.dom().finite(),
        on_grid(pending, next, channels, fpp),
    ensures
        ({
            let (out, end, left) = drained(next, pending, channels);
            end - next == fpp * (pending.len() - left.len())
        }),
    decreases pending.len(),
{
    if pending.contains_key(next) {
        let rest = pending.remove(next);
        assert(frames(pending[next], channels) == fpp) by {
            vstd::arithmetic::div_mod::lemma_div_by_multiple(fpp as int, channels as int);
        }
        let after = (next + fpp) as u64;
        assert forall|k: u64| #[trigger] rest.contains_key(k) implies {
            &&& after <= k
            &&& (k - after) % (fpp as int) == 0
            &&& rest[k].len() == fpp * channels
            &&& k + fpp <= u64::MAX
        } by {
            assert(pending.contains_key(k));
            grid_step(next, k, fpp);
        }
        drained_counts(after, rest, channels, fpp);
        let left = drained(after, rest, channels).2;
        assert(fpp * (pending.len() - left.len()) == fpp * (rest.len() - left.len()) + fpp)
            by (nonlinear_arith)
            requires
                pending.len() == rest.len() + 1,
        ;
    } else {
        assert(fpp * 0 == 0);
    }
}

/// What comes out for a packet is accounted for: the frames of the packets that
/// were taken in and are no longer held, and the frames counted as lost.
pub proof fn each_frame_is_accounted_for(
    stream: Stream,
    channels: nat,
    fpp: nat,
    window: nat,
    sample_idx: u64,
    samples: Seq<i16>,
)
    requires
        channels > 0,
        fpp > 0,
        window > 0,
        stream.aligned(channels, fpp),
        stream.has_room(channels, sample_idx, samples),
        samples.len() == fpp * channels,
        (sample_idx - stream.base(sample_idx)) % (fpp as int) == 0,
    ensures
        ({
            let (after, out) = stream.pushed(channels, window, sample_idx, samples);
            let taken_in = after.stats.packets_accepted - stream.stats.packets_accepted;
            let held = after.pending.len() - stream.pending.len();
            let lost = after.stats.frames_lost - stream.stats.frames_lost;
            let out_frames = after.next->Some_0 - stream.base(sample_idx);
            &&& out_frames == fpp * (taken_in - held) + lost
            &&& out.len() == out_frames * channels
            &&& out_frames % (fpp as int) == 0
            &&& lost >= 0
            &&& taken_in >= held
        }),
{
    packets_land_where_their_index_says(stream, channels, fpp, window, sample_idx, samples);
    let start = stream.base(sample_idx);
    let (after, out) = stream.pushed(channels, window, sample_idx, samples);
    assert(frames(samples, channels) == fpp) by {
        vstd::arithmetic::div_mod::lemma_div_by_multiple(fpp as int, channels as int);
    }
    assert(fpp * 0 == 0);
    if stream.next is None {
        assert(stream.pending.dom() =~= Set::empty());
    }
    let taken_in = after.stats.packets_accepted - stream.stats.packets_accepted;
    let held_more = after.pending.len() - stream.pending.len();
    if sample_idx < start || stream.pending.contains_key(sample_idx) {
    } else if sample_idx == start {
        let next = (start + fpp) as u64;
        assert forall|k: u64| #[trigger] stream.pending.contains_key(k) implies {
            &&& next <= k
            &&& (k - next) % (fpp as int) == 0
            &&& stream.pending[k].len() == fpp * channels
            &&& k + fpp <= u64::MAX
        } by {
            grid_step(start, k, fpp);
        }
        drained_counts(next, stream.pending, channels, fpp);
        let left = drained(next, stream.pending, channels).2;
        assert(fpp * (1 - (left.len() - stream.pending.len())) == fpp * (stream.pending.len()
            - left.len()) + fpp) by (nonlinear_arith);
    } else {
        let held = stream.pending.insert(sample_idx, samples);
        if held.len() > window {
            oldest_exists(held);
            let first = oldest(held);
            assert(held.contains_key(first));
            assert(held.contains_key(sample_idx));
            assert forall|k: u64| #[trigger] held.contains_key(k) implies {
                &&& first <= k
                &&& (k - first) % (fpp as int) == 0
                &&& held[k].len() == fpp * channels
                &&& k + fpp <= u64::MAX
            } by {
                if k != sample_idx {
                    assert(stream.pending.contains_key(k));
                }
                if first != sample_idx {
                    assert(stream.pending.contains_key(first));
                }
                vstd::arithmetic::div_mod::lemma_sub_mod_noop(
                    k - start,
                    first - start,
                    fpp as int,
                );
                vstd::arithmetic::div_mod::lemma_small_mod(0, fpp);
            }
            if first != sample_idx {
                assert(stream.pending.contains_key(first));
            }
            assert(first > start);
            drained_counts(first, held, channels, fpp);
            let left = drained(first, held, channels).2;
            assert(fpp * (1 - (left.len() - stream.pending.len())) == fpp * (held.len()
                - left.len())) by (nonlinear_arith)
                requires
                    held.len() == stream.pending.len() + 1,
            ;
        }
    }
    let lost = after.stats.frames_lost - stream.stats.frames_lost;
    vstd::arithmetic::div_mod::lemma_small_mod(0, fpp);
    vstd::arithmetic::div_mod::lemma_mod_multiples_vanish(
        taken_in - held_more,
        lost,
        fpp as int,
    );
    assert(taken_in >= held_more) by (nonlinear_arith)
        requires
            fpp > 0,
            fpp * (taken_in - held_more) >= 0,
    ;
}

/// Packets of the agreed size, on the grid that the first one sets, with room for
/// their indices and for counting them.
pub open spec fn keep_to_the_grid(
    packets: Seq<(u64, Seq<i16>)>,
    channels: nat,
    fpp: nat,
) -> bool {
    &&& packets.len() < u64::MAX
    &&& forall|i: int|
        0 <= i < packets.len() ==> {
            &&& (#[trigger] packets[i]).1.len() == fpp * channels
            &&& packets[i].0 + fpp <= u64::MAX
            &&& (packets[i].0 - packets[0].0) % (fpp as int) == 0
        }
}

/// The account of a stream that began with `origin` and took `count` packets.
pub open spec fn balanced(
    stream: Stream,
    out: Seq<i16>,
    origin: u64,
    channels: nat,
    fpp: nat,
    window: nat,
    count: nat,
) -> bool {
    let stats = stream.stats;
    let next = stream.base(origin);
    &&& stream.aligned(channels, fpp)
    &&& origin <= next
    &&& (next - origin) % (fpp as int) == 0
    &&& out.len() == (next - origin) * channels
    &&& next - origin == fpp * (stats.packets_accepted - stream.pending.len()) + stats.frames_lost
    &&& stream.pending.len() <= stats.packets_accepted
    &&& stream.pending.len() <= window
    &&& stats.packets_accepted <= count
    &&& stats.packets_late <= count
    &&& stats.packets_duplicate <= count
    &&& stats.packets_buffered <= count
}

/// The account stays balanced over any packets that keep to the grid.
proof fn stays_balanced(
    channels: nat,
    window: nat,
    fpp: nat,
    packets: Seq<(u64, Seq<i16>)>,
)
    requires
        channels > 0,
        fpp > 0,
        window > 0,
        packets.len() > 0,
        keep_to_the_grid(packets, channels, fpp),
    ensures
        ({
            let (stream, out) = pushed_all(
                Stream::started(no_packets()),
                channels,
                window,
                packets,
            );
            &&& balanced(stream, out, packets[0].0, channels, fpp, window, packets.len())
            &&& stream.next is Some
        }),
    decreases packets.len(),
{
    let start = Stream::started(no_packets());
    let before = packets.drop_last();
    let (stream, out) = pushed_all(start, channels, window, before);
    let (idx, samples) = packets.last();
    let origin = packets[0].0;
    assert(packets[packets.len() - 1] == (idx, samples));
    assert(frames(samples, channels) == fpp) by {
        vstd::arithmetic::div_mod::lemma_div_by_multiple(fpp as int, channels as int);
    }
    assert(0 * channels == 0 && fpp * 0 == 0);
    vstd::arithmetic::div_mod::lemma_small_mod(0, fpp);
    if before.len() > 0 {
        assert forall|i: int| 0 <= i < before.len() implies {
            &&& (#[trigger] before[i]).1.len() == fpp * channels
            &&& before[i].0 + fpp <= u64::MAX
            &&& (before[i].0 - before[0].0) % (fpp as int) == 0
        } by {
            assert(packets[i] == before[i]);
        }
        assert(before[0] == packets[0]);
        stays_balanced(channels, window, fpp, before);
    } else {
        assert(stream == start);
        assert(idx == origin);
    }
    let base = stream.base(idx);
    vstd::arithmetic::div_mod::lemma_sub_mod_noop(idx - origin, base - origin, fpp as int);
    assert((idx - origin) - (base - origin) == idx - base);
    assert(fpp * (stream.stats.packets_accepted - stream.pending.len()) >= 0) by (nonlinear_arith)
        requires
            stream.stats.packets_accepted >= stream.pending.len(),
    ;
    assert(stream.has_room(channels, idx, samples));
    packets_land_where_their_index_says(stream, channels, fpp, window, idx, samples);
    each_frame_is_accounted_for(stream, channels, fpp, window, idx, samples);
    each_packet_is_counted_once(stream, channels, window, idx, samples);
    let (after, more) = stream.pushed(channels, window, idx, samples);
    let end = after.next->Some_0;
    let a = stream.stats.packets_accepted - stream.pending.len();
    let b = after.stats.packets_accepted - after.pending.len();
    assert(fpp * b == fpp * a + fpp * (b - a)) by (nonlinear_arith);
    assert((end - origin) * channels == (base - origin) * channels + (end - base) * channels)
        by (nonlinear_arith);
    vstd::arithmetic::div_mod::lemma_add_mod_noop(base - origin, end - base, fpp as int);
}

/// Nothing comes from nowhere and nothing goes missing: over any packets that keep
/// to the grid of the first, what came out is every packet that was taken in and is
/// not held back, and a frame of silence for each frame counted as lost. No more
/// packets are held back than the window has room for.
pub proof fn what_comes_out_is_what_was_taken_in(
    channels: nat,
    window: nat,
    fpp: nat,
    packets: Seq<(u64, Seq<i16>)>,
)
    requires
        channels > 0,
        fpp > 0,
        window > 0,
        keep_to_the_grid(packets, channels, fpp),
    ensures
        ({
            let (stream, out) = pushed_all(
                Stream::started(no_packets()),
                channels,
                window,
                packets,
            );
            let stats = stream.stats;
            &&& out.len() == channels * (fpp * stats.packets_accepted - fpp
                * stream.pending.len() + stats.frames_lost)
            &&& stream.pending.len() <= window
        }),
{
    let (stream, out) = pushed_all(Stream::started(no_packets()), channels, window, packets);
    let accepted = stream.stats.packets_accepted as int;
    let held = stream.pending.len() as int;
    if packets.len() > 0 {
        stays_balanced(channels, window, fpp, packets);
    } else {
        assert(fpp * 0 == 0 && 0 * channels == 0);
    }
    vstd::arithmetic::mul::lemma_mul_is_distributive_sub(fpp as int, accepted, held);
    vstd::arithmetic::mul::lemma_mul_is_commutative(
        channels as int,
        fpp * accepted - fpp * held + stream.stats.frames_lost,
    );
}

/// Only packets that come ahead of the next one are held back, and counted as
/// such; and a gap is given up on, and counted as lost, only when more packets are
/// held back than the window has room for. Then it is as long as the frames up to
/// the oldest packet held, and silence takes its place.
pub proof fn only_packets_ahead_are_held_back(
    stream: Stream,
    channels: nat,
    window: nat,
    sample_idx: u64,
    samples: Seq<i16>,
)
    requires
        channels > 0,
        stream.wf(channels),
        stream.has_room(channels, sample_idx, samples),
        samples.len() >= channels,
    ensures
        ({
            let (after, out) = stream.pushed(channels, window, sample_idx, samples);
            let held = stream.pending.insert(sample_idx, samples);
            let ahead = stream.next matches Some(next) && next < sample_idx
                && !stream.pending.contains_key(sample_idx);
            let lost = after.stats.frames_lost - stream.stats.frames_lost;
            &&& after.stats.packets_buffered == stream.stats.packets_buffered + if ahead {
                1int
            } else {
                0
            }
            &&& !ahead || held.len() <= window ==> lost == 0
            &&& ahead && held.len() <= window ==> {
                &&& out == Seq::<i16>::empty()
                &&& after.pending == held
                &&& after.next == stream.next
            }
            &&& ahead && held.len() > window ==> exists|k: u64|
                {
                    &&& #[trigger] held.contains_key(k)
                    &&& forall|j: u64| #[trigger] held.contains_key(j) ==> k <= j
                    &&& lost == if k > stream.next->Some_0 {
                        k - stream.next->Some_0
                    } else {
                        0
                    }
                    &&& out.len() >= lost * channels
                    &&& forall|i: int| 0 <= i < lost * channels ==> #[trigger] out[i] == 0
                    &&& !after.pending.contains_key(k) || k < stream.next->Some_0
                }
        }),
{
    vstd::arithmetic::div_mod::lemma_div_non_zero(samples.len() as int, channels as int);
    let held = stream.pending.insert(sample_idx, samples);
    assert(held.contains_key(sample_idx));
    oldest_exists(held);
    let k = oldest(held);
    if let Some(next) = stream.next {
        if next < sample_idx && !stream.pending.contains_key(sample_idx) && held.len() > window {
            let (after, out) = stream.pushed(channels, window, sample_idx, samples);
            let lost: nat = if k > next {
                (k - next) as nat
            } else {
                0
            };
            assert(k <= sample_idx);
            let from = if k > next {
                k
            } else {
                next
            };
            if held.contains_key(from) {
                drained_lets_go(from, held, channels);
            }
            assert(held.contains_key(k) && !(after.pending.contains_key(k) && k >= next));
        }
    }
}

/// A packet that continues the stream is no longer held.
proof fn drained_lets_go(next: u64, pending: Map<u64, Seq<i16>>, channels: nat)
    requires
        pending.dom().finite(),
        pending.contains_key(next),
    ensures
        !drained(next, pending, channels).2.contains_key(next),
{
    let rest = pending.remove(next);
    drained_keeps_only_what_was_held(
        (next + frames(pending[next], channels)) as u64,
        rest,
        channels,
        next,
    );
}

proof fn drained_keeps_only_what_was_held(
    next: u64,
    pending: Map<u64, Seq<i16>>,
    channels: nat,
    k: u64,
)
    requires
        pending.dom().finite(),
        !pending.contains_key(k),
    ensures
        !drained(next, pending, channels).2.contains_key(k),
    decreases pending.len(),
{
    if pending.contains_key(next) {
        drained_keeps_only_what_was_held(
            (next + frames(pending[next], channels)) as u64,
            pending.remove(next),
            channels,
            k,
        );
    }
}

/// There is room for every packet short of the end of what can be counted.
pub proof fn there_is_room_short_of_the_limits(
    stream: Stream,
    channels: nat,
    sample_idx: u64,
    samples: Seq<i16>,
)
    requires
        channels > 0,
        sample_idx + samples.len() <= u64::MAX,
        stream.stats.packets_accepted < u64::MAX,
        stream.stats.packets_late < u64::MAX,
        stream.stats.packets_duplicate < u64::MAX,
        stream.stats.packets_buffered < u64::MAX,
        stream.stats.frames_lost + sample_idx <= u64::MAX,
    ensures
        stream.has_room(channels, sample_idx, samples),
{
    vstd::arithmetic::div_mod::lemma_div_nonincreasing(samples.len() as int, channels as int);
}

proof fn drained_stops_at_a_gap(next: u64, pending: Map<u64, Seq<i16>>, channels: nat)
    requires
        pending.dom().finite(),
    ensures
        !drained(next, pending, channels).2.contains_key(drained(next, pending, channels).1),
    decreases pending.len(),
{
    if pending.contains_key(next) {
        drained_stops_at_a_gap(
            (next + frames(pending[next], channels)) as u64,
            pending.remove(next),
            channels,
        );
    }
}

/// A packet that is next in turn is never held back, whatever sizes packets have: the
/// packet that the stream waits for is not among those it holds, and stays so.
pub proof fn the_next_packet_is_never_held_back(
    stream: Stream,
    channels: nat,
    window: nat,
    sample_idx: u64,
    samples: Seq<i16>,
)
    requires
        stream.wf(channels),
        stream.next matches Some(next) ==> !stream.pending.contains_key(next),
    ensures
        ({
            let (after, out) = stream.pushed(channels, window, sample_idx, samples);
            &&& after.next matches Some(next) ==> !after.pending.contains_key(next)
            &&& stream.next is None && frames(samples, channels) > 0 ==> after.next is Some
        }),
{
    let next = stream.base(sample_idx);
    let held = stream.pending.insert(sample_idx, samples);
    drained_stops_at_a_gap(
        (next + frames(samples, channels)) as u64,
        stream.pending,
        channels,
    );
    let first = oldest(held);
    drained_stops_at_a_gap(
        if first > next {
            first
        } else {
            next
        },
        held,
        channels,
    );
    if stream.next is None {
        assert(stream.pending.dom() =~= Set::empty());
    }
}

/// What comes out for a packet in turn starts with that packet, whatever its size.
pub proof fn a_packet_in_turn_comes_out_at_once(
    stream: Stream,
    channels: nat,
    window: nat,
    samples: Seq<i16>,
)
    requires
        channels > 0,
        stream.next matches Some(next) && !stream.pending.contains_key(next) && next
            + samples.len() <= u64::MAX,
        samples.len() >= channels,
    ensures
        ({
            let next = stream.next->Some_0;
            let (after, out) = stream.pushed(channels, window, next, samples);
            &&& out.take(samples.len() as int) == samples
            &&& stream.pending == Map::<u64, Seq<i16>>::empty() ==> out == samples && after.next
                == Some((next + samples.len() / channels) as u64)
            &&& after.stats.frames_lost == stream.stats.frames_lost
        }),
{
    vstd::arithmetic::div_mod::lemma_div_non_zero(samples.len() as int, channels as int);
    let next = stream.next->Some_0;
    let (after, out) = stream.pushed(channels, window, next, samples);
    assert(out.take(samples.len() as int) =~= samples);
    assert(samples + Seq::<i16>::empty() =~= samples);
}

} // verus!
