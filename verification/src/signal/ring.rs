//! A lock-free single-producer single-consumer channel of interleaved frames.
//!
//! One side of every ring is a realtime audio callback, which may not allocate,
//! lock or block. The ring stores 32-bit sample words, whose meaning its two
//! ends agree on; every operation moves whole frames, because a partial frame
//! would shift the channel interleave for the rest of the session.

use ringbuf::traits::{Consumer, Observer, Producer, Split};
use ringbuf::{HeapCons, HeapProd, HeapRb};
use vstd::prelude::*;

verus! {

/// The writing half of a `ringbuf` ring of sample words.
#[verifier::external_body]
pub struct WordSender {
    inner: HeapProd<u32>,
}

/// The reading half of a `ringbuf` ring of sample words.
#[verifier::external_body]
pub struct WordReceiver {
    inner: HeapCons<u32>,
}

/// Every word that this half has written, in order.
pub uninterp spec fn words_sent(half: WordSender) -> Seq<u32>;

/// Every word that this half has taken out, in order.
pub uninterp spec fn words_taken(half: WordReceiver) -> Seq<u32>;

/// How many words the reading half is known to have taken: those that the last
/// look showed, and those without which there had been no room for the words
/// written. It may have taken more since.
pub uninterp spec fn taken_seen(half: WordSender) -> nat;

/// How many words the writing half is known to have written. It may have written
/// more since.
pub uninterp spec fn sent_seen(half: WordReceiver) -> nat;

/// How many words the ring was made to hold.
pub uninterp spec fn sender_capacity(half: WordSender) -> nat;

/// How many words the ring was made to hold.
pub uninterp spec fn receiver_capacity(half: WordReceiver) -> nat;

/// Every word that passes through the ring from its making to its end.
pub uninterp spec fn sender_traffic(half: WordSender) -> Seq<u32>;

/// Every word that passes through the ring from its making to its end.
pub uninterp spec fn receiver_traffic(half: WordReceiver) -> Seq<u32>;

/// What is known of the reading half fits the ring: it took no more than was
/// written, and what it left is no more than the ring holds.
pub open spec fn sender_sound(half: WordSender) -> bool {
    taken_seen(half) <= words_sent(half).len() <= taken_seen(half) + sender_capacity(half)
}

/// What is known of the writing half fits the ring: it wrote what was taken, and
/// no more beyond that than the ring holds.
pub open spec fn receiver_sound(half: WordReceiver) -> bool {
    words_taken(half).len() <= sent_seen(half) <= words_taken(half).len() + receiver_capacity(half)
}

/// Places that are free for certain. The other half can only add to them.
pub open spec fn sure_room(half: WordSender) -> nat {
    (taken_seen(half) + sender_capacity(half) - words_sent(half).len()) as nat
}

/// Words that are there for certain. The other half can only add to them.
pub open spec fn sure_words(half: WordReceiver) -> nat {
    (sent_seen(half) - words_taken(half).len()) as nat
}

/// `ringbuf`'s `HeapRb::new` and `split`: an empty ring of that capacity, as its
/// two halves. `new` panics for a capacity of zero or one that no allocation can
/// hold.
#[verifier::external_body]
fn new_ring(capacity: usize) -> (halves: (WordSender, WordReceiver))
    requires
        0 < capacity,
        capacity * 4 <= isize::MAX,
    ensures
        words_sent(halves.0) == Seq::<u32>::empty(),
        words_taken(halves.1) == Seq::<u32>::empty(),
        taken_seen(halves.0) == 0,
        sent_seen(halves.1) == 0,
        sender_capacity(halves.0) == capacity,
        receiver_capacity(halves.1) == capacity,
        sender_traffic(halves.0) == receiver_traffic(halves.1),
{
    let (prod, cons) = HeapRb::<u32>::new(capacity).split();
    (WordSender { inner: prod }, WordReceiver { inner: cons })
}

/// `ringbuf`'s `vacant_len` of the writing half: the places free at this moment.
/// Only the reading half can change them behind the writer's back, and it only
/// frees more, so what was sure stays sure and what is seen now is sure from now
/// on: the difference to what was written is what the reading half has taken. How
/// much more than what was sure is free is up to the other thread.
#[verifier::external_body]
fn look_for_room(half: &mut WordSender) -> (n: usize)
    ensures
        taken_seen(*old(half)) <= taken_seen(*final(half)),
        sender_sound(*final(half)),
        sure_room(*final(half)) == n,
        words_sent(*final(half)) == words_sent(*old(half)),
        sender_capacity(*final(half)) == sender_capacity(*old(half)),
        sender_traffic(*final(half)) == sender_traffic(*old(half)),
{
    half.inner.vacant_len()
}

/// `ringbuf`'s `push_slice`: writes as many words from the front of the slice as
/// there are free places, and says how many. Words that needed more room than was
/// sure show that the reading half has taken that many more.
#[verifier::external_body]
fn push_words(half: &mut WordSender, words: &[u32]) -> (n: usize)
    ensures
        n <= words@.len(),
        n >= words@.len() || n >= sure_room(*old(half)),
        n <= sender_capacity(*old(half)),
        words_sent(*final(half)) == words_sent(*old(half)) + words@.take(n as int),
        words_sent(*final(half)).is_prefix_of(sender_traffic(*final(half))),
        taken_seen(*final(half)) == if words_sent(*final(half)).len() > taken_seen(*old(half))
            + sender_capacity(*old(half)) {
            (words_sent(*final(half)).len() - sender_capacity(*old(half))) as nat
        } else {
            taken_seen(*old(half))
        },
        sender_capacity(*final(half)) == sender_capacity(*old(half)),
        sender_traffic(*final(half)) == sender_traffic(*old(half)),
{
    half.inner.push_slice(words)
}

/// `ringbuf`'s `occupied_len` of the reading half: the words there at this
/// moment. Only the writing half can change them behind the reader's back, and
/// it only adds. How much more than what was sure is there is up to the other
/// thread.
#[verifier::external_body]
fn look_for_words(half: &mut WordReceiver) -> (n: usize)
    ensures
        sent_seen(*old(half)) <= sent_seen(*final(half)),
        receiver_sound(*final(half)),
        sure_words(*final(half)) == n,
        words_taken(*final(half)) == words_taken(*old(half)),
        receiver_capacity(*final(half)) == receiver_capacity(*old(half)),
        receiver_traffic(*final(half)) == receiver_traffic(*old(half)),
{
    half.inner.occupied_len()
}

/// `ringbuf`'s `pop_slice`: moves as many words as are there and fit to the
/// front of the slice, in the order they were written, leaves the rest of the
/// slice alone, and says how many.
#[verifier::external_body]
fn pop_words(half: &mut WordReceiver, words: &mut [u32]) -> (n: usize)
    ensures
        n <= old(words)@.len(),
        n >= old(words)@.len() || n >= sure_words(*old(half)),
        n <= receiver_capacity(*old(half)),
        final(words)@.len() == old(words)@.len(),
        final(words)@.skip(n as int) == old(words)@.skip(n as int),
        words_taken(*final(half)) == words_taken(*old(half)) + final(words)@.take(n as int),
        words_taken(*final(half)).is_prefix_of(receiver_traffic(*final(half))),
        sent_seen(*final(half)) == if words_taken(*final(half)).len() > sent_seen(*old(half)) {
            words_taken(*final(half)).len()
        } else {
            sent_seen(*old(half))
        },
        receiver_capacity(*final(half)) == receiver_capacity(*old(half)),
        receiver_traffic(*final(half)) == receiver_traffic(*old(half)),
{
    half.inner.pop_slice(words)
}

/// Producer half: the capture callback on the sender, the network thread on the
/// receiver.
pub struct FrameProducer {
    inner: WordSender,
    channels: usize,
}

/// Consumer half.
pub struct FrameConsumer {
    inner: WordReceiver,
    channels: usize,
}

impl FrameProducer {
    pub closed spec fn frame_words(&self) -> nat {
        self.channels as nat
    }

    /// Every sample written so far.
    pub closed spec fn sent(&self) -> Seq<u32> {
        words_sent(self.inner)
    }

    /// How many samples the other half is known to have taken.
    pub closed spec fn seen(&self) -> nat {
        taken_seen(self.inner)
    }

    /// Whole frames that fit for certain.
    pub closed spec fn sure_frames(&self) -> nat {
        sure_room(self.inner) / self.channels as nat
    }

    /// Frames the ring was made to hold.
    pub closed spec fn capacity_frames(&self) -> nat {
        sender_capacity(self.inner) / self.channels as nat
    }

    /// Everything that ever passes through the ring.
    pub closed spec fn traffic(&self) -> Seq<u32> {
        sender_traffic(self.inner)
    }

    /// Only whole frames have been written.
    pub closed spec fn wf(&self) -> bool {
        &&& self.channels > 0
        &&& words_sent(self.inner).len() % self.channels as nat == 0
        &&& words_sent(self.inner).is_prefix_of(sender_traffic(self.inner))
        &&& sender_sound(self.inner)
        &&& sender_capacity(self.inner) % self.channels as nat == 0
    }
}

impl FrameConsumer {
    pub closed spec fn frame_words(&self) -> nat {
        self.channels as nat
    }

    /// Every sample taken so far.
    pub closed spec fn taken(&self) -> Seq<u32> {
        words_taken(self.inner)
    }

    /// How many samples the other half is known to have written.
    pub closed spec fn seen(&self) -> nat {
        sent_seen(self.inner)
    }

    /// Whole frames that are there for certain.
    pub closed spec fn sure_frames(&self) -> nat {
        sure_words(self.inner) / self.channels as nat
    }

    /// Frames the ring was made to hold.
    pub closed spec fn capacity_frames(&self) -> nat {
        receiver_capacity(self.inner) / self.channels as nat
    }

    /// Everything that ever passes through the ring.
    pub closed spec fn traffic(&self) -> Seq<u32> {
        receiver_traffic(self.inner)
    }

    /// Only whole frames have been taken.
    pub closed spec fn wf(&self) -> bool {
        &&& self.channels > 0
        &&& words_taken(self.inner).len() % self.channels as nat == 0
        &&& words_taken(self.inner).is_prefix_of(receiver_traffic(self.inner))
        &&& receiver_sound(self.inner)
        &&& receiver_capacity(self.inner) % self.channels as nat == 0
    }
}

/// Creates a ring holding `capacity_frames` interleaved frames.
pub fn frame_channel(channels: usize, capacity_frames: usize) -> (halves: (
    FrameProducer,
    FrameConsumer,
))
    requires
        channels > 0,
        capacity_frames > 0,
        capacity_frames * channels * 4 <= isize::MAX,
    ensures
        halves.0.wf(),
        halves.0.frame_words() == channels,
        halves.0.sent() == Seq::<u32>::empty(),
        halves.0.seen() == 0,
        halves.0.sure_frames() == capacity_frames,
        halves.0.capacity_frames() == capacity_frames,
        halves.1.wf(),
        halves.1.frame_words() == channels,
        halves.1.taken() == Seq::<u32>::empty(),
        halves.1.seen() == 0,
        halves.1.sure_frames() == 0,
        halves.1.capacity_frames() == capacity_frames,
        halves.0.traffic() == halves.1.traffic(),
{
    proof {
        assert(capacity_frames * channels > 0) by (nonlinear_arith)
            requires
                channels > 0,
                capacity_frames > 0,
        ;
        vstd::arithmetic::div_mod::lemma_div_by_multiple(capacity_frames as int, channels as int);
        vstd::arithmetic::div_mod::lemma_mod_multiples_basic(
            capacity_frames as int,
            channels as int,
        );
        vstd::arithmetic::div_mod::lemma_small_mod(0, channels as nat);
        vstd::arithmetic::div_mod::lemma_basic_div(0, channels as int);
    }
    let (sender, receiver) = new_ring(capacity_frames * channels);
    (
        FrameProducer { inner: sender, channels },
        FrameConsumer { inner: receiver, channels },
    )
}

/// Of the frames offered, exactly those were kept that the ring was found to have
/// room for: no less than there was for certain, and no more than it was made to
/// hold. So a frame is dropped only where none is free any more.
pub open spec fn found_room(
    before: FrameProducer,
    after: FrameProducer,
    offered: int,
    kept: int,
) -> bool {
    let vacant = after.sure_frames() + kept;
    &&& 0 <= kept <= offered
    &&& before.sure_frames() <= vacant <= before.capacity_frames()
    &&& kept == if offered < vacant {
        offered
    } else {
        vacant
    }
}

/// The ring went from `before` to `after` by taking the whole frames of `samples`,
/// but for `dropped` of them at the end.
pub open spec fn pushed(
    before: FrameProducer,
    after: FrameProducer,
    samples: Seq<u32>,
    dropped: nat,
) -> bool {
    let offered = samples.len() / before.frame_words();
    let kept = offered - dropped;
    &&& after.frame_words() == before.frame_words()
    &&& after.capacity_frames() == before.capacity_frames()
    &&& after.traffic() == before.traffic()
    &&& found_room(before, after, offered as int, kept)
    &&& kept * before.frame_words() <= samples.len()
    &&& after.sent() == before.sent() + samples.take(kept * before.frame_words() as int)
}

/// Of the frames wanted, exactly those were read that were found to be there: no
/// fewer than were for certain, and no more than the ring was made to hold. So a
/// read falls short only where no frame is left.
pub open spec fn found_frames(
    before: FrameConsumer,
    after: FrameConsumer,
    wanted: int,
    read: int,
) -> bool {
    let there = after.sure_frames() + read;
    &&& 0 <= read <= wanted
    &&& before.sure_frames() <= there <= before.capacity_frames()
    &&& read == if wanted < there {
        wanted
    } else {
        there
    }
}

/// The ring went from `before` to `after` by giving `read` frames to the front of
/// a buffer that went from `old_out` to `out`.
pub open spec fn popped(
    before: FrameConsumer,
    after: FrameConsumer,
    old_out: Seq<u32>,
    out: Seq<u32>,
    read: nat,
) -> bool {
    let wanted = old_out.len() / before.frame_words();
    let words = (read * before.frame_words()) as int;
    &&& after.frame_words() == before.frame_words()
    &&& after.capacity_frames() == before.capacity_frames()
    &&& after.traffic() == before.traffic()
    &&& found_frames(before, after, wanted as int, read as int)
    &&& out.len() == old_out.len()
    &&& words <= old_out.len()
    &&& after.taken() == before.taken() + out.take(words)
    &&& out.skip(words) == old_out.skip(words)
}

/// Whole frames in `words` words.
proof fn whole_frames(words: nat, channels: nat, n: nat)
    requires
        channels > 0,
        words % channels == 0,
    ensures
        (words + n * channels) % channels == 0,
        n * channels / channels == n,
{
    vstd::arithmetic::div_mod::lemma_mod_multiples_vanish(n as int, words as int, channels as int);
    vstd::arithmetic::mul::lemma_mul_is_commutative(n as int, channels as int);
    vstd::arithmetic::div_mod::lemma_div_by_multiple(n as int, channels as int);
}

/// `n` whole frames are no more than `words` words where the words hold at
/// least `n` frames.
proof fn frames_fit(words: nat, channels: nat, n: nat)
    requires
        channels > 0,
        n <= words / channels,
    ensures
        n * channels <= words,
        (words - n * channels) / (channels as int) == words / channels - n,
{
    vstd::arithmetic::div_mod::lemma_hoist_over_denominator(words as int, -(n as int), channels);
    vstd::arithmetic::mul::lemma_mul_unary_negation(n as int, channels as int);
    vstd::arithmetic::mul::lemma_mul_inequality(
        n as int,
        (words / channels) as int,
        channels as int,
    );
    vstd::arithmetic::div_mod::lemma_fundamental_div_mod(words as int, channels as int);
    vstd::arithmetic::mul::lemma_mul_is_commutative((words / channels) as int, channels as int);
}

impl FrameProducer {
    pub fn channels(&self) -> (n: usize)
        ensures
            n == self.frame_words(),
    {
        self.channels
    }

    /// Frames that can be written without dropping any. The consumer may be
    /// making more room meanwhile.
    pub fn vacant_frames(&mut self) -> (n: usize)
        requires
            old(self).wf(),
        ensures
            final(self).wf(),
            final(self).frame_words() == old(self).frame_words(),
            final(self).sent() == old(self).sent(),
            final(self).capacity_frames() == old(self).capacity_frames(),
            final(self).traffic() == old(self).traffic(),
            final(self).sure_frames() == n,
            old(self).sure_frames() <= n <= old(self).capacity_frames(),
    {
        let room: usize = look_for_room(&mut self.inner);
        proof {
            let channels = self.channels as int;
            vstd::arithmetic::div_mod::lemma_div_is_ordered(
                sure_room(old(self).inner) as int,
                room as int,
                channels,
            );
            vstd::arithmetic::div_mod::lemma_div_is_ordered(
                room as int,
                sender_capacity(old(self).inner) as int,
                channels,
            );
        }
        room / self.channels
    }

    /// Writes as many whole frames from `samples` as fit, returning the number
    /// of frames dropped.
    pub fn push_frames(&mut self, samples: &[u32]) -> (dropped: usize)
        requires
            old(self).wf(),
        ensures
            final(self).wf(),
            pushed(*old(self), *final(self), samples@, dropped as nat),
    {
        let offered: usize = samples.len() / self.channels;
        let room: usize = self.vacant_frames();
        let fitting: usize = if offered < room {
            offered
        } else {
            room
        };
        proof {
            frames_fit(samples@.len(), self.channels as nat, fitting as nat);
            frames_fit(sure_room(self.inner), self.channels as nat, fitting as nat);
            whole_frames(words_sent(self.inner).len(), self.channels as nat, fitting as nat);
        }
        let wanted: usize = fitting * self.channels;
        let pushed: usize = push_words(&mut self.inner, &samples[0..wanted]);
        assert(samples@.subrange(0, wanted as int) =~= samples@.take(wanted as int));
        assert(samples@.take(wanted as int).take(pushed as int) =~= samples@.take(wanted as int));
        offered - fitting
    }

    /// [`FrameProducer::push_frames`], putting every sample through `scale` on
    /// the way.
    pub fn push_frames_scaled<F: Fn(u32) -> u32>(&mut self, samples: &[u32], scale: F) -> (dropped:
        usize)
        requires
            old(self).wf(),
            forall|x: u32| call_requires(scale, (x,)),
        ensures
            final(self).wf(),
            final(self).frame_words() == old(self).frame_words(),
            final(self).capacity_frames() == old(self).capacity_frames(),
            final(self).traffic() == old(self).traffic(),
            ({
                let offered = samples@.len() / old(self).frame_words();
                let kept = offered - dropped;
                let before = old(self).sent().len();
                &&& found_room(*old(self), *final(self), offered as int, kept)
                &&& kept * old(self).frame_words() <= samples@.len()
                &&& final(self).sent().len() == before + kept * old(self).frame_words()
                &&& final(self).sent().take(before as int) == old(self).sent()
                &&& forall|i: int|
                    0 <= i < kept * old(self).frame_words() ==> call_ensures(
                        scale,
                        (samples@[i],),
                        #[trigger] final(self).sent()[before + i],
                    )
            }),
    {
        let offered: usize = samples.len() / self.channels;
        let room: usize = self.vacant_frames();
        let fitting: usize = if offered < room {
            offered
        } else {
            room
        };
        proof {
            frames_fit(samples@.len(), self.channels as nat, fitting as nat);
            frames_fit(sure_room(self.inner), self.channels as nat, fitting as nat);
            whole_frames(words_sent(self.inner).len(), self.channels as nat, fitting as nat);
        }
        let wanted: usize = fitting * self.channels;
        let ghost before = words_sent(self.inner);
        let ghost channels = self.channels;
        let ghost capacity = sender_capacity(self.inner);
        let ghost traffic = sender_traffic(self.inner);
        let ghost sure = sure_room(self.inner);
        // On the stack and of fixed size, because the caller is a capture callback.
        let mut scratch: [u32; SCALE_CHUNK] = [0u32; SCALE_CHUNK];
        let mut done: usize = 0;
        assert(before.take(before.len() as int) =~= before);
        while done < wanted
            invariant
                done <= wanted <= samples@.len(),
                self.channels == channels,
                sender_capacity(self.inner) == capacity,
                sender_traffic(self.inner) == traffic,
                sender_sound(self.inner),
                sure_room(self.inner) == sure - done,
                sure >= wanted,
                words_sent(self.inner).len() == before.len() + done,
                words_sent(self.inner).take(before.len() as int) == before,
                words_sent(self.inner).is_prefix_of(traffic),
                forall|x: u32| call_requires(scale, (x,)),
                forall|i: int|
                    0 <= i < done ==> call_ensures(
                        scale,
                        (samples@[i],),
                        #[trigger] words_sent(self.inner)[before.len() + i],
                    ),
            decreases wanted - done,
        {
            let left: usize = wanted - done;
            let take: usize = if left < SCALE_CHUNK {
                left
            } else {
                SCALE_CHUNK
            };
            let mut filled: usize = 0;
            while filled < take
                invariant
                    filled <= take <= SCALE_CHUNK,
                    done + take <= wanted <= samples@.len(),
                    forall|x: u32| call_requires(scale, (x,)),
                    forall|i: int|
                        0 <= i < filled ==> call_ensures(
                            scale,
                            (samples@[done + i],),
                            #[trigger] scratch@[i],
                        ),
                decreases take - filled,
            {
                let word: u32 = scale(samples[done + filled]);
                scratch[filled] = word;
                filled = filled + 1;
            }
            let ghost sent = words_sent(self.inner);
            let scaled = &scratch.as_slice()[0..take];
            let pushed: usize = push_words(&mut self.inner, scaled);
            assert(scaled@.take(pushed as int) =~= scratch@.take(take as int));
            proof {
                let now = words_sent(self.inner);
                assert(now.take(before.len() as int) =~= sent.take(before.len() as int));
                assert forall|i: int| 0 <= i < done + take implies call_ensures(
                    scale,
                    (samples@[i],),
                    #[trigger] now[before.len() + i],
                ) by {
                    if i < done {
                        assert(now[before.len() + i] == sent[before.len() + i]);
                    } else {
                        assert(now[before.len() + i] == scratch@[i - done]);
                    }
                }
            }
            done = done + take;
        }
        offered - fitting
    }
}

/// Words scaled at a time.
pub const SCALE_CHUNK: usize = 512;

impl FrameConsumer {
    pub fn channels(&self) -> (n: usize)
        ensures
            n == self.frame_words(),
    {
        self.channels
    }

    /// Frames available to read. The producer may be adding more meanwhile.
    pub fn occupied_frames(&mut self) -> (n: usize)
        requires
            old(self).wf(),
        ensures
            final(self).wf(),
            final(self).frame_words() == old(self).frame_words(),
            final(self).taken() == old(self).taken(),
            final(self).capacity_frames() == old(self).capacity_frames(),
            final(self).traffic() == old(self).traffic(),
            final(self).sure_frames() == n,
            old(self).sure_frames() <= n <= old(self).capacity_frames(),
    {
        let words: usize = look_for_words(&mut self.inner);
        proof {
            let channels = self.channels as int;
            vstd::arithmetic::div_mod::lemma_div_is_ordered(
                sure_words(old(self).inner) as int,
                words as int,
                channels,
            );
            vstd::arithmetic::div_mod::lemma_div_is_ordered(
                words as int,
                receiver_capacity(old(self).inner) as int,
                channels,
            );
        }
        words / self.channels
    }

    /// Reads exactly one frame into `frame`, or returns `false` and reads
    /// nothing. A frame that is there for certain is read.
    pub fn pop_frame(&mut self, frame: &mut [u32]) -> (read: bool)
        requires
            old(self).wf(),
            old(frame)@.len() == old(self).frame_words(),
        ensures
            final(self).wf(),
            final(self).frame_words() == old(self).frame_words(),
            final(self).capacity_frames() == old(self).capacity_frames(),
            final(self).traffic() == old(self).traffic(),
            final(frame)@.len() == old(frame)@.len(),
            old(self).sure_frames() > 0 ==> read,
            found_frames(
                *old(self),
                *final(self),
                1,
                if read {
                    1
                } else {
                    0
                },
            ),
            read ==> final(self).taken() == old(self).taken() + final(frame)@,
            !read ==> final(self).taken() == old(self).taken() && final(frame)@ == old(frame)@,
    {
        if self.occupied_frames() == 0 {
            return false;
        }
        proof {
            frames_fit(sure_words(self.inner), self.channels as nat, 1);
            whole_frames(words_taken(self.inner).len(), self.channels as nat, 1);
        }
        let n: usize = pop_words(&mut self.inner, frame);
        assert(frame@.take(n as int) =~= frame@);
        true
    }

    /// Reads whole frames into `out`, returning how many frames were read.
    pub fn pop_frames(&mut self, out: &mut [u32]) -> (read: usize)
        requires
            old(self).wf(),
        ensures
            final(self).wf(),
            popped(*old(self), *final(self), old(out)@, final(out)@, read as nat),
    {
        let wanted: usize = out.len() / self.channels;
        let have: usize = self.occupied_frames();
        let taking: usize = if wanted < have {
            wanted
        } else {
            have
        };
        proof {
            frames_fit(out@.len(), self.channels as nat, taking as nat);
            frames_fit(sure_words(self.inner), self.channels as nat, taking as nat);
            whole_frames(words_taken(self.inner).len(), self.channels as nat, taking as nat);
        }
        let words: usize = taking * self.channels;
        let (head, tail) = out.split_at_mut(words);
        let n: usize = pop_words(&mut self.inner, head);
        assert(head@.take(n as int) =~= head@);
        assert(out@.take(words as int) =~= head@);
        assert(out@.skip(words as int) =~= old(out)@.skip(words as int));
        taking
    }
}

/// Frames arrive in the order they were written, none of them twice and none
/// left out: what the reading half has taken and what the writing half has
/// written agree at every place that both have reached.
pub proof fn order_is_preserved(producer: FrameProducer, consumer: FrameConsumer, i: int)
    requires
        producer.wf(),
        consumer.wf(),
        producer.traffic() == consumer.traffic(),
        0 <= i < producer.sent().len(),
        i < consumer.taken().len(),
    ensures
        consumer.taken()[i] == producer.sent()[i],
{
}

/// What has been taken is the beginning of what passes through the ring.
pub proof fn what_is_taken_has_passed(consumer: FrameConsumer)
    requires
        consumer.wf(),
    ensures
        consumer.taken().is_prefix_of(consumer.traffic()),
{
}

/// The samples written and not yet taken.
pub open spec fn waiting(producer: FrameProducer, consumer: FrameConsumer) -> Seq<u32> {
    producer.sent().skip(consumer.taken().len() as int)
}

/// The two halves are of one ring, and the reading one is not ahead.
pub open spec fn of_one_ring(producer: FrameProducer, consumer: FrameConsumer) -> bool {
    &&& producer.wf()
    &&& consumer.wf()
    &&& producer.traffic() == consumer.traffic()
    &&& producer.frame_words() == consumer.frame_words()
    &&& producer.capacity_frames() == consumer.capacity_frames()
    &&& consumer.taken().len() <= producer.sent().len()
}

/// Whole frames of words that are a whole number of frames.
proof fn frames_of_whole(words: nat, other: nat, channels: nat)
    requires
        channels > 0,
        words % channels == 0,
        other % channels == 0,
        other <= words,
    ensures
        (words - other) as nat / channels == words / channels - other / channels,
        words == words / channels * channels,
        (words - other) % channels as int == 0,
{
    vstd::arithmetic::div_mod::lemma_fundamental_div_mod(words as int, channels as int);
    vstd::arithmetic::div_mod::lemma_fundamental_div_mod(other as int, channels as int);
    let w = words / channels;
    let o = other / channels;
    vstd::arithmetic::mul::lemma_mul_is_commutative(w as int, channels as int);
    vstd::arithmetic::mul::lemma_mul_is_commutative(o as int, channels as int);
    vstd::arithmetic::mul::lemma_mul_is_distributive_sub_other_way(
        channels as int,
        w as int,
        o as int,
    );
    vstd::arithmetic::div_mod::lemma_div_is_ordered(other as int, words as int, channels as int);
    vstd::arithmetic::div_mod::lemma_div_by_multiple(w - o, channels as int);
    vstd::arithmetic::div_mod::lemma_mod_multiples_basic(w - o, channels as int);
}

/// Free and held frames fill the ring: where each half has seen all that the other
/// did, what is free to the one and what is there for the other add up to what
/// the ring was made to hold.
pub proof fn free_and_held_frames_fill_the_ring(producer: FrameProducer, consumer: FrameConsumer)
    requires
        of_one_ring(producer, consumer),
        producer.seen() == consumer.taken().len(),
        consumer.seen() == producer.sent().len(),
    ensures
        producer.sure_frames() + consumer.sure_frames() == producer.capacity_frames(),
        waiting(producer, consumer).len() == consumer.sure_frames() * consumer.frame_words(),
{
    let channels = producer.frame_words();
    let capacity = sender_capacity(producer.inner);
    let held = waiting(producer, consumer).len();
    frames_of_whole(producer.sent().len(), consumer.taken().len(), channels);
    frames_of_whole(held, 0, channels);
    frames_of_whole(capacity, held, channels);
}

/// Frames that are kept are those that the ring is not full without: what is
/// vacant is what the ring was made to hold less what waits.
pub proof fn vacant_is_what_does_not_wait(
    before: FrameProducer,
    after: FrameProducer,
    consumer: FrameConsumer,
    offered: nat,
    kept: nat,
)
    requires
        of_one_ring(before, consumer),
        after.wf(),
        after.frame_words() == before.frame_words(),
        after.capacity_frames() == before.capacity_frames(),
        found_room(before, after, offered as int, kept as int),
        after.sent().len() == before.sent().len() + kept * before.frame_words(),
        after.seen() == consumer.taken().len(),
    ensures
        ({
            let channels = before.frame_words();
            let vacant = before.capacity_frames() - waiting(before, consumer).len() / channels;
            &&& kept == if offered < vacant {
                offered as int
            } else {
                vacant
            }
            &&& after.sure_frames() + waiting(after, consumer).len() / channels
                == after.capacity_frames()
        }),
{
    let channels = before.frame_words();
    let capacity = sender_capacity(after.inner);
    let taken = consumer.taken().len();
    let held = waiting(before, consumer).len();
    let more = waiting(after, consumer).len();
    frames_of_whole(before.sent().len(), taken, channels);
    frames_of_whole(after.sent().len(), taken, channels);
    frames_of_whole(capacity, more, channels);
    frames_of_whole(more, held, channels);
    vstd::arithmetic::div_mod::lemma_div_by_multiple(kept as int, channels as int);
}

/// What fits waits in line: a push adds, behind all that waits, as many whole
/// frames as are vacant, and drops the rest. What is vacant is what the ring was
/// made to hold less what waits, before the push and after it.
pub proof fn what_fits_waits_in_line(
    before: FrameProducer,
    after: FrameProducer,
    consumer: FrameConsumer,
    samples: Seq<u32>,
    dropped: nat,
)
    requires
        of_one_ring(before, consumer),
        after.wf(),
        pushed(before, after, samples, dropped),
        after.seen() == consumer.taken().len(),
    ensures
        ({
            let channels = before.frame_words();
            let offered = samples.len() / channels;
            let held = waiting(before, consumer).len() / channels;
            let vacant = before.capacity_frames() - held;
            let kept = if offered < vacant {
                offered as int
            } else {
                vacant
            };
            &&& vacant >= 0
            &&& dropped == offered - kept
            &&& waiting(after, consumer) == waiting(before, consumer) + samples.take(
                kept * channels as int,
            )
            &&& after.sure_frames() + waiting(after, consumer).len() / channels
                == after.capacity_frames()
        }),
{
    let channels = before.frame_words();
    let offered = samples.len() / channels;
    let kept = (offered - dropped) as nat;
    assert(waiting(after, consumer) =~= waiting(before, consumer) + samples.take(
        (kept * channels) as int,
    ));
    vacant_is_what_does_not_wait(before, after, consumer, offered, kept);
}

/// The room that a push leaves, going by what the reading half is known to have
/// taken.
proof fn room_by_what_is_seen(after: FrameProducer, kept: nat)
    requires
        after.wf(),
        kept * after.frame_words() <= after.sent().len(),
    ensures
        after.sure_frames() + kept == (after.seen() + after.capacity_frames()
            * after.frame_words() - (after.sent().len() - kept * after.frame_words()))
            / after.frame_words() as int,
{
    let channels = after.frame_words();
    let capacity = sender_capacity(after.inner);
    frames_of_whole(capacity, 0, channels);
    vstd::arithmetic::div_mod::lemma_hoist_over_denominator(
        sure_room(after.inner) as int,
        kept as int,
        channels,
    );
}

/// Room in words and what waits in frames, where both halves moved whole frames.
proof fn room_left(sent: int, taken: int, channels: nat, capacity: int)
    requires
        channels > 0,
        sent % channels as int == 0,
        taken % channels as int == 0,
    ensures
        (taken + capacity * channels - sent) / channels as int == capacity - (sent - taken)
            / channels as int,
{
    let c = channels as int;
    vstd::arithmetic::div_mod::lemma_fundamental_div_mod(sent, c);
    vstd::arithmetic::div_mod::lemma_fundamental_div_mod(taken, c);
    let waits = sent / c - taken / c;
    assert(sent - taken == waits * c) by (nonlinear_arith)
        requires
            waits == sent / c - taken / c,
            sent == c * (sent / c),
            taken == c * (taken / c),
    ;
    assert(taken + capacity * c - sent == (capacity - waits) * c) by (nonlinear_arith)
        requires
            sent - taken == waits * c,
    ;
    vstd::arithmetic::div_mod::lemma_hoist_over_denominator(0, waits, channels);
    vstd::arithmetic::div_mod::lemma_hoist_over_denominator(0, capacity - waits, channels);
}

/// A push keeps what was vacant while it ran, whatever the reader does meanwhile:
/// the reading half being at `start` when the push begins and at `end` when it is
/// over, and the push having looked in between, it keeps no fewer frames than fit
/// at its start and no more than fit at its end. They follow all that was written
/// before, and only frames that do not fit are dropped.
pub proof fn a_push_keeps_what_is_vacant_while_it_runs(
    before: FrameProducer,
    after: FrameProducer,
    start: FrameConsumer,
    end: FrameConsumer,
    samples: Seq<u32>,
    dropped: nat,
)
    requires
        of_one_ring(before, start),
        of_one_ring(after, end),
        pushed(before, after, samples, dropped),
        start.taken().len() <= after.seen() <= end.taken().len(),
    ensures
        ({
            let channels = before.frame_words() as int;
            let capacity = before.capacity_frames();
            let offered = samples.len() as int / channels;
            let kept = offered - dropped;
            let sent = before.sent().len();
            let at_start = capacity - (sent - start.taken().len()) / channels;
            let at_end = capacity - (sent - end.taken().len()) / channels;
            &&& at_start <= at_end
            &&& if offered < at_start {
                dropped == 0
            } else {
                at_start <= kept <= at_end
            }
            &&& waiting(after, end) == (before.sent() + samples.take(kept * channels)).skip(
                end.taken().len() as int,
            )
        }),
{
    let channels = before.frame_words();
    let capacity = before.capacity_frames();
    let offered = samples.len() / channels;
    let kept = (offered - dropped) as nat;
    let sent = before.sent().len();
    assert(after.sent().len() == sent + kept * channels);
    room_by_what_is_seen(after, kept);
    room_left(sent as int, start.taken().len() as int, channels, capacity as int);
    room_left(sent as int, end.taken().len() as int, channels, capacity as int);
    vstd::arithmetic::div_mod::lemma_div_is_ordered(
        start.taken().len() + capacity * channels - sent,
        after.seen() + capacity * channels - sent,
        channels as int,
    );
    vstd::arithmetic::div_mod::lemma_div_is_ordered(
        after.seen() + capacity * channels - sent,
        end.taken().len() + capacity * channels - sent,
        channels as int,
    );
}

/// Frames come out in line: a read takes from the front of what waits, and leaves
/// the rest in its order.
pub proof fn frames_come_out_in_line(
    producer: FrameProducer,
    before: FrameConsumer,
    after: FrameConsumer,
    old_out: Seq<u32>,
    out: Seq<u32>,
    read: nat,
)
    requires
        of_one_ring(producer, before),
        of_one_ring(producer, after),
        popped(before, after, old_out, out, read),
    ensures
        ({
            let words = (read * before.frame_words()) as int;
            &&& words <= waiting(producer, before).len()
            &&& out.take(words) == waiting(producer, before).take(words)
            &&& waiting(producer, after) == waiting(producer, before).skip(words)
        }),
{
    let words = (read * before.frame_words()) as int;
    let line = waiting(producer, before);
    assert forall|i: int| 0 <= i < words implies out.take(words)[i] == line[i] by {
        order_is_preserved(producer, after, before.taken().len() + i);
    }
    assert(out.take(words) =~= line.take(words));
    assert(waiting(producer, after) =~= line.skip(words));
}

/// Neither half ever moves part of a frame.
pub proof fn only_whole_frames_move(producer: FrameProducer, consumer: FrameConsumer)
    requires
        producer.wf(),
        consumer.wf(),
    ensures
        producer.sent().len() % producer.frame_words() == 0,
        consumer.taken().len() % consumer.frame_words() == 0,
{
}

/// A read gives all that was asked for where that much is there, and all that is
/// there where it is not: it falls short only when nothing is left.
pub proof fn a_read_gives_all_that_is_there(
    before: FrameConsumer,
    after: FrameConsumer,
    old_out: Seq<u32>,
    out: Seq<u32>,
    read: nat,
)
    requires
        before.wf(),
        popped(before, after, old_out, out, read),
    ensures
        read <= old_out.len() / before.frame_words(),
        before.sure_frames() >= old_out.len() / before.frame_words() ==> read == old_out.len()
            / before.frame_words(),
        read < old_out.len() / before.frame_words() ==> after.sure_frames() == 0 && read
            >= before.sure_frames(),
        after.taken().len() == before.taken().len() + read * before.frame_words(),
        after.taken().take(before.taken().len() as int) == before.taken(),
{
    let words = (read * before.frame_words()) as int;
    assert(after.taken().take(before.taken().len() as int) =~= before.taken());
}

/// A push keeps all that is offered where that much room is sure, and drops only when
/// no room is left.
pub proof fn a_push_keeps_all_that_fits(
    before: FrameProducer,
    after: FrameProducer,
    samples: Seq<u32>,
    dropped: nat,
)
    requires
        before.wf(),
        pushed(before, after, samples, dropped),
    ensures
        dropped <= samples.len() / before.frame_words(),
        before.sure_frames() >= samples.len() / before.frame_words() ==> dropped == 0,
        dropped > 0 ==> after.sure_frames() == 0,
        after.sent().take(before.sent().len() as int) == before.sent(),
        forall|i: int|
            0 <= i < after.sent().len() - before.sent().len() ==> #[trigger] after.sent()[i
                + before.sent().len()] == samples[i],
        after.sent().len() == before.sent().len() + (samples.len() / before.frame_words()
            - dropped) * before.frame_words(),
{
    assert(after.sent().take(before.sent().len() as int) =~= before.sent());
}

} // verus!
