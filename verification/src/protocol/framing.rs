//! Length-prefixed framing for the control channel.
//!
//! Each frame is a 4-byte big-endian length followed by that many bytes. The
//! socket has a read timeout, so [`FrameReader`] keeps partial progress across
//! reads: a timeout means "no frame yet", and the next read goes on where the
//! last one stopped.

use vstd::prelude::*;

use crate::bytes;
use crate::text;

verus! {

/// Length of the frame's length prefix.
pub const PREFIX_LEN: usize = 4;

/// Maximum accepted frame length, so a corrupt length prefix cannot make the
/// receiver allocate arbitrarily.
pub const MAX_FRAME_LEN: usize = 0x10_0000;

/// What can go wrong on the control channel.
#[derive(Debug, Clone, PartialEq, Eq)]
pub enum Error {
    /// The peer closed the connection where a frame would start.
    Closed,
    /// The peer closed the connection inside a frame's payload.
    ClosedMidFrame,
    /// Reading or writing failed; holds how, and what the system said.
    Io(FaultKind, String),
    FrameTooLarge { len: usize },
    /// A message could not be serialised; holds why.
    Encode(String),
    /// A frame's payload is no message; holds why.
    Decode(String),
    Timeout,
}

/// What a socket operation failed with.
#[derive(Debug, Clone, Copy, PartialEq, Eq, Structural)]
pub enum FaultKind {
    Interrupted,
    /// How a read timeout surfaces on Unix.
    WouldBlock,
    /// How a read timeout surfaces on Windows.
    TimedOut,
    ConnectionReset,
    ConnectionAborted,
    UnexpectedEof,
    AddrInUse,
    Other,
}

/// What one read of the socket gave.
#[derive(Debug, Clone, PartialEq, Eq)]
pub enum ReadOutcome {
    /// Bytes; none where the peer has closed the connection.
    Data(Vec<u8>),
    /// No bytes; holds why, and what the system said.
    Fault(FaultKind, String),
}

/// How far a read has brought the current frame.
#[derive(Debug, Clone, PartialEq, Eq)]
pub enum Progress {
    /// A complete frame's payload.
    Frame(Vec<u8>),
    /// The read timed out; whatever arrived is retained.
    NotYet,
    /// Read on.
    Again,
}

/// A frame as it stands on the wire.
pub open spec fn frame(payload: Seq<u8>) -> Seq<u8> {
    bytes::be_bytes(payload.len(), 4) + payload
}

/// The payload length that a frame's first four bytes announce.
pub open spec fn announced(held: Seq<u8>) -> nat {
    bytes::be_value(held.take(4))
}

/// The prefix is complete and announces more than the limit.
pub open spec fn oversized(held: Seq<u8>) -> bool {
    held.len() >= 4 && announced(held) > MAX_FRAME_LEN
}

/// A whole frame is there.
pub open spec fn complete(held: Seq<u8>) -> bool {
    held.len() >= 4 && announced(held) <= MAX_FRAME_LEN && held.len() >= 4 + announced(held)
}

/// How many bytes the frame that starts with `held` is still known to need.
pub open spec fn missing(held: Seq<u8>) -> nat {
    if held.len() < 4 {
        (4 - held.len()) as nat
    } else if oversized(held) || complete(held) {
        0
    } else {
        (4 + announced(held) - held.len()) as nat
    }
}

/// What one read leaves held, and the payload that it completed.
pub open spec fn step(held: Seq<u8>, data: Seq<u8>) -> (Seq<u8>, Option<Seq<u8>>) {
    let now = held + data;
    if complete(now) {
        (seq![], Some(now.skip(4)))
    } else {
        (now, None)
    }
}

/// A read timeout surfaces as either of two kinds, and both mean that nothing
/// more has arrived yet.
pub fn is_timeout(kind: FaultKind) -> (yes: bool)
    ensures
        yes == (kind == FaultKind::WouldBlock || kind == FaultKind::TimedOut),
{
    matches!(kind, FaultKind::WouldBlock | FaultKind::TimedOut)
}

/// Appends one frame to what is to be written.
pub fn write_frame(w: &mut Vec<u8>, payload: &[u8]) -> (r: Result<(), Error>)
    ensures
        payload@.len() > MAX_FRAME_LEN ==> r == Err::<(), Error>(
            Error::FrameTooLarge { len: payload@.len() as usize },
        ) && final(w)@ == old(w)@,
        payload@.len() <= MAX_FRAME_LEN ==> r is Ok && final(w)@ == old(w)@ + frame(payload@),
{
    if payload.len() > MAX_FRAME_LEN {
        return Err(Error::FrameTooLarge { len: payload.len() });
    }
    bytes::put_u32(w, payload.len() as u32);
    w.extend_from_slice(payload);
    assert(w@ =~= old(w)@ + frame(payload@));
    Ok(())
}

/// A resumable frame reader. One reader belongs to one socket for its whole
/// life.
#[derive(Debug)]
pub struct FrameReader {
    prefix: Vec<u8>,
    payload: Vec<u8>,
}

impl View for FrameReader {
    type V = Seq<u8>;

    /// The bytes of the current frame that have arrived.
    closed spec fn view(&self) -> Seq<u8> {
        self.prefix@ + self.payload@
    }
}

impl Default for FrameReader {
    fn default() -> (reader: Self)
        ensures
            reader.wf(),
            reader@ == Seq::<u8>::empty(),
    {
        Self::new()
    }
}

impl FrameReader {
    /// No more than one frame is held, and never a complete one.
    pub closed spec fn wf(&self) -> bool {
        &&& self.prefix@.len() <= 4
        &&& self.payload@.len() > 0 ==> self.prefix@.len() == 4
        &&& !complete(self@)
        &&& oversized(self@) ==> self.payload@.len() == 0
    }

    pub fn new() -> (reader: Self)
        ensures
            reader.wf(),
            reader@ == Seq::<u8>::empty(),
    {
        let reader = Self { prefix: Vec::new(), payload: Vec::new() };
        assert(reader@ =~= Seq::<u8>::empty());
        reader
    }

    /// True when part of a frame has been read but not all of it.
    pub fn is_mid_frame(&self) -> (yes: bool)
        ensures
            yes == (self@.len() > 0),
    {
        self.prefix.len() > 0 || self.payload.len() > 0
    }

    /// The size of the buffer for the next read: never past the end of the
    /// current frame, and zero where the announced length is over the limit.
    pub fn wanted(&self) -> (n: usize)
        requires
            self.wf(),
        ensures
            n == missing(self@),
    {
        if self.prefix.len() < PREFIX_LEN {
            return PREFIX_LEN - self.prefix.len();
        }
        let len: usize = self.announced_len();
        if len > MAX_FRAME_LEN {
            0
        } else {
            len - self.payload.len()
        }
    }

    fn announced_len(&self) -> (n: usize)
        requires
            self.prefix@.len() == 4,
        ensures
            n == announced(self@),
    {
        assert(self.prefix@.subrange(0, 4) =~= self@.take(4));
        bytes::get_u32(self.prefix.as_slice(), 0) as usize
    }

    /// Takes what one read of up to [`FrameReader::wanted`] bytes gave.
    pub fn poll(&mut self, outcome: ReadOutcome) -> (r: Result<Progress, Error>)
        requires
            old(self).wf(),
            outcome matches ReadOutcome::Data(data) ==> data@.len() <= missing(old(self)@),
        ensures
            final(self).wf(),
            oversized(old(self)@) ==> final(self)@ == old(self)@ && r == Err::<Progress, Error>(
                Error::FrameTooLarge { len: announced(old(self)@) as usize },
            ),
            !oversized(old(self)@) ==> match outcome {
                ReadOutcome::Fault(kind, said) => {
                    &&& final(self)@ == old(self)@
                    &&& kind == FaultKind::Interrupted ==> r == Ok::<Progress, Error>(
                        Progress::Again,
                    )
                    &&& kind == FaultKind::WouldBlock || kind == FaultKind::TimedOut ==> r == Ok::<
                        Progress,
                        Error,
                    >(Progress::NotYet)
                    &&& kind != FaultKind::Interrupted && kind != FaultKind::WouldBlock && kind
                        != FaultKind::TimedOut ==> r == Err::<Progress, Error>(
                        Error::Io(kind, said),
                    )
                },
                ReadOutcome::Data(data) => {
                    if data@.len() == 0 {
                        &&& final(self)@ == old(self)@
                        &&& r == Err::<Progress, Error>(
                            if old(self)@.len() < 4 {
                                Error::Closed
                            } else {
                                Error::ClosedMidFrame
                            },
                        )
                    } else {
                        &&& final(self)@ == step(old(self)@, data@).0
                        &&& match step(old(self)@, data@).1 {
                            Some(payload) => r matches Ok(Progress::Frame(p)) && p@ == payload,
                            None => if oversized(old(self)@ + data@) {
                                r == Err::<Progress, Error>(
                                    Error::FrameTooLarge {
                                        len: announced(old(self)@ + data@) as usize,
                                    },
                                )
                            } else {
                                r == Ok::<Progress, Error>(Progress::Again)
                            },
                        }
                    }
                },
            },
    {
        let in_payload = self.prefix.len() == PREFIX_LEN;
        if in_payload {
            let len: usize = self.announced_len();
            if len > MAX_FRAME_LEN {
                return Err(Error::FrameTooLarge { len });
            }
        }
        let data = match outcome {
            ReadOutcome::Fault(kind, said) => {
                if kind == FaultKind::Interrupted {
                    return Ok(Progress::Again);
                }
                if is_timeout(kind) {
                    return Ok(Progress::NotYet);
                }
                return Err(Error::Io(kind, said));
            },
            ReadOutcome::Data(data) => data,
        };
        if data.len() == 0 {
            return Err(
                if in_payload {
                    Error::ClosedMidFrame
                } else {
                    Error::Closed
                },
            );
        }
        let ghost now = self@ + data@;
        if in_payload {
            self.payload.extend_from_slice(data.as_slice());
            assert(now.take(4) =~= old(self)@.take(4));
        } else {
            self.prefix.extend_from_slice(data.as_slice());
        }
        assert(self@ =~= now);
        if self.prefix.len() < PREFIX_LEN {
            return Ok(Progress::Again);
        }
        let len: usize = self.announced_len();
        if len > MAX_FRAME_LEN {
            return Err(Error::FrameTooLarge { len });
        }
        if self.payload.len() < len {
            return Ok(Progress::Again);
        }
        let mut payload: Vec<u8> = Vec::new();
        std::mem::swap(&mut payload, &mut self.payload);
        self.prefix.clear();
        proof {
            assert(payload@ =~= now.skip(4));
            assert(self@ =~= Seq::<u8>::empty());
        }
        Ok(Progress::Frame(payload))
    }

    /// One round of waiting for a frame until `deadline`: the frame where there
    /// is one, and otherwise nothing yet, or [`Error::Timeout`] once the
    /// deadline has come.
    pub fn recv_until(frame: Option<Vec<u8>>, now: u64, deadline: u64) -> (r: Result<
        Option<Vec<u8>>,
        Error,
    >)
        ensures
            frame is Some ==> r == Ok::<Option<Vec<u8>>, Error>(frame),
            frame is None && now >= deadline ==> r == Err::<Option<Vec<u8>>, Error>(Error::Timeout),
            frame is None && now < deadline ==> r == Ok::<Option<Vec<u8>>, Error>(None),
    {
        if frame.is_none() && now >= deadline {
            return Err(Error::Timeout);
        }
        Ok(frame)
    }
}

impl Error {
    /// The connection has come to its end.
    pub open spec fn ends(self) -> bool {
        match self {
            Error::Closed => true,
            Error::ClosedMidFrame => true,
            Error::Io(kind, _) => kind == FaultKind::UnexpectedEof,
            _ => false,
        }
    }

    /// True where the peer has closed the connection, cleanly or not.
    pub fn is_end(&self) -> (yes: bool)
        ensures
            yes == self.ends(),
    {
        match self {
            Error::Closed => true,
            Error::ClosedMidFrame => true,
            Error::Io(kind, _) => *kind == FaultKind::UnexpectedEof,
            _ => false,
        }
    }

    /// What the error says, in words.
    pub open spec fn words(self) -> Seq<char> {
        match self {
            Error::Closed => "control channel I/O: peer closed the control connection"@,
            Error::ClosedMidFrame => "control channel I/O: peer closed mid-frame"@,
            Error::Io(_, said) => "control channel I/O: "@ + said@,
            Error::FrameTooLarge { len } => "frame is "@ + text::decimal(len as nat)
                + " bytes, over the 1048576-byte limit"@,
            Error::Encode(why) => "encoding control message: "@ + why@,
            Error::Decode(why) => "decoding control message: "@ + why@,
            Error::Timeout => "timed out waiting for a control message"@,
        }
    }

    /// The message shown for the error.
    pub fn message(&self) -> (out: String)
        ensures
            out@ == self.words(),
    {
        let mut out = String::new();
        match self {
            Error::Closed => {
                out.append("control channel I/O: peer closed the control connection");
            },
            Error::ClosedMidFrame => {
                out.append("control channel I/O: peer closed mid-frame");
            },
            Error::Io(_, said) => {
                out.append("control channel I/O: ");
                out.append(said.as_str());
            },
            Error::FrameTooLarge { len } => {
                out.append("frame is ");
                text::push_decimal(&mut out, *len as u64);
                out.append(" bytes, over the 1048576-byte limit");
            },
            Error::Encode(why) => {
                out.append("encoding control message: ");
                out.append(why.as_str());
            },
            Error::Decode(why) => {
                out.append("decoding control message: ");
                out.append(why.as_str());
            },
            Error::Timeout => {
                out.append("timed out waiting for a control message");
            },
        }
        assert(out@ =~= self.words());
        out
    }
}

/// What a run of reads leaves held and the payloads it completes. `None` is a
/// read that gave nothing, such as one that timed out.
pub open spec fn run(held: Seq<u8>, reads: Seq<Option<Seq<u8>>>) -> (Seq<u8>, Seq<Seq<u8>>)
    decreases reads.len(),
{
    if reads.len() == 0 {
        (held, seq![])
    } else {
        match reads[0] {
            None => run(held, reads.skip(1)),
            Some(data) => {
                let (after, payload) = step(held, data);
                let (rest, more) = run(after, reads.skip(1));
                match payload {
                    Some(p) => (rest, seq![p] + more),
                    None => (rest, more),
                }
            },
        }
    }
}

/// Every read stays within what the reader wants.
pub open spec fn within(held: Seq<u8>, reads: Seq<Option<Seq<u8>>>) -> bool
    decreases reads.len(),
{
    reads.len() == 0 || match reads[0] {
        None => within(held, reads.skip(1)),
        Some(data) => data.len() <= missing(held) && within(step(held, data).0, reads.skip(1)),
    }
}

/// The bytes that a run of reads gave, in order.
pub open spec fn arrived(reads: Seq<Option<Seq<u8>>>) -> Seq<u8>
    decreases reads.len(),
{
    if reads.len() == 0 {
        seq![]
    } else {
        match reads[0] {
            None => arrived(reads.skip(1)),
            Some(data) => data + arrived(reads.skip(1)),
        }
    }
}

/// A byte stream cut at its frame boundaries: what is left over at the end, and
/// the payloads.
pub open spec fn split(stream: Seq<u8>) -> (Seq<u8>, Seq<Seq<u8>>)
    decreases stream.len(),
{
    if !complete(stream) {
        (stream, seq![])
    } else {
        let end = 4 + announced(stream);
        let (rest, more) = split(stream.skip(end as int));
        (rest, seq![stream.subrange(4, end as int)] + more)
    }
}

/// Frames written one after the other.
pub open spec fn written(payloads: Seq<Seq<u8>>) -> Seq<u8>
    decreases payloads.len(),
{
    if payloads.len() == 0 {
        seq![]
    } else {
        frame(payloads[0]) + written(payloads.skip(1))
    }
}

/// How the stream is cut into reads, and where timeouts fall among them, makes
/// no difference: the reader completes the payloads of the byte stream itself.
pub proof fn reads_never_desynchronise(held: Seq<u8>, reads: Seq<Option<Seq<u8>>>)
    requires
        !complete(held),
        within(held, reads),
    ensures
        run(held, reads) == split(held + arrived(reads)),
    decreases reads.len(),
{
    if reads.len() == 0 {
        assert(held + arrived(reads) =~= held);
    } else {
        match reads[0] {
            None => {
                reads_never_desynchronise(held, reads.skip(1));
            },
            Some(data) => {
                let now = held + data;
                let later = arrived(reads.skip(1));
                let whole = held + arrived(reads);
                assert(whole =~= now + later);
                if complete(now) {
                    assert(now.len() == 4 + announced(now)) by {
                        if held.len() >= 4 {
                            assert(now.take(4) =~= held.take(4));
                        }
                    }
                    reads_never_desynchronise(seq![], reads.skip(1));
                    assert(whole.take(4) =~= now.take(4));
                    let end = 4 + announced(whole);
                    assert(whole.subrange(4, end as int) =~= now.skip(4));
                    assert(whole.skip(end as int) =~= later);
                    assert(Seq::<u8>::empty() + later =~= later);
                } else {
                    reads_never_desynchronise(now, reads.skip(1));
                }
            },
        }
    }
}

/// A written frame is read back from the front of any stream.
proof fn frame_comes_first(payload: Seq<u8>, rest: Seq<u8>)
    requires
        payload.len() <= MAX_FRAME_LEN,
    ensures
        ({
            let s = frame(payload) + rest;
            &&& complete(s)
            &&& announced(s) == payload.len()
            &&& s.subrange(4, 4 + payload.len() as int) == payload
            &&& s.skip(4 + payload.len() as int) == rest
        }),
{
    let s = frame(payload) + rest;
    bytes::span_values();
    bytes::be_bytes_len(payload.len(), 4);
    bytes::be_round_trip(payload.len(), 4);
    assert(s.take(4) =~= bytes::be_bytes(payload.len(), 4));
    assert(s.subrange(4, 4 + payload.len() as int) =~= payload);
    assert(s.skip(4 + payload.len() as int) =~= rest);
}

/// Frames written back to back come apart again, with nothing left over.
pub proof fn written_frames_come_apart(payloads: Seq<Seq<u8>>)
    requires
        forall|i: int| 0 <= i < payloads.len() ==> (#[trigger] payloads[i]).len() <= MAX_FRAME_LEN,
    ensures
        split(written(payloads)) == (Seq::<u8>::empty(), payloads),
    decreases payloads.len(),
{
    if payloads.len() == 0 {
        assert(split(written(payloads)).1 =~= payloads);
    } else {
        let rest = payloads.skip(1);
        assert forall|i: int| 0 <= i < rest.len() implies (#[trigger] rest[i]).len()
            <= MAX_FRAME_LEN by {
            assert(rest[i] == payloads[i + 1]);
        }
        written_frames_come_apart(rest);
        frame_comes_first(payloads[0], written(rest));
        assert(seq![payloads[0]] + rest =~= payloads);
    }
}

/// What is written is what is read: frames sent back to back, received in any
/// pieces with timeouts anywhere, complete to the same payloads in the same
/// order.
pub proof fn written_frames_are_read_back(payloads: Seq<Seq<u8>>, reads: Seq<Option<Seq<u8>>>)
    requires
        forall|i: int| 0 <= i < payloads.len() ==> (#[trigger] payloads[i]).len() <= MAX_FRAME_LEN,
        within(seq![], reads),
        arrived(reads) == written(payloads),
    ensures
        run(seq![], reads) == (Seq::<u8>::empty(), payloads),
{
    reads_never_desynchronise(seq![], reads);
    written_frames_come_apart(payloads);
    assert(Seq::<u8>::empty() + arrived(reads) =~= arrived(reads));
}

/// A frame is four bytes that tell the payload's length, big-endian, and the
/// payload.
pub proof fn a_frame_is_its_length_and_its_payload(payload: Seq<u8>)
    requires
        payload.len() < 0x1_0000_0000,
    ensures
        frame(payload).len() == 4 + payload.len(),
        bytes::be_value(frame(payload).take(4)) == payload.len(),
        frame(payload).skip(4) == payload,
{
    bytes::span_values();
    bytes::be_bytes_len(payload.len(), 4);
    bytes::be_round_trip(payload.len(), 4);
    assert(frame(payload).take(4) =~= bytes::be_bytes(payload.len(), 4));
    assert(frame(payload).skip(4) =~= payload);
}

/// A frame of up to a mebibyte is whole when its last byte is there, and not
/// before; until then the reader wants more, never past its end, and all of the rest
/// once the length is known.
pub proof fn the_reader_wants_the_rest_of_the_frame(payload: Seq<u8>, n: nat)
    requires
        payload.len() <= 1_048_576,
        n <= 4 + payload.len(),
    ensures
        ({
            let held = frame(payload).take(n as int);
            &&& complete(held) <==> n == 4 + payload.len()
            &&& !oversized(held)
            &&& missing(held) == 0 <==> n == 4 + payload.len()
            &&& n + missing(held) <= 4 + payload.len()
            &&& n >= 4 ==> n + missing(held) == 4 + payload.len()
            &&& n < 4 ==> n + missing(held) == 4
        }),
{
    a_frame_is_its_length_and_its_payload(payload);
    let held = frame(payload).take(n as int);
    if n >= 4 {
        assert(held.take(4) =~= frame(payload).take(4));
    }
}

/// A length of more than a mebibyte is refused as soon as it is known, and no other
/// is: no byte of such a payload is wanted.
pub proof fn only_a_frame_over_a_mebibyte_is_oversized(payload: Seq<u8>, n: nat)
    requires
        payload.len() < 0x1_0000_0000,
        n <= 4 + payload.len(),
    ensures
        oversized(frame(payload).take(n as int)) <==> n >= 4 && payload.len() > 1_048_576,
        n >= 4 && payload.len() > 1_048_576 ==> missing(frame(payload).take(n as int)) == 0
            && !complete(frame(payload).take(n as int)),
{
    a_frame_is_its_length_and_its_payload(payload);
    let held = frame(payload).take(n as int);
    if n >= 4 {
        assert(held.take(4) =~= frame(payload).take(4));
    }
}

/// A read adds to what is held, until the frame is whole; then the payload comes out
/// as it was sent, and nothing stays behind.
pub proof fn a_read_brings_the_frame_on(payload: Seq<u8>, n: nat, more: nat)
    requires
        payload.len() <= 1_048_576,
        n + more <= 4 + payload.len(),
    ensures
        ({
            let whole = frame(payload);
            let held = whole.take(n as int);
            let data = whole.subrange(n as int, (n + more) as int);
            &&& n + more < 4 + payload.len() ==> step(held, data) == (
                whole.take((n + more) as int),
                None::<Seq<u8>>,
            )
            &&& n + more == 4 + payload.len() ==> step(held, data) == (
                Seq::<u8>::empty(),
                Some(payload),
            )
        }),
{
    a_frame_is_its_length_and_its_payload(payload);
    let whole = frame(payload);
    let now = whole.take(n as int) + whole.subrange(n as int, (n + more) as int);
    assert(now =~= whole.take((n + more) as int));
    the_reader_wants_the_rest_of_the_frame(payload, n + more);
    if n + more == 4 + payload.len() {
        assert(now =~= whole);
    }
}

/// A connection has come to its end where the peer closed it, cleanly or in the
/// middle of a frame, and by no other error.
pub proof fn only_a_closed_connection_has_ended(error: Error)
    ensures
        error.ends() <==> {
            ||| error is Closed
            ||| error is ClosedMidFrame
            ||| error matches Error::Io(kind, _) && kind == FaultKind::UnexpectedEof
        },
{
}

/// Each error is told in its own words.
pub proof fn each_error_has_its_own_words(error: Error)
    ensures
        error is Closed ==> error.words()
            == "control channel I/O: peer closed the control connection"@,
        error is ClosedMidFrame ==> error.words() == "control channel I/O: peer closed mid-frame"@,
        error matches Error::Io(_, said) ==> error.words() == "control channel I/O: "@ + said@,
        error matches Error::FrameTooLarge { len } ==> error.words() == "frame is "@
            + text::decimal(len as nat) + " bytes, over the 1048576-byte limit"@,
        error matches Error::Encode(why) ==> error.words() == "encoding control message: "@ + why@,
        error matches Error::Decode(why) ==> error.words() == "decoding control message: "@ + why@,
        error is Timeout ==> error.words() == "timed out waiting for a control message"@,
{
}

} // verus!
