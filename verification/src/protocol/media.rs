//! The media datagram: a fixed 16-byte header followed by interleaved PCM.

use vstd::prelude::*;

use crate::bytes;
use crate::protocol::PROTOCOL_VERSION;
use crate::text;

verus! {

/// `"RP"`. Present so a stray datagram on the media port is rejected cheaply
/// rather than being interpreted as audio.
pub const MAGIC: u16 = 0x5250;

/// Length of the encoded header, in bytes.
pub const HEADER_LEN: usize = 16;

/// Interleaved PCM in the format negotiated during the control handshake.
pub const CHANNEL_AUDIO: u8 = 0;

/// Reserved for HID reports, so the channel byte is not quietly reused.
pub const CHANNEL_HID: u8 = 1;

/// Why a datagram is not a media datagram.
#[derive(Debug, Clone, Copy, PartialEq, Eq, Structural)]
pub enum Error {
    /// Shorter than the header; holds the datagram's length.
    TooShort(usize),
    /// Does not start with [`MAGIC`]; holds what it starts with.
    BadMagic(u16),
    /// Not the version this library speaks.
    UnsupportedVersion(u8),
}

/// The header of a media datagram.
///
/// ```text
/// offset  size  field
///      0     2  magic       = 0x5250
///      2     1  version
///      3     1  channel
///      4     4  seq
///      8     8  sample_idx
/// ```
///
/// Big-endian, and exactly [`HEADER_LEN`] bytes.
#[derive(Debug, Clone, Copy, PartialEq, Eq, Structural)]
pub struct MediaHeader {
    pub version: u8,
    pub channel: u8,
    /// Increments by one per datagram and wraps. Used only to count loss.
    pub seq: u32,
    /// Index of the first frame in this payload, counted from the start of the
    /// sender's capture stream: a frame counter, not a clock.
    pub sample_idx: u64,
}

impl MediaHeader {
    /// The header as it stands on the wire.
    pub open spec fn wire(self) -> Seq<u8> {
        bytes::be_bytes(MAGIC as nat, 2) + seq![self.version, self.channel] + bytes::be_bytes(
            self.seq as nat,
            4,
        ) + bytes::be_bytes(self.sample_idx as nat, 8)
    }

    /// What the first sixteen bytes of a datagram say.
    pub open spec fn parsed(s: Seq<u8>) -> MediaHeader {
        MediaHeader {
            version: s[2],
            channel: s[3],
            seq: bytes::be_value(s.subrange(4, 8)) as u32,
            sample_idx: bytes::be_value(s.subrange(8, 16)) as u64,
        }
    }

    /// The name of the channel, in words.
    pub open spec fn channel_word(self) -> Seq<char> {
        if self.channel == CHANNEL_AUDIO {
            "audio"@
        } else if self.channel == CHANNEL_HID {
            "hid"@
        } else {
            "unknown"@
        }
    }

    pub fn new(channel: u8, seq: u32, sample_idx: u64) -> (header: Self)
        ensures
            header == (MediaHeader { version: 1, channel, seq, sample_idx }),
    {
        Self { version: PROTOCOL_VERSION as u8, channel, seq, sample_idx }
    }

    /// The encoded header.
    pub fn encode(&self) -> (out: [u8; HEADER_LEN])
        ensures
            out@ == self.wire(),
    {
        let mut out: [u8; HEADER_LEN] = [0u8; HEADER_LEN];
        self.encode_into(&mut out);
        out
    }

    /// Writes the header into the first [`HEADER_LEN`] bytes of `out`.
    pub fn encode_into(&self, out: &mut [u8])
        requires
            old(out)@.len() >= HEADER_LEN,
        ensures
            final(out)@ == self.wire() + old(out)@.skip(HEADER_LEN as int),
    {
        let mut wire: Vec<u8> = Vec::with_capacity(HEADER_LEN);
        bytes::put_u16(&mut wire, MAGIC);
        wire.push(self.version);
        wire.push(self.channel);
        bytes::put_u32(&mut wire, self.seq);
        bytes::put_u64(&mut wire, self.sample_idx);
        proof {
            self.wire_len();
            assert(wire@ =~= self.wire());
        }
        let ghost before = out@;
        let mut i: usize = 0;
        while i < HEADER_LEN
            invariant
                i <= HEADER_LEN,
                wire@ == self.wire(),
                wire@.len() == HEADER_LEN,
                before.len() >= HEADER_LEN,
                out@.len() == before.len(),
                out@ == wire@.take(i as int) + before.skip(i as int),
            decreases HEADER_LEN - i,
        {
            out[i] = wire[i];
            i = i + 1;
        }
        assert(wire@.take(i as int) =~= wire@);
    }

    /// The encoded header is always sixteen bytes.
    pub proof fn wire_len(self)
        ensures
            self.wire().len() == HEADER_LEN,
    {
        bytes::be_bytes_len(MAGIC as nat, 2);
        bytes::be_bytes_len(self.seq as nat, 4);
        bytes::be_bytes_len(self.sample_idx as nat, 8);
    }

    /// What decoding a datagram gives: the header and the payload after it, or
    /// the first thing that is wrong with it.
    pub open spec fn decoded(s: Seq<u8>) -> Result<(MediaHeader, Seq<u8>), Error> {
        if s.len() < HEADER_LEN {
            Err(Error::TooShort(s.len() as usize))
        } else if bytes::be_value(s.take(2)) != MAGIC {
            Err(Error::BadMagic(bytes::be_value(s.take(2)) as u16))
        } else if s[2] != PROTOCOL_VERSION {
            Err(Error::UnsupportedVersion(s[2]))
        } else {
            Ok((Self::parsed(s), s.skip(HEADER_LEN as int)))
        }
    }

    /// Parses a header and returns it alongside the remaining payload bytes.
    pub fn decode(bytes: &[u8]) -> (r: Result<(Self, &[u8]), Error>)
        ensures
            match Self::decoded(bytes@) {
                Ok((header, payload)) => r matches Ok((h, p)) && h == header && p@ == payload,
                Err(e) => r matches Err(x) && x == e,
            },
    {
        if bytes.len() < HEADER_LEN {
            return Err(Error::TooShort(bytes.len()));
        }
        let magic: u16 = bytes::get_u16(bytes, 0);
        assert(bytes@.subrange(0, 2) =~= bytes@.take(2));
        if magic != MAGIC {
            return Err(Error::BadMagic(magic));
        }
        let version: u8 = bytes[2];
        if version as u32 != PROTOCOL_VERSION {
            return Err(Error::UnsupportedVersion(version));
        }
        let header = Self {
            version,
            channel: bytes[3],
            seq: bytes::get_u32(bytes, 4),
            sample_idx: bytes::get_u64(bytes, 8),
        };
        let payload = &bytes[HEADER_LEN..bytes.len()];
        assert(payload@ =~= bytes@.skip(HEADER_LEN as int));
        Ok((header, payload))
    }

    /// The header in words, for the logs.
    pub fn describe(&self) -> (out: String)
        ensures
            out@ == self.channel_word() + " seq="@ + text::decimal(self.seq as nat) + " idx="@
                + text::decimal(self.sample_idx as nat),
    {
        let mut out = String::new();
        if self.channel == CHANNEL_AUDIO {
            out.append("audio");
        } else if self.channel == CHANNEL_HID {
            out.append("hid");
        } else {
            out.append("unknown");
        }
        out.append(" seq=");
        text::push_decimal(&mut out, self.seq as u64);
        out.append(" idx=");
        text::push_decimal(&mut out, self.sample_idx);
        proof {
            assert(out@ =~= self.channel_word() + " seq="@ + text::decimal(self.seq as nat)
                + " idx="@ + text::decimal(self.sample_idx as nat));
        }
        out
    }

    /// The fields read back from a header's own bytes, whatever follows them.
    proof fn wire_parses(self, payload: Seq<u8>)
        ensures
            ({
                let s = self.wire() + payload;
                &&& s.len() == HEADER_LEN + payload.len()
                &&& bytes::be_value(s.take(2)) == MAGIC
                &&& Self::parsed(s) == self
                &&& s.skip(HEADER_LEN as int) == payload
            }),
    {
        self.wire_len();
        bytes::be_bytes_len(MAGIC as nat, 2);
        bytes::be_bytes_len(self.seq as nat, 4);
        bytes::be_bytes_len(self.sample_idx as nat, 8);
        bytes::span_values();
        bytes::be_round_trip(MAGIC as nat, 2);
        bytes::be_round_trip(self.seq as nat, 4);
        bytes::be_round_trip(self.sample_idx as nat, 8);
        let s = self.wire() + payload;
        assert(s.take(2) =~= bytes::be_bytes(MAGIC as nat, 2));
        assert(s.subrange(4, 8) =~= bytes::be_bytes(self.seq as nat, 4));
        assert(s.subrange(8, 16) =~= bytes::be_bytes(self.sample_idx as nat, 8));
        assert(s.skip(HEADER_LEN as int) =~= payload);
    }

    /// A datagram made of an encoded header of this version and any payload
    /// decodes to that header and that payload.
    pub proof fn encoding_round_trips(self, payload: Seq<u8>)
        requires
            self.version == PROTOCOL_VERSION,
        ensures
            Self::decoded(self.wire() + payload) == Ok::<(MediaHeader, Seq<u8>), Error>(
                (self, payload),
            ),
    {
        self.wire_parses(payload);
    }

    /// A datagram that decodes is the encoding of what it decodes to: no two
    /// datagrams mean the same header and payload.
    pub proof fn decoding_round_trips(s: Seq<u8>)
        ensures
            Self::decoded(s) matches Ok((header, payload)) ==> header.wire() + payload == s,
    {
        if let Ok((header, payload)) = Self::decoded(s) {
            bytes::span_values();
            bytes::be_bytes_of_value(s.take(2));
            bytes::be_bytes_of_value(s.subrange(4, 8));
            bytes::be_bytes_of_value(s.subrange(8, 16));
            bytes::be_value_fits(s.subrange(4, 8));
            bytes::be_value_fits(s.subrange(8, 16));
            assert(header.wire() + payload =~= s);
        }
    }

    /// The header stands on the wire as agreed: the magic, the version, the channel,
    /// the number and the index, big-endian, at their own places.
    pub proof fn the_header_stands_on_the_wire_as_agreed(self, payload: Seq<u8>)
        ensures
            ({
                let s = self.wire() + payload;
                &&& s.len() == 16 + payload.len()
                &&& s[0] == 0x52 && s[1] == 0x50
                &&& s[2] == self.version && s[3] == self.channel
                &&& bytes::be_value(s.subrange(4, 8)) == self.seq
                &&& bytes::be_value(s.subrange(8, 16)) == self.sample_idx
                &&& s.skip(16) == payload
            }),
    {
        self.wire_len();
        bytes::be_bytes_len(MAGIC as nat, 2);
        bytes::be_bytes_len(self.seq as nat, 4);
        bytes::be_bytes_len(self.sample_idx as nat, 8);
        bytes::span_values();
        bytes::be_round_trip(MAGIC as nat, 2);
        bytes::be_round_trip(self.seq as nat, 4);
        bytes::be_round_trip(self.sample_idx as nat, 8);
        let s = self.wire() + payload;
        let head = s.take(2);
        assert(head =~= bytes::be_bytes(MAGIC as nat, 2));
        bytes::value_of_two(head);
        assert(head[0] == s[0] && head[1] == s[1]);
        assert(s.subrange(4, 8) =~= bytes::be_bytes(self.seq as nat, 4));
        assert(s.subrange(8, 16) =~= bytes::be_bytes(self.sample_idx as nat, 8));
        assert(s.skip(16) =~= payload);
    }

    /// A datagram is refused for the first thing that is wrong with it, and for
    /// nothing else: sixteen bytes or more that start with the magic and this version
    /// are a header, whatever follows.
    pub proof fn only_what_is_no_media_datagram_is_refused(s: Seq<u8>)
        ensures
            s.len() < 16 ==> Self::decoded(s) == Err::<(MediaHeader, Seq<u8>), Error>(
                Error::TooShort(s.len() as usize),
            ),
            s.len() >= 16 && !(s[0] == 0x52 && s[1] == 0x50) ==> Self::decoded(s) == Err::<
                (MediaHeader, Seq<u8>),
                Error,
            >(Error::BadMagic((256 * s[0] + s[1]) as u16)),
            s.len() >= 16 && s[0] == 0x52 && s[1] == 0x50 && s[2] != 1 ==> Self::decoded(s)
                == Err::<(MediaHeader, Seq<u8>), Error>(Error::UnsupportedVersion(s[2])),
            s.len() >= 16 && s[0] == 0x52 && s[1] == 0x50 && s[2] == 1 ==> ({
                &&& Self::decoded(s) matches Ok((header, payload))
                &&& header.version == 1
                &&& header.channel == s[3]
                &&& header.seq == bytes::be_value(s.subrange(4, 8))
                &&& header.sample_idx == bytes::be_value(s.subrange(8, 16))
                &&& payload == s.skip(16)
            }),
    {
        if s.len() >= 16 {
            bytes::span_values();
            bytes::be_value_fits(s.subrange(4, 8));
            bytes::be_value_fits(s.subrange(8, 16));
            let head = s.take(2);
            bytes::value_of_two(head);
            assert(head[0] == s[0] && head[1] == s[1]);
        }
    }
}

/// Each channel has its own word, and each error its own, with what was found.
pub proof fn each_channel_and_error_has_its_own_words(header: MediaHeader, error: Error)
    ensures
        header.channel == 0 ==> header.channel_word() == "audio"@,
        header.channel == 1 ==> header.channel_word() == "hid"@,
        header.channel > 1 ==> header.channel_word() == "unknown"@,
        error matches Error::TooShort(len) ==> error.words() == "datagram is "@ + text::decimal(
            len as nat,
        ) + " bytes, shorter than the 16-byte header"@,
        error matches Error::BadMagic(magic) ==> error.words() == "bad magic 0x"@
            + text::hex_digits(magic as nat, 4) + ", expected 0x5250"@,
        error matches Error::UnsupportedVersion(version) ==> error.words()
            == "unsupported protocol version "@ + text::decimal(version as nat),
{
}


impl Error {
    /// What the error says, in words.
    pub open spec fn words(self) -> Seq<char> {
        match self {
            Error::TooShort(len) => "datagram is "@ + text::decimal(len as nat)
                + " bytes, shorter than the 16-byte header"@,
            Error::BadMagic(magic) => "bad magic 0x"@ + text::hex_digits(magic as nat, 4)
                + ", expected 0x5250"@,
            Error::UnsupportedVersion(version) => "unsupported protocol version "@ + text::decimal(
                version as nat,
            ),
        }
    }

    /// The message shown for the error.
    pub fn message(&self) -> (out: String)
        ensures
            out@ == self.words(),
    {
        let mut out = String::new();
        match self {
            Error::TooShort(len) => {
                out.append("datagram is ");
                text::push_decimal(&mut out, *len as u64);
                out.append(" bytes, shorter than the 16-byte header");
            },
            Error::BadMagic(magic) => {
                out.append("bad magic 0x");
                text::push_hex(&mut out, *magic as u64, 4);
                out.append(", expected 0x5250");
            },
            Error::UnsupportedVersion(version) => {
                out.append("unsupported protocol version ");
                text::push_decimal(&mut out, *version as u64);
            },
        }
        assert(out@ =~= self.words());
        out
    }
}

/// Frames that fit in one datagram, given a payload budget and channel count:
/// none where a frame would have no bytes.
pub fn max_frames_per_packet(payload_budget: usize, channels: u16, bytes_per_sample: usize) -> (n:
    usize)
    requires
        channels * bytes_per_sample <= usize::MAX,
    ensures
        channels * bytes_per_sample == 0 ==> n == 0,
        channels * bytes_per_sample != 0 ==> n == payload_budget as int / (channels
            * bytes_per_sample),
{
    let per_frame: usize = channels as usize * bytes_per_sample;
    match payload_budget.checked_div(per_frame) {
        Some(n) => n,
        None => 0,
    }
}

} // verus!
