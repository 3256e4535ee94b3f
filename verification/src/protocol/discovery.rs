//! The discovery datagram, so a sender can find a receiver without being told
//! an address.

use vstd::prelude::*;
use vstd::utf8;

use crate::bytes;
use crate::protocol::media::MediaHeader;
use crate::text;

verus! {

/// `"RD"`. Not the media channel's `"RP"`: with a shared magic an audio
/// datagram would parse as a probe.
pub const MAGIC: u16 = 0x5244;

/// Discovery port, adjacent to the control and media ports.
pub const DEFAULT_DISCOVERY_PORT: u16 = 42102;

/// Version of the discovery exchange, bumped independently of the session
/// protocol.
pub const DISCOVERY_VERSION: u8 = 1;

pub const KIND_PROBE: u8 = 0;

pub const KIND_ANNOUNCE: u8 = 1;

/// Longest label a receiver may report, in bytes, so a probe reply cannot be
/// inflated.
pub const MAX_LABEL_LEN: usize = 64;

/// Why a datagram is not a discovery datagram, or a message cannot become one.
#[derive(Debug, Clone, Copy, PartialEq, Eq, Structural)]
pub enum Error {
    TooShort(usize),
    BadMagic(u16),
    UnsupportedVersion(u8),
    UnknownKind(u8),
    LabelTooLong(usize),
    LabelNotUtf8,
}

/// A discovery datagram.
#[derive(Debug, Clone, PartialEq, Eq)]
pub enum Message {
    /// "Is anyone listening?" Sent by a would-be sender to a broadcast address.
    Probe,
    /// "Yes, here, on this control port." Sent by a receiver, back to the prober.
    Announce {
        /// The control port to connect to, not the port this reply came from.
        control_port: u16,
        /// Something to tell two receivers apart. May be empty.
        label: String,
    },
}

/// What a [`Message`] says.
pub enum MessageView {
    Probe,
    Announce { control_port: u16, label: Seq<char> },
}

impl View for Message {
    type V = MessageView;

    open spec fn view(&self) -> MessageView {
        match self {
            Message::Probe => MessageView::Probe,
            Message::Announce { control_port, label } => MessageView::Announce {
                control_port: *control_port,
                label: label@,
            },
        }
    }
}

/// The four bytes that open every discovery datagram.
pub open spec fn opening(kind: u8) -> Seq<u8> {
    bytes::be_bytes(MAGIC as nat, 2) + seq![DISCOVERY_VERSION, kind]
}

/// The bytes of a message, or why it has none.
pub open spec fn encoded(m: MessageView) -> Result<Seq<u8>, Error> {
    match m {
        MessageView::Probe => Ok(opening(KIND_PROBE)),
        MessageView::Announce { control_port, label } => {
            let name = utf8::encode_utf8(label);
            if name.len() > MAX_LABEL_LEN {
                Err(Error::LabelTooLong(name.len() as usize))
            } else {
                Ok(
                    opening(KIND_ANNOUNCE) + bytes::be_bytes(control_port as nat, 2)
                        + seq![name.len() as u8] + name,
                )
            }
        },
    }
}

/// What a datagram says, or the first thing that is wrong with it. Bytes after
/// the message are ignored.
pub open spec fn decoded(s: Seq<u8>) -> Result<MessageView, Error> {
    if s.len() < 4 {
        Err(Error::TooShort(s.len() as usize))
    } else if bytes::be_value(s.take(2)) != MAGIC {
        Err(Error::BadMagic(bytes::be_value(s.take(2)) as u16))
    } else if s[2] != DISCOVERY_VERSION {
        Err(Error::UnsupportedVersion(s[2]))
    } else if s[3] == KIND_PROBE {
        Ok(MessageView::Probe)
    } else if s[3] != KIND_ANNOUNCE {
        Err(Error::UnknownKind(s[3]))
    } else if s.len() < 7 {
        Err(Error::TooShort(s.len() as usize))
    } else if s[6] > MAX_LABEL_LEN {
        Err(Error::LabelTooLong(s[6] as usize))
    } else if s.len() < 7 + s[6] {
        Err(Error::TooShort(s.len() as usize))
    } else if !utf8::valid_utf8(s.subrange(7, 7 + s[6])) {
        Err(Error::LabelNotUtf8)
    } else {
        Ok(
            MessageView::Announce {
                control_port: bytes::be_value(s.subrange(4, 6)) as u16,
                label: utf8::decode_utf8(s.subrange(7, 7 + s[6])),
            },
        )
    }
}

impl Message {
    /// The message as a datagram.
    pub fn encode(&self) -> (r: Result<Vec<u8>, Error>)
        ensures
            match encoded(self@) {
                Ok(wire) => r matches Ok(out) && out@ == wire,
                Err(e) => r matches Err(x) && x == e,
            },
    {
        let mut out: Vec<u8> = Vec::with_capacity(8 + MAX_LABEL_LEN);
        bytes::put_u16(&mut out, MAGIC);
        out.push(DISCOVERY_VERSION);
        match self {
            Message::Probe => {
                out.push(KIND_PROBE);
                assert(out@ =~= opening(KIND_PROBE));
            },
            Message::Announce { control_port, label } => {
                let name = label.as_str().as_bytes();
                if name.len() > MAX_LABEL_LEN {
                    return Err(Error::LabelTooLong(name.len()));
                }
                out.push(KIND_ANNOUNCE);
                bytes::put_u16(&mut out, *control_port);
                out.push(name.len() as u8);
                out.extend_from_slice(name);
                assert(out@ =~= opening(KIND_ANNOUNCE) + bytes::be_bytes(*control_port as nat, 2)
                    + seq![name@.len() as u8] + name@);
            },
        }
        Ok(out)
    }

    /// Parses a datagram.
    pub fn decode(bytes: &[u8]) -> (r: Result<Self, Error>)
        ensures
            match decoded(bytes@) {
                Ok(m) => r matches Ok(x) && x@ == m,
                Err(e) => r matches Err(x) && x == e,
            },
    {
        if bytes.len() < 4 {
            return Err(Error::TooShort(bytes.len()));
        }
        let magic: u16 = bytes::get_u16(bytes, 0);
        assert(bytes@.subrange(0, 2) =~= bytes@.take(2));
        if magic != MAGIC {
            return Err(Error::BadMagic(magic));
        }
        if bytes[2] != DISCOVERY_VERSION {
            return Err(Error::UnsupportedVersion(bytes[2]));
        }
        if bytes[3] == KIND_PROBE {
            return Ok(Message::Probe);
        }
        if bytes[3] != KIND_ANNOUNCE {
            return Err(Error::UnknownKind(bytes[3]));
        }
        // magic(2) version(1) kind(1) port(2) label_len(1) = 7
        if bytes.len() < 7 {
            return Err(Error::TooShort(bytes.len()));
        }
        let control_port: u16 = bytes::get_u16(bytes, 4);
        let label_len: usize = bytes[6] as usize;
        if label_len > MAX_LABEL_LEN {
            return Err(Error::LabelTooLong(label_len));
        }
        if bytes.len() < 7 + label_len {
            return Err(Error::TooShort(bytes.len()));
        }
        match text::utf8_text(&bytes[7..7 + label_len]) {
            None => Err(Error::LabelNotUtf8),
            Some(label) => {
                proof {
                    utf8::encode_utf8_decode_utf8(label@);
                }
                Ok(Message::Announce { control_port, label })
            },
        }
    }
}

impl Error {
    /// What the error says, in words.
    pub open spec fn words(self) -> Seq<char> {
        match self {
            Error::TooShort(len) => "datagram too short: "@ + text::decimal(len as nat)
                + " bytes"@,
            Error::BadMagic(magic) => "bad magic 0x"@ + text::hex_digits(magic as nat, 4),
            Error::UnsupportedVersion(v) => "unsupported discovery version "@ + text::decimal(
                v as nat,
            ),
            Error::UnknownKind(kind) => "unknown discovery kind "@ + text::decimal(kind as nat),
            Error::LabelTooLong(len) => "label is "@ + text::decimal(len as nat)
                + " bytes, over the 64-byte limit"@,
            Error::LabelNotUtf8 => "label is not valid UTF-8"@,
        }
    }

    /// The message shown for the error.
    pub fn message(&self) -> (out: String)
        ensures
            out@ == self.words(),
    {
        let mut out = String::new();
        match self {
            Error::TooShort(len) => {
                out.append("datagram too short: ");
                text::push_decimal(&mut out, *len as u64);
                out.append(" bytes");
            },
            Error::BadMagic(magic) => {
                out.append("bad magic 0x");
                text::push_hex(&mut out, *magic as u64, 4);
            },
            Error::UnsupportedVersion(version) => {
                out.append("unsupported discovery version ");
                text::push_decimal(&mut out, *version as u64);
            },
            Error::UnknownKind(kind) => {
                out.append("unknown discovery kind ");
                text::push_decimal(&mut out, *kind as u64);
            },
            Error::LabelTooLong(len) => {
                out.append("label is ");
                text::push_decimal(&mut out, *len as u64);
                out.append(" bytes, over the 64-byte limit");
            },
            Error::LabelNotUtf8 => {
                out.append("label is not valid UTF-8");
            },
        }
        assert(out@ =~= self.words());
        out
    }
}

/// A message that can be encoded is read back from its datagram, whatever
/// bytes come after it.
pub proof fn encoding_round_trips(m: MessageView, after: Seq<u8>)
    requires
        encoded(m) is Ok,
    ensures
        decoded(encoded(m)->Ok_0 + after) == Ok::<MessageView, Error>(m),
{
    let s = encoded(m)->Ok_0 + after;
    bytes::span_values();
    bytes::be_bytes_len(MAGIC as nat, 2);
    bytes::be_round_trip(MAGIC as nat, 2);
    assert(s.take(2) =~= bytes::be_bytes(MAGIC as nat, 2));
    if let MessageView::Announce { control_port, label } = m {
        let name = utf8::encode_utf8(label);
        bytes::be_bytes_len(control_port as nat, 2);
        bytes::be_round_trip(control_port as nat, 2);
        assert(s.subrange(4, 6) =~= bytes::be_bytes(control_port as nat, 2));
        assert(s[6] == name.len());
        assert(s.subrange(7, 7 + s[6]) =~= name);
        utf8::encode_utf8_valid_utf8(label);
        utf8::encode_utf8_decode_utf8(label);
    }
}

/// A datagram cut short anywhere is rejected as too short, never partly believed.
pub proof fn truncation_is_rejected(m: MessageView, len: nat)
    requires
        encoded(m) is Ok,
        len < encoded(m)->Ok_0.len(),
    ensures
        decoded(encoded(m)->Ok_0.take(len as int)) == Err::<MessageView, Error>(
            Error::TooShort(len as usize),
        ),
        (len as usize) == len,
{
    let whole = encoded(m)->Ok_0;
    let s = whole.take(len as int);
    bytes::span_values();
    bytes::be_bytes_len(MAGIC as nat, 2);
    bytes::be_round_trip(MAGIC as nat, 2);
    if len >= 4 {
        assert(s.take(2) =~= bytes::be_bytes(MAGIC as nat, 2));
    }
    if let MessageView::Announce { control_port, label } = m {
        bytes::be_bytes_len(control_port as nat, 2);
        if len >= 7 {
            assert(s[6] == whole[6]);
            assert(s[3] == KIND_ANNOUNCE);
        } else if len >= 4 {
            assert(s[3] == KIND_ANNOUNCE);
        }
    }
}

/// A datagram is at most 71 bytes, and a probe is four.
pub proof fn encoding_is_small(m: MessageView)
    requires
        encoded(m) is Ok,
    ensures
        encoded(m)->Ok_0.len() <= 7 + MAX_LABEL_LEN,
        m is Probe ==> encoded(m)->Ok_0.len() == 4,
{
    bytes::be_bytes_len(MAGIC as nat, 2);
    if let MessageView::Announce { control_port, label } = m {
        bytes::be_bytes_len(control_port as nat, 2);
    }
}

/// No datagram is both a media datagram and a discovery datagram.
pub proof fn never_mistaken_for_media(s: Seq<u8>)
    ensures
        MediaHeader::decoded(s) is Ok ==> decoded(s) is Err,
        decoded(s) is Ok ==> MediaHeader::decoded(s) is Err,
{
}

/// A message stands on the wire as agreed: the magic, the version and the kind, and
/// for an announcement the port, big-endian, the length of the label and the label.
/// Every label of up to 64 bytes can be announced, and no longer one.
pub proof fn a_message_stands_on_the_wire_as_agreed(m: MessageView)
    ensures
        m is Probe ==> (encoded(m) matches Ok(s) && s == seq![0x52u8, 0x44u8, 1u8, 0u8]),
        m matches MessageView::Announce { control_port, label } ==> {
            let name = utf8::encode_utf8(label);
            if name.len() <= 64 {
                &&& encoded(m) matches Ok(s)
                &&& s.len() == 7 + name.len()
                &&& s.take(4) == seq![0x52u8, 0x44u8, 1u8, 1u8]
                &&& 256 * s[4] + s[5] == control_port
                &&& s[6] == name.len()
                &&& s.skip(7) == name
            } else {
                encoded(m) == Err::<Seq<u8>, Error>(Error::LabelTooLong(name.len() as usize))
            }
        },
{
    bytes::span_values();
    bytes::be_bytes_len(MAGIC as nat, 2);
    bytes::be_round_trip(MAGIC as nat, 2);
    let magic = bytes::be_bytes(MAGIC as nat, 2);
    bytes::value_of_two(magic);
    assert(magic[0] == 0x52 && magic[1] == 0x44);
    match m {
        MessageView::Probe => {
            assert(opening(KIND_PROBE) =~= seq![0x52u8, 0x44u8, 1u8, 0u8]);
        },
        MessageView::Announce { control_port, label } => {
            let name = utf8::encode_utf8(label);
            let port = bytes::be_bytes(control_port as nat, 2);
            bytes::be_bytes_len(control_port as nat, 2);
            bytes::be_round_trip(control_port as nat, 2);
            bytes::value_of_two(port);
            if name.len() <= 64 {
                let s = encoded(m)->Ok_0;
                assert(s.take(4) =~= seq![0x52u8, 0x44u8, 1u8, 1u8]);
                assert(s[4] == port[0] && s[5] == port[1]);
                assert(s.skip(7) =~= name);
            }
        },
    }
}

/// A datagram is refused for the first thing that is wrong with it, and for nothing
/// else. Four bytes that spell a probe are one, whatever follows; an announcement is
/// one where its label is all there, no longer than 64 bytes, and text.
pub proof fn only_what_is_no_discovery_datagram_is_refused(s: Seq<u8>)
    ensures
        s.len() < 4 ==> decoded(s) == Err::<MessageView, Error>(Error::TooShort(s.len() as usize)),
        s.len() >= 4 ==> {
            let magic = s[0] == 0x52 && s[1] == 0x44;
            &&& !magic ==> decoded(s) == Err::<MessageView, Error>(
                Error::BadMagic((256 * s[0] + s[1]) as u16),
            )
            &&& magic && s[2] != 1 ==> decoded(s) == Err::<MessageView, Error>(
                Error::UnsupportedVersion(s[2]),
            )
            &&& magic && s[2] == 1 && s[3] == 0 ==> decoded(s) == Ok::<MessageView, Error>(
                MessageView::Probe,
            )
            &&& magic && s[2] == 1 && s[3] > 1 ==> decoded(s) == Err::<MessageView, Error>(
                Error::UnknownKind(s[3]),
            )
            &&& magic && s[2] == 1 && s[3] == 1 && (s.len() < 7 || s[6] <= 64 && s.len() < 7
                + s[6]) ==> decoded(s) == Err::<MessageView, Error>(
                Error::TooShort(s.len() as usize),
            )
            &&& magic && s[2] == 1 && s[3] == 1 && s.len() >= 7 && s[6] > 64 ==> decoded(s)
                == Err::<MessageView, Error>(Error::LabelTooLong(s[6] as usize))
            &&& magic && s[2] == 1 && s[3] == 1 && s.len() >= 7 + s[6] && s[6] <= 64
                ==> if utf8::valid_utf8(s.subrange(7, 7 + s[6])) {
                &&& decoded(s) matches Ok(MessageView::Announce { control_port, label })
                &&& control_port == 256 * s[4] + s[5]
                &&& label == utf8::decode_utf8(s.subrange(7, 7 + s[6]))
            } else {
                decoded(s) == Err::<MessageView, Error>(Error::LabelNotUtf8)
            }
        },
{
    if s.len() >= 4 {
        let head = s.take(2);
        bytes::value_of_two(head);
        assert(head[0] == s[0] && head[1] == s[1]);
        if s.len() >= 7 {
            let port = s.subrange(4, 6);
            bytes::value_of_two(port);
            assert(port[0] == s[4] && port[1] == s[5]);
        }
    }
}

/// Each error is told in its own words, with what was found.
pub proof fn each_error_has_its_own_words(error: Error)
    ensures
        error matches Error::TooShort(len) ==> error.words() == "datagram too short: "@
            + text::decimal(len as nat) + " bytes"@,
        error matches Error::BadMagic(magic) ==> error.words() == "bad magic 0x"@
            + text::hex_digits(magic as nat, 4),
        error matches Error::UnsupportedVersion(v) ==> error.words()
            == "unsupported discovery version "@ + text::decimal(v as nat),
        error matches Error::UnknownKind(kind) ==> error.words() == "unknown discovery kind "@
            + text::decimal(kind as nat),
        error matches Error::LabelTooLong(len) ==> error.words() == "label is "@ + text::decimal(
            len as nat,
        ) + " bytes, over the 64-byte limit"@,
        error is LabelNotUtf8 ==> error.words() == "label is not valid UTF-8"@,
{
}

/// A message says what it holds.
pub proof fn a_message_says_what_it_holds(m: Message)
    ensures
        m is Probe <==> m@ is Probe,
        m matches Message::Announce { control_port, label } ==> m@ == (MessageView::Announce {
            control_port,
            label: label@,
        }),
{
}

} // verus!
