//! Datagrams, control frames and the messages in them.

use micbridge::protocol::api::{StreamFormat, WireSampleFormat};
use micbridge::protocol::discovery::{self, Message};
use micbridge::protocol::framing::{
    self, is_timeout, write_frame, FaultKind, FrameReader, Progress, ReadOutcome, MAX_FRAME_LEN,
};
use micbridge::protocol::media::{
    self, max_frames_per_packet, MediaHeader, CHANNEL_AUDIO, CHANNEL_HID, HEADER_LEN,
};

#[test]
fn round_trip() {
    let header = MediaHeader::new(CHANNEL_AUDIO, 0xDEAD_BEEF, 0x0123_4567_89AB_CDEF);
    let bytes = header.encode();
    let (decoded, payload) = MediaHeader::decode(&bytes).expect("decodes");
    assert_eq!(header, decoded);
    assert!(payload.is_empty());
}

#[test]
fn payload_is_returned_after_the_header() {
    let mut buf = vec![0u8; HEADER_LEN + 4];
    MediaHeader::new(CHANNEL_AUDIO, 1, 2).encode_into(&mut buf);
    buf[HEADER_LEN..].copy_from_slice(&[1, 2, 3, 4]);
    let (_, payload) = MediaHeader::decode(&buf).expect("decodes");
    assert_eq!(payload, &[1, 2, 3, 4]);
}

#[test]
fn header_is_exactly_sixteen_bytes() {
    assert_eq!(MediaHeader::new(CHANNEL_AUDIO, 0, 0).encode().len(), 16);
}

#[test]
fn rejects_short_bad_magic_and_bad_version() {
    assert_eq!(MediaHeader::decode(&[0u8; 4]), Err(media::Error::TooShort(4)));

    let mut buf = MediaHeader::new(CHANNEL_AUDIO, 1, 1).encode();
    buf[0] = 0xFF;
    assert!(matches!(MediaHeader::decode(&buf), Err(media::Error::BadMagic(_))));

    let mut buf = MediaHeader::new(CHANNEL_AUDIO, 1, 1).encode();
    buf[2] = 99;
    assert_eq!(MediaHeader::decode(&buf), Err(media::Error::UnsupportedVersion(99)));
}

#[test]
fn wire_layout_is_pinned() {
    let bytes = MediaHeader::new(CHANNEL_AUDIO, 0x0000_0102, 0x0000_0000_0000_03E8).encode();
    assert_eq!(bytes, [0x52, 0x50, 1, 0, 0, 0, 1, 2, 0, 0, 0, 0, 0, 0, 0x03, 0xE8]);
}

#[test]
fn packet_sizing_matches_the_documented_default() {
    // 5 ms at 48 kHz stereo i16 = 240 frames = 960 payload bytes.
    assert_eq!(max_frames_per_packet(1200, 2, 2), 300);
    assert_eq!(240 * 2 * 2 + HEADER_LEN, 976);
}

#[test]
fn media_errors_say_what_is_wrong() {
    assert_eq!(
        media::Error::TooShort(4).message(),
        "datagram is 4 bytes, shorter than the 16-byte header"
    );
    assert_eq!(
        media::Error::BadMagic(0x00FF).message(),
        "bad magic 0x00ff, expected 0x5250"
    );
    assert_eq!(
        media::Error::UnsupportedVersion(99).message(),
        "unsupported protocol version 99"
    );
    let mut buf = MediaHeader::new(CHANNEL_AUDIO, 1, 1).encode();
    buf[0] = 0xFF;
    let error = MediaHeader::decode(&buf).expect_err("rejected");
    assert_eq!(error, media::Error::BadMagic(0xFF50));
}

#[test]
fn probe_round_trips() {
    let bytes = Message::Probe.encode().expect("encodes");
    assert_eq!(Message::decode(&bytes).expect("decodes"), Message::Probe);
}

#[test]
fn announce_round_trips() {
    let msg = Message::Announce { control_port: 42_100, label: "windows-box".into() };
    let bytes = msg.encode().expect("encodes");
    assert_eq!(Message::decode(&bytes).expect("decodes"), msg);
}

#[test]
fn an_empty_label_is_legal() {
    let msg = Message::Announce { control_port: 1, label: String::new() };
    let bytes = msg.encode().expect("encodes");
    assert_eq!(Message::decode(&bytes).expect("decodes"), msg);
}

#[test]
fn a_probe_is_tiny() {
    assert_eq!(Message::Probe.encode().expect("encodes").len(), 4);
}

#[test]
fn rejects_rubbish_rather_than_guessing() {
    assert_eq!(Message::decode(&[]), Err(discovery::Error::TooShort(0)));
    assert_eq!(Message::decode(&[0xFF, 0xFF, 1, 0]), Err(discovery::Error::BadMagic(0xFFFF)));

    let mut bad = Message::Probe.encode().expect("encodes");
    bad[2] = 99;
    assert_eq!(Message::decode(&bad), Err(discovery::Error::UnsupportedVersion(99)));

    let mut bad = Message::Probe.encode().expect("encodes");
    bad[3] = 42;
    assert_eq!(Message::decode(&bad), Err(discovery::Error::UnknownKind(42)));
}

#[test]
fn a_truncated_announce_is_rejected_not_partly_believed() {
    let full = Message::Announce { control_port: 42_100, label: "abc".into() }
        .encode()
        .expect("encodes");
    for len in 4..full.len() {
        assert!(
            Message::decode(&full[..len]).is_err(),
            "{len} bytes should be rejected, not parsed"
        );
    }
}

#[test]
fn a_cut_message_is_too_short_by_its_own_length() {
    let announce = Message::Announce { control_port: 42_100, label: "ab\u{e9}".into() };
    for message in [Message::Probe, announce] {
        let full = message.encode().expect("encodes");
        for len in 0..full.len() {
            assert_eq!(Message::decode(&full[..len]), Err(discovery::Error::TooShort(len)));
        }
    }
}

#[test]
fn an_oversized_label_is_refused_on_both_sides() {
    let long = "x".repeat(discovery::MAX_LABEL_LEN + 1);
    assert!(matches!(
        Message::Announce { control_port: 1, label: long }.encode(),
        Err(discovery::Error::LabelTooLong(_))
    ));

    let mut forged = Vec::new();
    forged.extend_from_slice(&discovery::MAGIC.to_be_bytes());
    forged.push(discovery::DISCOVERY_VERSION);
    forged.push(discovery::KIND_ANNOUNCE);
    forged.extend_from_slice(&1u16.to_be_bytes());
    forged.push(255);
    assert!(matches!(Message::decode(&forged), Err(discovery::Error::LabelTooLong(255))));
}

#[test]
fn a_label_that_is_not_text_is_refused() {
    let mut forged = Message::Announce { control_port: 1, label: "ab".into() }
        .encode()
        .expect("encodes");
    let last = forged.len() - 1;
    forged[last] = 0xFF;
    assert_eq!(Message::decode(&forged), Err(discovery::Error::LabelNotUtf8));

    let accented = Message::Announce { control_port: 1, label: "büro".into() };
    let bytes = accented.encode().expect("encodes");
    assert_eq!(Message::decode(&bytes), Ok(accented));
}

#[test]
fn a_media_datagram_is_not_mistaken_for_discovery() {
    assert_ne!(discovery::MAGIC, media::MAGIC, "discovery must not share the media magic");

    for channel in [CHANNEL_AUDIO, CHANNEL_HID] {
        let media = MediaHeader::new(channel, 7, 1_000).encode();
        assert!(
            Message::decode(&media).is_err(),
            "must not parse a media header on channel {channel}"
        );
    }
}

#[test]
fn a_discovery_datagram_is_not_mistaken_for_media() {
    let probe = Message::Probe.encode().expect("encodes");
    assert!(MediaHeader::decode(&probe).is_err(), "must not parse as media");
}

#[test]
fn length_prefix_is_four_bytes_big_endian() {
    let mut stream = Vec::new();
    write_frame(&mut stream, &[0xAA, 0xBB, 0xCC]).expect("writes");
    assert_eq!(&stream, &[0, 0, 0, 3, 0xAA, 0xBB, 0xCC]);
}

/// What a connection hands out.
struct Link {
    data: Vec<u8>,
    pos: usize,
    /// The most a single read gives.
    chunk: usize,
    /// Every second read times out, so every boundary in a frame gets exercised.
    timeouts: bool,
    timeout_next: bool,
}

impl Link {
    fn plain(data: Vec<u8>) -> Self {
        Self { data, pos: 0, chunk: usize::MAX, timeouts: false, timeout_next: false }
    }

    fn read(&mut self, wanted: usize) -> ReadOutcome {
        if self.timeouts {
            if self.timeout_next {
                self.timeout_next = false;
                return ReadOutcome::Fault(FaultKind::WouldBlock, "simulated timeout".into());
            }
            self.timeout_next = true;
            if self.pos >= self.data.len() {
                return ReadOutcome::Fault(FaultKind::WouldBlock, "nothing left".into());
            }
        }
        let n = self.chunk.min(wanted).min(self.data.len() - self.pos);
        let read = self.data[self.pos..self.pos + n].to_vec();
        self.pos += n;
        ReadOutcome::Data(read)
    }
}

/// Reads until a frame is whole, nothing more comes, or the link fails.
fn poll(reader: &mut FrameReader, link: &mut Link) -> Result<Option<Vec<u8>>, framing::Error> {
    loop {
        let wanted = reader.wanted();
        match reader.poll(link.read(wanted))? {
            Progress::Frame(frame) => return Ok(Some(frame)),
            Progress::NotYet => return Ok(None),
            Progress::Again => {}
        }
    }
}

#[test]
fn frame_round_trips_through_a_byte_stream() {
    let mut stream = Vec::new();
    write_frame(&mut stream, b"hello").expect("sends");

    let mut link = Link::plain(stream);
    let mut reader = FrameReader::new();
    let read = poll(&mut reader, &mut link).expect("reads").expect("a whole frame");
    assert_eq!(read, b"hello");
}

#[test]
fn a_header_is_shown_in_words() {
    assert_eq!(MediaHeader::new(CHANNEL_AUDIO, 7, 1_000).describe(), "audio seq=7 idx=1000");
    assert_eq!(MediaHeader::new(CHANNEL_HID, 0, 0).describe(), "hid seq=0 idx=0");
    assert_eq!(MediaHeader::new(9, 0, 0).describe(), "unknown seq=0 idx=0");
}

#[test]
fn back_to_back_frames_are_read_independently() {
    let mut stream = Vec::new();
    write_frame(&mut stream, b"Heartbeat").expect("sends");
    write_frame(&mut stream, b"Goodbye").expect("sends");

    let mut link = Link::plain(stream);
    let mut reader = FrameReader::new();
    assert_eq!(poll(&mut reader, &mut link).expect("first").expect("frame"), b"Heartbeat");
    assert_eq!(poll(&mut reader, &mut link).expect("second").expect("frame"), b"Goodbye");
}

#[test]
fn a_timeout_mid_frame_does_not_desynchronise_the_stream() {
    let mut stream = Vec::new();
    write_frame(&mut stream, b"a hello with a device name in it").expect("sends");
    write_frame(&mut stream, b"Goodbye").expect("sends");

    let mut link =
        Link { data: stream, pos: 0, chunk: 1, timeouts: true, timeout_next: true };
    let mut reader = FrameReader::new();

    let mut received: Vec<Vec<u8>> = Vec::new();
    for _ in 0..10_000 {
        match poll(&mut reader, &mut link) {
            Ok(Some(msg)) => received.push(msg),
            Ok(None) => {}
            Err(err) => panic!("stream desynchronised: {}", err.message()),
        }
        if received.len() == 2 {
            break;
        }
    }

    assert_eq!(
        received,
        vec![b"a hello with a device name in it".to_vec(), b"Goodbye".to_vec()]
    );
}

#[test]
fn partial_progress_is_visible_and_then_cleared() {
    let mut stream = Vec::new();
    write_frame(&mut stream, b"hello").expect("sends");

    // Two bytes: not even the whole length prefix.
    let mut link =
        Link { data: stream, pos: 0, chunk: 2, timeouts: true, timeout_next: false };
    let mut reader = FrameReader::new();
    assert!(poll(&mut reader, &mut link).expect("no error").is_none());
    assert!(reader.is_mid_frame(), "should be holding a partial prefix");

    for _ in 0..10_000 {
        if poll(&mut reader, &mut link).expect("no error").is_some() {
            break;
        }
    }
    assert!(!reader.is_mid_frame(), "state should reset once a frame completes");
}

#[test]
fn oversized_length_prefix_is_rejected_before_allocating() {
    let mut link = Link::plain((MAX_FRAME_LEN as u32 + 1).to_be_bytes().to_vec());
    let mut reader = FrameReader::new();
    assert!(matches!(
        poll(&mut reader, &mut link),
        Err(framing::Error::FrameTooLarge { len: 0x10_0001 })
    ));
    let mut stream = Vec::new();
    assert!(matches!(
        write_frame(&mut stream, &vec![0u8; MAX_FRAME_LEN + 1]),
        Err(framing::Error::FrameTooLarge { len: 0x10_0001 })
    ));
}

#[test]
fn clean_close_between_frames_surfaces_as_eof() {
    let mut link = Link::plain(Vec::new());
    let mut reader = FrameReader::new();
    match poll(&mut reader, &mut link) {
        Err(err) => assert!(err.is_end(), "expected EOF, got {err:?}"),
        other => panic!("expected EOF, got {other:?}"),
    }
}

#[test]
fn a_close_mid_frame_is_eof_not_a_silent_short_frame() {
    // Prefix says four bytes, only two arrive, then the peer closes.
    let mut link = Link::plain(vec![0, 0, 0, 4, 0xAA, 0xBB]);
    let mut reader = FrameReader::new();
    match poll(&mut reader, &mut link) {
        Err(err) => {
            assert!(err.is_end(), "expected EOF, got {err:?}");
            assert_eq!(err, framing::Error::ClosedMidFrame);
        }
        other => panic!("expected EOF, got {other:?}"),
    }
}

#[test]
fn empty_frame_is_legal() {
    let mut stream = Vec::new();
    write_frame(&mut stream, &[]).expect("writes");
    let mut link = Link::plain(stream);
    let mut reader = FrameReader::new();
    assert_eq!(poll(&mut reader, &mut link).expect("reads"), Some(vec![]));
}

#[test]
fn recv_until_gives_up_at_its_deadline_rather_than_hanging() {
    let mut reader = FrameReader::new();
    let progress = reader
        .poll(ReadOutcome::Fault(FaultKind::TimedOut, "silence".into()))
        .expect("a timeout is no failure");
    assert_eq!(progress, Progress::NotYet);
    assert_eq!(FrameReader::recv_until(None, 49, 50), Ok(None));
    let result = FrameReader::recv_until(None, 50, 50);
    assert!(matches!(result, Err(framing::Error::Timeout)), "should time out, got {result:?}");
    assert_eq!(FrameReader::recv_until(Some(vec![7]), 60, 50), Ok(Some(vec![7])));
}

#[test]
fn windows_timeout_kind_is_treated_as_a_timeout_too() {
    assert!(is_timeout(FaultKind::TimedOut));
    assert!(is_timeout(FaultKind::WouldBlock));
    assert!(!is_timeout(FaultKind::ConnectionReset));
}

#[test]
fn a_broken_link_is_reported_as_it_broke() {
    let mut reader = FrameReader::new();
    let error = reader
        .poll(ReadOutcome::Fault(FaultKind::ConnectionReset, "reset by peer".into()))
        .expect_err("fails");
    assert_eq!(error, framing::Error::Io(FaultKind::ConnectionReset, "reset by peer".into()));
    assert_eq!(
        reader.poll(ReadOutcome::Fault(FaultKind::Interrupted, String::new())),
        Ok(Progress::Again)
    );
}

#[test]
fn default_packet_is_five_milliseconds_and_960_bytes() {
    let f = StreamFormat {
        sample_rate: 48_000,
        channels: 2,
        sample_format: WireSampleFormat::S16Le,
        frames_per_packet: 240,
    };
    assert_eq!(f64::from(f.frames_per_packet) * 1_000.0 / f64::from(f.sample_rate), 5.0);
    assert_eq!(f.payload_bytes_per_packet(), 960);
    assert_eq!(f.bytes_per_frame(), 4);
}
