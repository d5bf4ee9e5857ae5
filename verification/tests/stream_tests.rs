use cmdradio::stream::{parse_icy_metadata, parse_icy_metadata_text, radio_stream_for, IcyMetadata, IcyStream, PrefixedReader, HttpStream, RadioStream};
use std::io::{Cursor, Read};

fn icy_payload(audio_a: &[u8], metadata: &[u8], audio_b: &[u8]) -> Vec<u8> {
    let block_len = metadata.len().div_ceil(16) as u8;
    let mut payload = Vec::new();
    payload.extend_from_slice(audio_a);
    payload.push(block_len);
    payload.extend_from_slice(metadata);
    payload.resize(payload.len() + (block_len as usize * 16 - metadata.len()), 0);
    payload.extend_from_slice(audio_b);
    payload
}

#[test]
fn prefixed_reader_replays_prefix_before_inner_data() {
    let mut reader = PrefixedReader::new(b"abc".to_vec());
    let mut inner = Cursor::new(b"def".to_vec());
    let mut out = [0_u8; 5];

    let first = reader.read(&mut out);
    assert_eq!(first, 3);
    assert_eq!(&out[..first], b"abc");

    let second = match reader.read(&mut out) {
        0 => inner.read(&mut out).unwrap(),
        n => n,
    };
    assert_eq!(second, 3);
    assert_eq!(&out[..second], b"def");
}

#[test]
fn parse_icy_metadata_handles_valid_titles_and_ignores_empty_titles() {
    let valid = b"StreamTitle='Artist - Song';StreamUrl='https://example.com';";
    assert_eq!(
        parse_icy_metadata(valid),
        Some(IcyMetadata {
            artist: Some(String::from("Artist")),
            title: Some(String::from("Song")),
        })
    );

    let empty = b"StreamTitle='';StreamUrl='https://example.com';";
    assert!(parse_icy_metadata(empty).is_none());
}

#[test]
fn icy_stream_strips_metadata_from_audio_bytes() {
    let title = "Artist - Song";
    let metadata = format!("StreamTitle='{}';", title);
    let payload = icy_payload(b"AAAA", metadata.as_bytes(), b"BBBB");

    let mut stream = IcyStream::new(4, None);
    let audio = stream.feed(&payload, 0);
    let mut buffer = [0_u8; 8];
    let n = audio.len().min(buffer.len());
    buffer[..n].copy_from_slice(&audio[..n]);

    assert_eq!(&buffer[..n], b"AAAABBBB");
    assert_eq!(
        stream.metadata(),
        Some(IcyMetadata {
            artist: Some(String::from("Artist")),
            title: Some(String::from("Song")),
        })
    );
}

#[test]
fn icy_stream_handles_fragmented_audio_and_metadata_reads() {
    let metadata = b"StreamTitle='Artist - Fragmented';";
    let payload = icy_payload(b"ABCD", metadata, b"EFGH");

    let mut stream = IcyStream::new(4, None);
    let mut audio = Vec::new();
    for chunk in payload.chunks(2) {
        audio.extend(stream.feed(chunk, 0));
    }
    let mut buffer = [0_u8; 8];
    let n = audio.len().min(buffer.len());
    buffer[..n].copy_from_slice(&audio[..n]);

    assert_eq!(&buffer[..n], b"ABCDEFGH");
    assert_eq!(
        stream.metadata(),
        Some(IcyMetadata {
            artist: Some(String::from("Artist")),
            title: Some(String::from("Fragmented")),
        })
    );
}

#[test]
fn from_stream_title_without_separator_has_no_artist() {
    let m = IcyMetadata::from_stream_title("Only Title");
    assert_eq!(m.artist, None);
    assert_eq!(m.title.as_deref(), Some("Only Title"));
    let m = IcyMetadata::from_stream_title("A - B - C");
    assert_eq!(m.artist.as_deref(), Some("A"));
    assert_eq!(m.title.as_deref(), Some("B - C"));
}

#[test]
fn parse_icy_metadata_uses_single_quote_end_and_trims() {
    let block = b"StreamTitle='  Solo  '\0\0\0";
    let parsed = parse_icy_metadata(block).unwrap();
    assert_eq!(parsed.artist, None);
    assert_eq!(parsed.title.as_deref(), Some("Solo"));
    assert!(parse_icy_metadata(b"StreamTitle='unterminated\0\0").is_none());
    assert!(parse_icy_metadata(b"NoTitle='x';").is_none());
}

#[test]
fn icy_stream_every_chunking_gives_same_audio() {
    let payload = icy_payload(b"1234", b"StreamTitle='X - Y';", b"5678");
    let mut whole = IcyStream::new(4, None);
    let expected = whole.feed(&payload, 0);
    for size in 1..payload.len() {
        let mut s = IcyStream::new(4, None);
        let mut got = Vec::new();
        for chunk in payload.chunks(size) {
            got.extend(s.feed(chunk, 0));
        }
        assert_eq!(got, expected);
        assert_eq!(s.metadata(), whole.metadata());
    }
    assert_eq!(expected, b"12345678".to_vec());
}

#[test]
fn icy_stream_empty_block_keeps_previous_metadata() {
    let mut s = IcyStream::new(2, None);
    let mut raw = Vec::new();
    raw.extend_from_slice(b"ab");
    raw.push(0);
    raw.extend_from_slice(b"cd");
    assert_eq!(s.feed(&raw, 0), b"abcd".to_vec());
    assert_eq!(s.metadata(), None);
}

#[test]
fn progress_is_marked_only_when_audio_arrives() {
    let mut s = IcyStream::new(2, Some(10));
    assert_eq!(s.feed(&[], 20), Vec::<u8>::new());
    assert_eq!(s.last_progress_epoch_secs(), Some(10));
    assert_eq!(s.feed(b"xy", 30), b"xy".to_vec());
    assert_eq!(s.last_progress_epoch_secs(), Some(30));
    let mut h = HttpStream::new(None);
    assert_eq!(h.feed(b"zz", 40), b"zz".to_vec());
    assert_eq!(h.last_progress_epoch_secs(), None);
    let mut r = RadioStream::Http(HttpStream::new(Some(1)));
    assert_eq!(r.feed(b"q", 5), b"q".to_vec());
}

#[test]
fn clock_reads_seconds_since_the_epoch() {
    // 2020-09-13, well before any run of these tests
    assert!(cmdradio::stream::current_epoch_secs() > 1_600_000_000);
}

#[test]
fn invalid_utf8_in_metadata_is_replaced() {
    let block = b"StreamTitle='Caf\xe9 - Song';";
    let parsed = parse_icy_metadata(block).unwrap();
    assert_eq!(parsed.artist.as_deref(), Some("Caf\u{fffd}"));
    assert_eq!(parsed.title.as_deref(), Some("Song"));
}

#[test]
fn icy_stream_demultiplexes_several_blocks() {
    // a1 [2] m1 a2 [0] a3 [2] m3 a4: audio joined, metadata of the last non-empty block
    let m1 = b"StreamTitle='X - One';";
    let m3 = b"StreamTitle='Y - Three';";
    let mut wire = Vec::new();
    wire.extend_from_slice(b"aaa");
    wire.push(2);
    let mut b1 = m1.to_vec();
    b1.resize(32, 0);
    wire.extend_from_slice(&b1);
    wire.extend_from_slice(b"bbb");
    wire.push(0);
    wire.extend_from_slice(b"ccc");
    wire.push(2);
    let mut b3 = m3.to_vec();
    b3.resize(32, 0);
    wire.extend_from_slice(&b3);
    wire.extend_from_slice(b"dd");
    let mut s = IcyStream::new(3, None);
    let audio = s.feed(&wire, 0);
    assert_eq!(audio, b"aaabbbcccdd".to_vec());
    assert_eq!(
        s.metadata(),
        Some(IcyMetadata { artist: Some(String::from("Y")), title: Some(String::from("Three")) })
    );
}

#[test]
fn metadata_text_is_read_after_decoding() {
    assert_eq!(
        parse_icy_metadata_text("StreamTitle='A - B';\0\0"),
        Some(IcyMetadata { artist: Some(String::from("A")), title: Some(String::from("B")) })
    );
    assert_eq!(parse_icy_metadata_text("StreamUrl='x';"), None);
    assert_eq!(parse_icy_metadata_text("StreamTitle='   ';"), None);
}

#[test]
fn stream_kind_follows_the_metaint_header() {
    assert!(matches!(radio_stream_for(Some(" 16000 "), 5), RadioStream::Icy(_)));
    assert!(matches!(radio_stream_for(Some("+8"), 5), RadioStream::Icy(_)));
    assert!(matches!(radio_stream_for(Some("0"), 5), RadioStream::Http(_)));
    assert!(matches!(radio_stream_for(Some("abc"), 5), RadioStream::Http(_)));
    assert!(matches!(radio_stream_for(Some("-3"), 5), RadioStream::Http(_)));
    assert!(matches!(radio_stream_for(None, 5), RadioStream::Http(_)));
    // the interval is the header's: two audio bytes, then a length byte
    let mut s = radio_stream_for(Some("2"), 5);
    assert_eq!(s.feed(&[1, 2, 0, 3, 4], 6), vec![1, 2, 3, 4]);
}

#[test]
fn prefixed_reader_hands_out_the_prefix_in_order() {
    let mut reader = PrefixedReader::new(b"abcdefg".to_vec());
    let mut got = Vec::new();
    let mut buf = [0_u8; 3];
    loop {
        let n = reader.read(&mut buf);
        if n == 0 {
            break;
        }
        got.extend_from_slice(&buf[..n]);
    }
    assert_eq!(got, b"abcdefg".to_vec());
    assert_eq!(reader.read(&mut buf), 0);
}
