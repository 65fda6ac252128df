//! The link protocol of the fetch bridge: encodings, handshake, transfers and streams.
use astro_plugins::bridge::codec::{
    base64_encode, compress, crc32, encode, encode_or_base64, hex_encode, hex_number,
    supported_compressions, supported_encodings, BodyEncoding, Compression,
};
use astro_plugins::bridge::handshake::{
    ensure_open, handle_packet, is_open, negotiate, negotiated_caps, negotiated_chunk_size,
    parse_caps, record_activity, HandshakeState, PeerCaps, DEFAULT_CHUNK_SIZE, MAX_CHUNK_SIZE,
    MIN_CHUNK_SIZE,
};
use astro_plugins::bridge::stream;
use astro_plugins::bridge::stream::{take_fixed_frame, ReadOutcome, StreamConfig};
use astro_plugins::bridge::transfer;
use astro_plugins::json::Json;

const SECOND: u64 = 1_000_000_000;

#[test]
fn crc32_matches_ieee_vector() {
    assert_eq!(crc32(b"123456789"), 0xcbf4_3926);
    assert_eq!(crc32(b""), 0);
}

#[test]
fn stream_encodings_are_stable() {
    assert_eq!(
        encode(&[0, 1, 0xfe, 0xff], BodyEncoding::Hex),
        Ok("0001feff".into())
    );
    assert_eq!(
        encode(b"hello", BodyEncoding::Base64),
        Ok("aGVsbG8=".into())
    );
}

#[test]
fn base64_pads_every_remainder() {
    assert_eq!(base64_encode(b""), "");
    assert_eq!(base64_encode(b"f"), "Zg==");
    assert_eq!(base64_encode(b"fo"), "Zm8=");
    assert_eq!(base64_encode(b"foo"), "Zm9v");
    assert_eq!(base64_encode(&[0xfb, 0xff, 0xbf]), "+/+/");
}

#[test]
fn text_encoding_needs_utf8() {
    assert_eq!(encode("héllo".as_bytes(), BodyEncoding::Text), Ok("héllo".into()));
    assert_eq!(encode(&[0xff, 0xfe], BodyEncoding::Text), Err(()));
    assert_eq!(encode_or_base64(&[0xff, 0xfe], BodyEncoding::Text), "//4=");
    assert_eq!(encode_or_base64(b"ok", BodyEncoding::Text), "ok");
}

#[test]
fn names_round_trip() {
    for encoding in supported_encodings() {
        assert_eq!(BodyEncoding::parse(encoding.as_str()), Some(encoding));
    }
    for compression in supported_compressions() {
        assert_eq!(Compression::parse(compression.as_str()), Some(compression));
    }
    assert_eq!(BodyEncoding::parse("rot13"), None);
    assert_eq!(Compression::parse("brotli"), None);
}

#[test]
fn hex_is_padded_and_lower_case() {
    assert_eq!(hex_encode(&[0x0a, 0xB0]), "0ab0");
    assert_eq!(hex_number(0xbeef, 8), "0000beef");
    assert_eq!(hex_number(0, 1), "0");
    assert_eq!(stream::hex8(0x0cbf_4392), "0cbf4392");
}

#[test]
fn compressed_bodies_unpack_to_themselves() {
    let body: Vec<u8> = b"the same words again and again, ".repeat(64);
    let deflated = compress(&body, Compression::Deflate);
    assert!(deflated.len() < body.len());
    let mut inflated = Vec::new();
    std::io::Read::read_to_end(
        &mut flate2::read::DeflateDecoder::new(deflated.as_slice()),
        &mut inflated,
    )
    .unwrap();
    assert_eq!(inflated, body);
    let packed = compress(&body, Compression::Lz4);
    assert!(packed.len() < body.len());
    assert_eq!(lz4_flex::decompress(&packed, body.len()).unwrap(), body);
    assert_eq!(compress(&body, Compression::Plain), body);
}

fn caps(version: u32, stream: bool, ack: bool) -> PeerCaps {
    PeerCaps {
        protocol_version: version,
        chunked: true,
        max_chunk_size: 2048,
        encodings: vec![BodyEncoding::Base64],
        compressions: vec![Compression::Plain],
        stream,
        ack,
        ack_window: 4,
    }
}

#[test]
fn v4_stream_requires_explicit_v4_and_ack() {
    assert!(!negotiate(caps(3, true, true)).stream);
    assert!(!negotiate(caps(4, true, false)).stream);
    assert!(negotiate(caps(4, true, true)).stream);
}

#[test]
fn peer_can_configure_chunk_size_above_historical_default() {
    let mut peer = caps(4, true, true);
    peer.max_chunk_size = 8 * 1024;
    assert_eq!(negotiate(peer).chunk_size, 8 * 1024);
}

#[test]
fn missing_chunk_size_keeps_historical_default() {
    let mut peer = caps(4, true, true);
    peer.max_chunk_size = 0;
    assert_eq!(negotiate(peer).chunk_size, DEFAULT_CHUNK_SIZE);
}

#[test]
fn configured_chunk_size_is_safely_clamped() {
    let mut too_small = caps(4, true, true);
    too_small.max_chunk_size = 1;
    assert_eq!(negotiate(too_small).chunk_size, MIN_CHUNK_SIZE);

    let mut too_large = caps(4, true, true);
    too_large.max_chunk_size = MAX_CHUNK_SIZE + 1;
    assert_eq!(negotiate(too_large).chunk_size, MAX_CHUNK_SIZE);
}

#[test]
fn legacy_versions_cannot_enable_newer_flow_control() {
    let v2 = negotiate(caps(2, true, true));
    assert_eq!(v2.protocol_version, 2);
    assert_eq!(v2.ack_window, 0);
    assert!(!v2.stream);

    let v3 = negotiate(caps(3, true, true));
    assert_eq!(v3.protocol_version, 3);
    assert_eq!(v3.ack_window, 4);
    assert!(!v3.stream);
}

#[test]
fn fixed_frames_wait_for_full_chunk_and_leave_tail_for_eof() {
    let mut buffer = vec![1; 1000];
    assert!(take_fixed_frame(&mut buffer, 4096, false).is_none());

    buffer.extend(std::iter::repeat(2).take(3500));
    let frame = take_fixed_frame(&mut buffer, 4096, false).unwrap();
    assert_eq!(frame.len(), 4096);
    assert_eq!(buffer.len(), 404);

    let tail = take_fixed_frame(&mut buffer, 4096, true).unwrap();
    assert_eq!(tail.len(), 404);
    assert!(buffer.is_empty());
    assert!(take_fixed_frame(&mut buffer, 4096, true).is_none());
}

#[test]
fn a_hello_and_its_answer_open_both_sides() {
    let mut here = HandshakeState::new();
    let mut there = HandshakeState::new();
    let hello = ensure_open(&mut here, "aa", "pkg", 0).unwrap();
    assert!(is_open(&here, "aa", "pkg", 0));
    assert!(negotiated_caps(&here, "aa", "pkg", 0).is_none());
    let answer = handle_packet(&mut there, "aa", "pkg", &hello, 0).unwrap();
    let last = handle_packet(&mut here, "aa", "pkg", &answer, SECOND);
    if let Some(last) = last {
        assert!(handle_packet(&mut there, "aa", "pkg", &last, SECOND).is_none());
    }
    assert!(is_open(&here, "aa", "pkg", SECOND));
    assert!(is_open(&there, "aa", "pkg", SECOND));
    assert!(ensure_open(&mut here, "aa", "pkg", SECOND).is_none());
    let caps = negotiated_caps(&here, "aa", "pkg", SECOND).unwrap();
    assert_eq!(negotiated_chunk_size(&here, "aa", "pkg", SECOND), Some(caps.chunk_size));
}

#[test]
fn an_idle_session_has_to_be_opened_again() {
    let mut here = HandshakeState::new();
    let mut there = HandshakeState::new();
    let hello = ensure_open(&mut here, "aa", "pkg", 0).unwrap();
    let answer = handle_packet(&mut there, "aa", "pkg", &hello, 0).unwrap();
    handle_packet(&mut here, "aa", "pkg", &answer, 0);
    record_activity(&mut here, "aa", "pkg", 10 * SECOND);
    assert!(is_open(&here, "aa", "pkg", 11 * SECOND));
    assert!(!is_open(&here, "aa", "pkg", 10_000 * SECOND));
    assert!(ensure_open(&mut here, "aa", "pkg", 10_000 * SECOND).is_some());
}

#[test]
fn capabilities_are_read_from_a_packet() {
    let packet = Json::parse(
        r#"{"version":4,"chunk":true,"maxChunkSize":512,"encodings":["hex","nope"],"compressions":["lz4"],"stream":true,"ack":true,"ackWindow":2}"#,
    )
    .unwrap();
    let caps = parse_caps(Some(&packet)).unwrap();
    assert_eq!(caps.protocol_version, 4);
    assert!(caps.chunked && caps.stream && caps.ack);
    assert_eq!(caps.max_chunk_size, 512);
    assert_eq!(caps.encodings, vec![BodyEncoding::Hex]);
    assert_eq!(caps.compressions, vec![Compression::Lz4]);
    assert_eq!(caps.ack_window, 2);
    assert!(parse_caps(None).is_none());
}

fn data_of(frame: &Json) -> String {
    frame.str_at("data").unwrap().to_string()
}

#[test]
fn chunks_restore_the_payload() {
    let payload: Vec<u8> = (0..=255).collect();
    let frames =
        transfer::all_chunks(Some("id"), payload.clone(), 100, BodyEncoding::Hex, 0);
    assert_eq!(frames.len(), 3);
    assert_eq!(transfer::count_chunks(256, 100), 3);
    let joined: String = frames.iter().map(data_of).collect();
    assert_eq!(joined, hex_encode(&payload));
}

#[test]
fn a_transfer_sends_a_window_and_replays_it_once_on_a_stall() {
    let mut registry = transfer::Registry::new();
    let first = transfer::begin(
        &mut registry, "aa", "pkg", Some("id"), vec![7; 10], 2, BodyEncoding::Hex, 2, 0,
    );
    assert_eq!(first.len(), 2);
    let stall = transfer::on_ack(&mut registry, "aa", "pkg", Some("id"), 0, SECOND);
    assert_eq!(stall.len(), 2);
    assert_eq!(data_of(&stall[0]), data_of(&first[0]));
    assert!(transfer::on_ack(&mut registry, "aa", "pkg", Some("id"), 0, SECOND).is_empty());
    let next = transfer::on_ack(&mut registry, "aa", "pkg", Some("id"), 2, SECOND);
    assert_eq!(next.len(), 2);
    let last = transfer::on_ack(&mut registry, "aa", "pkg", Some("id"), 4, SECOND);
    assert_eq!(last.len(), 1);
    assert!(transfer::on_ack(&mut registry, "aa", "pkg", Some("id"), 5, SECOND).is_empty());
    assert_eq!(registry.transfers.len(), 0);
}

#[test]
fn an_idle_transfer_is_dropped() {
    let mut registry = transfer::Registry::new();
    transfer::begin(
        &mut registry, "aa", "pkg", Some("id"), vec![7; 10], 2, BodyEncoding::Hex, 2, 0,
    );
    transfer::prune_idle(&mut registry, SECOND);
    assert_eq!(registry.transfers.len(), 1);
    transfer::prune_idle(&mut registry, 10_000 * SECOND);
    assert_eq!(registry.transfers.len(), 0);
}

#[test]
fn a_stream_sends_its_source_in_order_and_ends() {
    let mut registry = stream::Registry::new();
    let config = StreamConfig {
        chunk_size: 4,
        encoding: BodyEncoding::Hex,
        window: 2,
        fixed_chunks: true,
    };
    let mut pending = stream::begin(&mut registry, "aa", "pkg", "id", config, 0).unwrap();
    let mut sends = Vec::new();
    assert!(stream::fill(&mut pending, &mut sends).is_some());
    stream::feed(&mut pending, &mut sends, ReadOutcome::Data(vec![1, 2, 3]));
    assert!(stream::fill(&mut pending, &mut sends).is_some());
    stream::feed(&mut pending, &mut sends, ReadOutcome::Data(vec![4, 5]));
    assert!(stream::fill(&mut pending, &mut sends).is_some());
    stream::feed(&mut pending, &mut sends, ReadOutcome::End);
    assert!(stream::fill(&mut pending, &mut sends).is_none());
    let joined: Vec<u8> = sends.iter().flat_map(|f| f.bytes.clone()).collect();
    assert_eq!(joined, vec![1, 2, 3, 4, 5]);
    assert_eq!(sends[0].bytes, vec![1, 2, 3, 4]);
    let messages = stream::flush("id", BodyEncoding::Hex, &sends);
    assert_eq!(messages.len(), sends.len());
    assert!(!stream::keep(&mut registry, "aa", "pkg", "id", pending));
    assert!(stream::cancel(&mut registry, "aa", "pkg", "id"));
    assert!(!stream::cancel(&mut registry, "aa", "pkg", "id"));
}

#[test]
fn streams_are_limited_but_one_may_start_again() {
    let mut registry = stream::Registry::new();
    let config = || StreamConfig {
        chunk_size: 4,
        encoding: BodyEncoding::Hex,
        window: 2,
        fixed_chunks: false,
    };
    for id in ["1", "2", "3", "4", "5", "6", "7", "8"] {
        let pending = stream::begin(&mut registry, "aa", "pkg", id, config(), 0).unwrap();
        assert!(!stream::keep(&mut registry, "aa", "pkg", id, pending));
    }
    let refused = stream::begin(&mut registry, "aa", "pkg", "9", config(), 0);
    assert_eq!(refused.err().unwrap(), "too many concurrent v4 streams (limit 8)");
    assert!(stream::begin(&mut registry, "aa", "pkg", "8", config(), 0).is_ok());
    stream::prune_idle(&mut registry, 10_000 * SECOND);
    assert!(stream::begin(&mut registry, "aa", "pkg", "9", config(), 10_000 * SECOND).is_ok());
}

#[test]
fn a_stream_is_replayed_once_and_done_with_its_last_acknowledgement() {
    let mut registry = stream::Registry::new();
    let config = StreamConfig {
        chunk_size: 2,
        encoding: BodyEncoding::Hex,
        window: 2,
        fixed_chunks: false,
    };
    let mut pending = stream::begin(&mut registry, "aa", "pkg", "id", config, 0).unwrap();
    let mut sends = Vec::new();
    while stream::fill(&mut pending, &mut sends).is_some() {
        let read = if sends.is_empty() { ReadOutcome::Data(vec![9, 8]) } else { ReadOutcome::End };
        stream::feed(&mut pending, &mut sends, read);
    }
    let count = sends.len();
    assert!(sends[count - 1].final_frame);
    assert!(!stream::keep(&mut registry, "aa", "pkg", "id", pending));
    let (pending, replayed) =
        stream::on_ack(&mut registry, "aa", "pkg", "id", 0, SECOND).unwrap();
    assert_eq!(replayed.len(), count);
    stream::keep(&mut registry, "aa", "pkg", "id", pending);
    let (pending, again) = stream::on_ack(&mut registry, "aa", "pkg", "id", 0, SECOND).unwrap();
    assert!(again.is_empty());
    stream::keep(&mut registry, "aa", "pkg", "id", pending);
    let (pending, rest) =
        stream::on_ack(&mut registry, "aa", "pkg", "id", count, SECOND).unwrap();
    assert!(rest.is_empty());
    assert!(stream::keep(&mut registry, "aa", "pkg", "id", pending));
    assert!(stream::on_ack(&mut registry, "aa", "pkg", "id", count, SECOND).is_none());
}
