//! Tests of the wire protocol codec: round trips, rejection of malformed
//! buffers, and byte-level compatibility with the binary layout the relay
//! and its clients share.

use squelch::block::SampleBlock;
use squelch::codec::{DecodeError, Packet, AUDIO_TAG, PING_TAG};
use squelch::{MAX_PACKET_SIZE, TX_BUFFER_SIZE};

fn audio_block(samples: &[f32]) -> SampleBlock {
    assert_eq!(samples.len(), TX_BUFFER_SIZE);
    let words: Vec<u32> = samples.iter().map(|s| s.to_bits()).collect();
    SampleBlock::from_words(words).unwrap()
}

fn varied_samples() -> Vec<f32> {
    (0..TX_BUFFER_SIZE)
        .map(|i| ((i as f32) / (TX_BUFFER_SIZE as f32)) * 2.0 - 1.0)
        .collect()
}

#[test]
fn round_trip_ping() {
    let bytes = Packet::Ping.encode();
    assert_eq!(bytes, vec![PING_TAG]);
    match Packet::decode(&bytes).unwrap() {
        Packet::Ping => {}
        Packet::Audio(_) => panic!("ping decoded as audio"),
    }
}

#[test]
fn round_trip_audio() {
    let samples = varied_samples();
    let block = audio_block(&samples);
    let words = block.as_words().clone();
    let bytes = Packet::Audio(block).encode();
    assert_eq!(bytes.len(), 1 + 4 * TX_BUFFER_SIZE);
    assert!(bytes.len() <= MAX_PACKET_SIZE);
    match Packet::decode(&bytes).unwrap() {
        Packet::Audio(b) => assert_eq!(b.as_words(), &words),
        Packet::Ping => panic!("audio decoded as ping"),
    }
}

#[test]
fn audio_layout_is_tag_then_le_samples() {
    let samples = varied_samples();
    let block = audio_block(&samples);
    let bytes = Packet::Audio(block).encode();
    assert_eq!(bytes[0], AUDIO_TAG);
    for (i, s) in samples.iter().enumerate() {
        assert_eq!(&bytes[1 + 4 * i..5 + 4 * i], &s.to_le_bytes());
    }
}

#[test]
fn decode_empty_is_truncated() {
    assert_eq!(Packet::decode(&[]).unwrap_err(), DecodeError::Truncated);
}

#[test]
fn decode_truncated_audio_is_truncated() {
    let samples = varied_samples();
    let bytes = Packet::Audio(audio_block(&samples)).encode();
    for len in [1, 2, 5, 100, 1024, 4 * TX_BUFFER_SIZE] {
        assert_eq!(
            Packet::decode(&bytes[..len]).unwrap_err(),
            DecodeError::Truncated,
            "length {len} should be rejected"
        );
    }
}

#[test]
fn decode_unknown_tag_reports_the_tag() {
    for tag in [2u8, 7, 255] {
        let buf = vec![tag; MAX_PACKET_SIZE];
        assert_eq!(Packet::decode(&buf).unwrap_err(), DecodeError::UnknownTag(tag));
    }
}

#[test]
fn decode_ignores_trailing_bytes() {
    // A receiver hands over its whole fixed-size buffer, not just the datagram.
    let mut buf = Packet::Ping.encode();
    buf.resize(MAX_PACKET_SIZE, 0xAB);
    match Packet::decode(&buf).unwrap() {
        Packet::Ping => {}
        Packet::Audio(_) => panic!("ping decoded as audio"),
    }

    let samples = varied_samples();
    let block = audio_block(&samples);
    let words = block.as_words().clone();
    let mut buf = Packet::Audio(block).encode();
    buf.resize(MAX_PACKET_SIZE, 0xCD);
    match Packet::decode(&buf).unwrap() {
        Packet::Audio(b) => assert_eq!(b.as_words(), &words),
        Packet::Ping => panic!("audio decoded as ping"),
    }
}

#[test]
fn corrupted_tag_never_panics() {
    // Any byte buffer either decodes or reports an error; exercise a spread
    // of corrupted and short buffers.
    for len in 0..64 {
        let buf: Vec<u8> = (0..len).map(|i| (i * 37 + 11) as u8).collect();
        let _ = Packet::decode(&buf);
    }
}

#[test]
fn wire_format_matches_bincode_layout() {
    // The wire layout coincides byte for byte with bincode's standard
    // configuration for a tagged union: a varint variant index, then the
    // payload fields with little-endian scalars and no length prefix for
    // fixed arrays — so peers framing packets that way interoperate.
    let cfg = bincode::config::standard();

    let ping = Packet::Ping.encode();
    let expected_ping = bincode::encode_to_vec(PING_TAG as u32, cfg).unwrap();
    assert_eq!(ping, expected_ping);

    let samples = varied_samples();
    let mut arr = [0f32; TX_BUFFER_SIZE];
    arr.copy_from_slice(&samples);
    let audio = Packet::Audio(audio_block(&samples)).encode();
    let expected_audio = bincode::encode_to_vec((AUDIO_TAG as u32, arr), cfg).unwrap();
    assert_eq!(audio, expected_audio);

    let (decoded, consumed): ((u32, [f32; TX_BUFFER_SIZE]), usize) =
        bincode::decode_from_slice(&audio, cfg).unwrap();
    assert_eq!(consumed, audio.len());
    assert_eq!(decoded.0, AUDIO_TAG as u32);
    assert_eq!(decoded.1.to_vec(), samples);
}
