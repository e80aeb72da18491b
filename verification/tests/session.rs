//! Tests of the client session state machine: transmit chunking, the release
//! burst, the receive path and the silence timeout.

use squelch::codec::Packet;
use squelch::session::{Action, Session, BLOCK_INTERVAL_MICROS, SILENCE_TIMEOUT_MICROS};
use squelch::TX_BUFFER_SIZE;

fn bits(samples: &[f32]) -> Vec<u32> {
    samples.iter().map(|s| s.to_bits()).collect()
}

fn audio_datagram(value: f32) -> Vec<u8> {
    let words = vec![value.to_bits(); TX_BUFFER_SIZE];
    let block = squelch::block::SampleBlock::from_words(words).unwrap();
    Packet::Audio(block).encode()
}

#[test]
fn timing_constants() {
    // One block of 256 samples at 44100 Hz lasts just over 5.8 ms.
    assert_eq!(BLOCK_INTERVAL_MICROS, 1_000_000 * TX_BUFFER_SIZE as u64 / 44100);
    assert_eq!(SILENCE_TIMEOUT_MICROS, 7 * BLOCK_INTERVAL_MICROS);
}

#[test]
fn transmit_chunks_full_blocks_and_keeps_fragment() {
    let mut s = Session::new(0);

    // Not yet a full block: nothing sent.
    let acts = s.step(true, 0, Some(vec![1u32; TX_BUFFER_SIZE - 1]), None);
    assert!(acts.is_empty());

    // One more batch completes two blocks and leaves a fragment pending.
    let acts = s.step(true, 10, Some(vec![2u32; TX_BUFFER_SIZE + 4]), None);
    assert_eq!(acts.len(), 2);
    match (&acts[0], &acts[1]) {
        (Action::SendAudio(b0), Action::SendAudio(b1)) => {
            let mut expected: Vec<u32> = vec![1; TX_BUFFER_SIZE - 1];
            expected.extend(vec![2u32; TX_BUFFER_SIZE + 4]);
            assert_eq!(b0.as_words()[..], expected[..TX_BUFFER_SIZE]);
            assert_eq!(b1.as_words()[..], expected[TX_BUFFER_SIZE..2 * TX_BUFFER_SIZE]);
        }
        _ => panic!("expected two send actions"),
    }

    // The three leftover samples complete the next block with new input.
    let acts = s.step(true, 20, Some(vec![3u32; TX_BUFFER_SIZE - 3]), None);
    assert_eq!(acts.len(), 1);
    match &acts[0] {
        Action::SendAudio(b) => {
            assert_eq!(b.as_words()[..3], [2, 2, 2]);
            assert!(b.as_words()[3..].iter().all(|w| *w == 3));
        }
        _ => panic!("expected a send action"),
    }
}

#[test]
fn release_plays_squelch_burst() {
    let mut s = Session::new(0);
    let acts = s.step(true, 0, Some(bits(&vec![0.25; 16])), None);
    assert!(acts.is_empty());

    // Releasing push-to-talk asks for exactly one squelch burst.
    let acts = s.step(false, 10, None, None);
    assert_eq!(acts.len(), 1);
    assert!(matches!(acts[0], Action::PlaySquelch));

    // Staying idle without a live stream asks for nothing further.
    let acts = s.step(false, 20, None, None);
    assert!(acts.is_empty());
}

#[test]
fn received_audio_is_played_through_effects() {
    let mut s = Session::new(0);
    let acts = s.step(false, 500, None, Some(audio_datagram(0.5)));
    assert_eq!(acts.len(), 1);
    match &acts[0] {
        Action::PlayAudio(b) => {
            assert!(b.as_words().iter().all(|w| *w == 0.5f32.to_bits()));
        }
        _ => panic!("expected a playback action"),
    }
}

#[test]
fn decode_error_is_discarded() {
    let mut s = Session::new(0);
    let acts = s.step(false, 500, None, Some(vec![9, 9, 9]));
    assert_eq!(acts.len(), 1);
    assert!(matches!(acts[0], Action::DiscardBadPacket));

    // A discarded packet neither marks the stream live nor schedules squelch.
    let acts = s.step(false, 500 + SILENCE_TIMEOUT_MICROS + 1, None, None);
    assert!(acts.is_empty());
}

#[test]
fn unexpected_ping_is_flagged() {
    let mut s = Session::new(0);
    let acts = s.step(false, 500, None, Some(Packet::Ping.encode()));
    assert_eq!(acts.len(), 1);
    assert!(matches!(acts[0], Action::UnexpectedPing));
}

#[test]
fn silence_timeout_fires_exactly_once() {
    let mut s = Session::new(0);

    // A stream goes live.
    let acts = s.step(false, 1_000, None, Some(audio_datagram(0.1)));
    assert_eq!(acts.len(), 1);
    assert!(matches!(acts[0], Action::PlayAudio(_)));

    // Quiet, but within the timeout: nothing yet.
    let acts = s.step(false, 1_000 + SILENCE_TIMEOUT_MICROS - 1, None, None);
    assert!(acts.is_empty());

    // The timeout expires: exactly one squelch burst.
    let acts = s.step(false, 1_000 + SILENCE_TIMEOUT_MICROS, None, None);
    assert_eq!(acts.len(), 1);
    assert!(matches!(acts[0], Action::PlaySquelch));

    // Still quiet, much later: the burst is not re-triggered.
    let acts = s.step(false, 1_000 + 100 * SILENCE_TIMEOUT_MICROS, None, None);
    assert!(acts.is_empty());

    // A new arrival re-asserts the stream without a burst...
    let now = 2_000 + 100 * SILENCE_TIMEOUT_MICROS;
    let acts = s.step(false, now, None, Some(audio_datagram(0.2)));
    assert_eq!(acts.len(), 1);
    assert!(matches!(acts[0], Action::PlayAudio(_)));

    // ...and the timeout can fire again, once, from the new arrival time.
    let acts = s.step(false, now + SILENCE_TIMEOUT_MICROS, None, None);
    assert_eq!(acts.len(), 1);
    assert!(matches!(acts[0], Action::PlaySquelch));
}

#[test]
fn microphone_is_ignored_while_idle() {
    let mut s = Session::new(0);
    let acts = s.step(false, 100, Some(vec![7u32; 2 * TX_BUFFER_SIZE]), None);
    assert!(acts.is_empty());

    // The idle batch was dropped: transmitting later starts from nothing.
    let acts = s.step(true, 200, Some(vec![8u32; TX_BUFFER_SIZE]), None);
    assert_eq!(acts.len(), 1);
    match &acts[0] {
        Action::SendAudio(b) => assert!(b.as_words().iter().all(|w| *w == 8)),
        _ => panic!("expected a send action"),
    }
}
