//! Tests of the non-blocking I/O result handling and of block validity.

use squelch::block::SampleBlock;
use squelch::{map_would_block, MAX_PACKET_SIZE, TX_BUFFER_SIZE};

#[test]
fn success_is_collapsed() {
    let r: std::io::Result<usize> = Ok(42);
    assert!(map_would_block(r).is_ok());
}

#[test]
fn would_block_is_forgiven() {
    let r: std::io::Result<usize> =
        Err(std::io::Error::new(std::io::ErrorKind::WouldBlock, "try again"));
    assert!(map_would_block(r).is_ok());
}

#[test]
fn other_errors_pass_through() {
    let r: std::io::Result<usize> =
        Err(std::io::Error::new(std::io::ErrorKind::ConnectionReset, "gone"));
    let e = map_would_block(r).unwrap_err();
    assert_eq!(e.kind(), std::io::ErrorKind::ConnectionReset);
}

#[test]
fn packet_buffer_fits_largest_packet() {
    assert!(1 + 4 * TX_BUFFER_SIZE <= MAX_PACKET_SIZE);
}

#[test]
fn partial_blocks_are_rejected() {
    assert!(SampleBlock::from_words(vec![0; TX_BUFFER_SIZE - 1]).is_none());
    assert!(SampleBlock::from_words(vec![0; TX_BUFFER_SIZE + 1]).is_none());
    assert!(SampleBlock::from_words(vec![]).is_none());
    let b = SampleBlock::from_words(vec![5; TX_BUFFER_SIZE]).unwrap();
    assert_eq!(b.as_words().len(), TX_BUFFER_SIZE);
    let c = b.duplicate();
    assert_eq!(c.as_words(), b.as_words());
    let z = SampleBlock::zero();
    assert!(z.is_silent());
}

#[test]
fn squelch_burst_length_is_fixed() {
    assert_eq!(squelch::fx::squelch_block_count(true), squelch::fx::SQUELCH_BURST_BLOCKS);
    assert_eq!(squelch::fx::SQUELCH_BURST_BLOCKS, 8);
    assert_eq!(squelch::fx::squelch_block_count(false), 0);
}
