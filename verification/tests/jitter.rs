//! Tests of the playback pacing buffer's full-drain-on-overflow policy.

use squelch::jitter::JitterBuffer;

#[test]
fn push_and_drain_bursts_once_full() {
    let capacity = 5;
    let mut buf = JitterBuffer::new(capacity);

    // While the buffer is below its capacity, every push just queues.
    for i in 0..capacity {
        assert!(buf.push_and_drain(i).is_none(), "push {i} should queue");
    }

    // The push that finds the buffer full drains the whole batch first and
    // leaves only the newly pushed value behind.
    let batch = buf.push_and_drain(capacity).expect("full buffer should drain");
    assert_eq!(batch, (0..capacity).collect::<Vec<_>>());

    // The buffer now holds exactly the one value pushed after the drain:
    // it takes capacity further pushes to trigger the next burst.
    for i in 0..capacity - 1 {
        assert!(buf.push_and_drain(100 + i).is_none());
    }
    let batch = buf.push_and_drain(999).expect("second burst");
    assert_eq!(batch.len(), capacity);
    assert_eq!(batch[0], capacity);
    assert_eq!(&batch[1..], &(0..capacity - 1).map(|i| 100 + i).collect::<Vec<_>>()[..]);
}

#[test]
fn zero_capacity_drains_every_push() {
    let mut buf = JitterBuffer::new(0);
    assert_eq!(buf.push_and_drain(1u32), Some(vec![]));
    assert_eq!(buf.push_and_drain(2u32), Some(vec![1]));
    assert_eq!(buf.push_and_drain(3u32), Some(vec![2]));
}

#[test]
fn carries_sample_batches() {
    // As used on the playback side: the queued values are whole sample blocks.
    let mut buf = JitterBuffer::new(2);
    assert!(buf.push_and_drain(vec![0.1f32, 0.2]).is_none());
    assert!(buf.push_and_drain(vec![0.3f32]).is_none());
    let batch = buf.push_and_drain(vec![0.4f32]).unwrap();
    assert_eq!(batch, vec![vec![0.1f32, 0.2], vec![0.3f32]]);
}
