use voicemcu::common::jitter::{JitterBuffer, DEFAULT_JITTER_DEPTH};
use voicemcu::common::protocol::FRAME_SIZE;

type PcmFrame = [f32; FRAME_SIZE];

fn make_frame(val: f32) -> PcmFrame {
    [val; FRAME_SIZE]
}

#[test]
fn insert_and_pop_single() {
    let mut jb = JitterBuffer::new(DEFAULT_JITTER_DEPTH);
    assert!(jb.insert(0, make_frame(0.5)));
    let f = jb.pop().expect("should have a frame");
    assert_eq!(f[0], 0.5);
}

#[test]
fn pop_empty_returns_none() {
    let mut jb: JitterBuffer<PcmFrame> = JitterBuffer::new(DEFAULT_JITTER_DEPTH);
    assert!(jb.pop().is_none());
}

#[test]
fn sequential_insert_pop() {
    let mut jb = JitterBuffer::new(DEFAULT_JITTER_DEPTH);
    for i in 0..4u32 {
        jb.insert(i, make_frame(i as f32 * 0.1));
    }
    for i in 0..4u32 {
        let f = jb.pop().expect("should have frame");
        assert!((f[0] - i as f32 * 0.1).abs() < 1e-6);
    }
}

#[test]
fn old_packet_rejected() {
    let mut jb = JitterBuffer::new(DEFAULT_JITTER_DEPTH);
    jb.insert(5, make_frame(0.5));
    jb.pop(); // read_seq advances to 6
    assert!(!jb.insert(3, make_frame(0.3)));
}

#[test]
fn underrun_returns_none() {
    let mut jb = JitterBuffer::new(DEFAULT_JITTER_DEPTH);
    jb.insert(0, make_frame(0.1));
    jb.pop(); // seq 0
    assert!(jb.pop().is_none()); // seq 1 was never inserted
}

#[test]
fn overrun_resyncs() {
    let mut jb = JitterBuffer::new(DEFAULT_JITTER_DEPTH);
    jb.insert(0, make_frame(0.0));
    jb.insert(100, make_frame(1.0));
    let mut found = false;
    for _ in 0..DEFAULT_JITTER_DEPTH {
        if let Some(f) = jb.pop() {
            if (f[0] - 1.0).abs() < 1e-6 {
                found = true;
                break;
            }
        }
    }
    assert!(found, "should find the overrun frame after resync");
}

#[test]
fn overrun_preserves_frames_already_buffered_in_window() {
    let mut jb = JitterBuffer::new(DEFAULT_JITTER_DEPTH);
    jb.insert(100, make_frame(0.1));
    jb.insert(101, make_frame(0.2));
    jb.insert(102, make_frame(0.3));
    jb.insert(103, make_frame(0.4));

    // This jumps the read pointer forward, but frames already present in the
    // new window should remain available.
    jb.insert(104, make_frame(0.5));

    assert!((jb.pop().unwrap()[0] - 0.2).abs() < 1e-6);
    assert!((jb.pop().unwrap()[0] - 0.3).abs() < 1e-6);
    assert!((jb.pop().unwrap()[0] - 0.4).abs() < 1e-6);
    assert!((jb.pop().unwrap()[0] - 0.5).abs() < 1e-6);
}

#[test]
fn wrapping_sequence_handled() {
    let mut jb = JitterBuffer::new(DEFAULT_JITTER_DEPTH);
    let start = u32::MAX - 2;
    jb.insert(start, make_frame(0.1));
    jb.pop();

    jb.insert(u32::MAX - 1, make_frame(0.2));
    jb.insert(u32::MAX, make_frame(0.3));
    jb.insert(0, make_frame(0.4));

    assert!((jb.pop().unwrap()[0] - 0.2).abs() < 1e-6);
    assert!((jb.pop().unwrap()[0] - 0.3).abs() < 1e-6);
    assert!((jb.pop().unwrap()[0] - 0.4).abs() < 1e-6);
}

#[test]
fn wrapping_rejects_old_packet_across_boundary() {
    let mut jb = JitterBuffer::new(DEFAULT_JITTER_DEPTH);
    jb.insert(5, make_frame(0.1));
    jb.pop();
    assert!(!jb.insert(u32::MAX, make_frame(0.9)));
}

#[test]
fn custom_depth() {
    let mut jb = JitterBuffer::new(8);
    assert_eq!(jb.depth(), 8);
    for seq in 0..8u32 {
        jb.insert(seq, make_frame(seq as f32 * 0.1));
    }
    for seq in 0..8u32 {
        let f = jb.pop().expect("should have frame");
        assert!((f[0] - seq as f32 * 0.1).abs() < 1e-6);
    }
}

#[test]
fn shuffled_window_comes_out_in_order() {
    let mut jb = JitterBuffer::new(DEFAULT_JITTER_DEPTH);
    for seq in [10u32, 13, 11, 12] {
        assert!(jb.insert(seq, seq));
    }
    for seq in 10u32..14 {
        assert_eq!(jb.pop(), Some(seq));
    }
    assert_eq!(jb.pop(), None);
}

#[test]
fn late_frame_changes_nothing() {
    let mut jb = JitterBuffer::new(2);
    assert!(jb.insert(7, 'a'));
    assert!(!jb.insert(6, 'x'));
    assert_eq!(jb.pop(), Some('a'));
    assert_eq!(jb.pop(), None);
}

#[test]
fn half_the_circle_counts_as_ahead() {
    let mut jb = JitterBuffer::new(4);
    assert!(jb.insert(0, 0u8));
    assert!(jb.insert(0x7fff_ffff, 1u8));
    let mut late = JitterBuffer::new(4);
    assert!(late.insert(0, 0u8));
    assert!(!late.insert(0x8000_0000, 1u8));
}

#[test]
fn wrapping_with_an_uneven_depth() {
    // Three does not divide 2^32: the window still holds both numbers.
    let mut jb = JitterBuffer::new(3);
    assert!(jb.insert(u32::MAX, make_frame(0.1)));
    assert!(jb.insert(0, make_frame(0.2)));
    assert_eq!(jb.pop(), Some(make_frame(0.1)));
    assert_eq!(jb.pop(), Some(make_frame(0.2)));
}

#[test]
fn every_depth_wraps_without_a_loss() {
    for depth in 1..=32u32 {
        let mut jb = JitterBuffer::new(depth as usize);
        let start = u32::MAX - depth / 2;
        for n in (0..depth).rev() {
            // The first one in sets the read position.
            if n == depth - 1 {
                assert!(jb.insert(start, start));
            }
            let seq = start.wrapping_add(n);
            assert!(jb.insert(seq, seq));
        }
        for n in 0..depth {
            assert_eq!(jb.pop(), Some(start.wrapping_add(n)), "depth {depth}");
        }
        assert_eq!(jb.pop(), None);
    }
}

#[test]
fn resync_across_the_wrap_keeps_the_window() {
    let mut jb = JitterBuffer::new(5);
    for seq in [u32::MAX - 3, u32::MAX - 1, u32::MAX, 0] {
        assert!(jb.insert(seq, seq));
    }
    // Two places beyond the window.
    assert!(jb.insert(3, 3));
    assert_eq!(jb.pop(), Some(u32::MAX));
    assert_eq!(jb.pop(), Some(0));
    assert_eq!(jb.pop(), None);
    assert_eq!(jb.pop(), None);
    assert_eq!(jb.pop(), Some(3));
}

#[test]
fn inserts_and_pops_in_turn_deliver_in_order_and_once() {
    for depth in [1usize, 2, 3, 4, 5, 7] {
        let mut jb = JitterBuffer::new(depth);
        let start = u32::MAX - 40;
        let mut last: Option<u32> = None;
        let mut delivered = 0;
        for step in 0..200u32 {
            // Runs of swapped neighbours, with every ninth frame sent twice.
            let place = step ^ 1;
            jb.insert(start.wrapping_add(place), place);
            if place % 9 == 0 {
                jb.insert(start.wrapping_add(place), place);
            }
            if step % 5 != 4 {
                if let Some(place) = jb.pop() {
                    assert!(last.map_or(true, |l| l < place), "depth {depth}");
                    last = Some(place);
                    delivered += 1;
                    assert!(!jb.insert(start.wrapping_add(place), place));
                }
            }
        }
        assert!(delivered > 50, "depth {depth}: {delivered}");
    }
}

#[test]
fn a_replaced_frame_is_not_delivered() {
    let mut jb = JitterBuffer::new(4);
    assert!(jb.insert(1, "first"));
    assert!(jb.insert(2, "old"));
    assert!(jb.insert(2, "new"));
    assert_eq!(jb.pop(), Some("first"));
    assert_eq!(jb.pop(), Some("new"));
    assert_eq!(jb.pop(), None);
}

#[test]
fn initialized_by_the_first_frame() {
    let mut jb: JitterBuffer<u8> = JitterBuffer::new(3);
    assert!(!jb.is_initialized());
    assert_eq!(jb.pop(), None);
    jb.insert(9, 1);
    assert!(jb.is_initialized());
    assert_eq!(jb.depth(), 3);
}
