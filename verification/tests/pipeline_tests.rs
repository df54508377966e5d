use share_screen::pipeline::bgra_to_i420;
use share_screen::pipeline::deliver_frames;
use share_screen::pipeline::handle_frame_delivery;
use share_screen::pipeline::FrameQueue;
use share_screen::pipeline::QueuedFrame;
use share_screen::pipeline::TrackFeed;

const RED: [u8; 4] = [0, 0, 255, 255];
const GREEN: [u8; 4] = [0, 255, 0, 255];
const BLUE: [u8; 4] = [255, 0, 0, 255];
const WHITE: [u8; 4] = [255, 255, 255, 255];
const BLACK: [u8; 4] = [0, 0, 0, 255];

fn image(pixels: &[[u8; 4]]) -> Vec<u8> {
    pixels.iter().flatten().copied().collect()
}

#[test]
fn i420_of_a_two_by_two_image() {
    let bgra = image(&[RED, GREEN, BLUE, WHITE]);
    let i420 = bgra_to_i420(&bgra, 2, 2);
    // Four luma samples, then one chroma-U and one chroma-V sample taken
    // from the top-left pixel.
    assert_eq!(i420, vec![76, 149, 28, 255, 90, 255]);
}

#[test]
fn i420_subsamples_chroma_in_both_directions() {
    let bgra = image(&[RED, GREEN, BLUE, WHITE, BLACK, BLACK, BLACK, BLACK]);
    let i420 = bgra_to_i420(&bgra, 4, 2);
    // Chroma comes from row 0, columns 0 and 2: the red and blue pixels.
    assert_eq!(
        i420,
        vec![76, 149, 28, 255, 0, 0, 0, 0, 90, 239, 255, 102]
    );
}

#[test]
fn i420_reads_only_the_image_prefix() {
    let exact = image(&[RED, GREEN, BLUE, WHITE]);
    let mut padded = exact.clone();
    padded.extend_from_slice(&[7, 7, 7, 7, 9, 9, 9, 9]);
    assert_eq!(bgra_to_i420(&padded, 2, 2), bgra_to_i420(&exact, 2, 2));
}

#[test]
fn i420_of_black_is_level_128_chroma() {
    let bgra = image(&[BLACK, BLACK, BLACK, BLACK]);
    let i420 = bgra_to_i420(&bgra, 2, 2);
    assert_eq!(i420, vec![0, 0, 0, 0, 128, 128]);
}

#[test]
fn i420_of_an_empty_image_is_empty() {
    let i420 = bgra_to_i420(&Vec::new(), 0, 0);
    assert!(i420.is_empty());
}

#[test]
fn the_queue_is_first_in_first_out() {
    let mut q = FrameQueue::new(8);
    assert!(q.try_send(QueuedFrame { bytes: vec![1], index: 0 }));
    assert!(q.try_send(QueuedFrame { bytes: vec![2], index: 1 }));
    assert!(q.try_send(QueuedFrame { bytes: vec![3], index: 2 }));
    assert_eq!(q.len(), 3);
    let first = q.pop_front().unwrap();
    assert_eq!((first.bytes, first.index), (vec![1], 0));
    let second = q.pop_front().unwrap();
    assert_eq!((second.bytes, second.index), (vec![2], 1));
    let third = q.pop_front().unwrap();
    assert_eq!((third.bytes, third.index), (vec![3], 2));
    assert!(q.pop_front().is_none());
}

#[test]
fn a_full_queue_drops_the_frame_instead_of_blocking() {
    let mut q = FrameQueue::new(1);
    assert!(q.try_send(QueuedFrame { bytes: vec![1], index: 0 }));
    assert!(!q.try_send(QueuedFrame { bytes: vec![2], index: 1 }));
    assert_eq!(q.len(), 1);
    let kept = q.pop_front().unwrap();
    assert_eq!(kept.bytes, vec![1]);
}

#[test]
fn a_faulting_delivery_is_swallowed_and_counted() {
    let mut q = FrameQueue::new(4);
    let mut counter: u64 = 0;
    assert!(!handle_frame_delivery(&mut q, &mut counter, None));
    assert_eq!(counter, 1);
    assert_eq!(q.len(), 0);
    assert!(handle_frame_delivery(&mut q, &mut counter, Some(vec![9])));
    assert_eq!(counter, 2);
    let f = q.pop_front().unwrap();
    assert_eq!((f.bytes, f.index), (vec![9], 1));
}

#[test]
fn faults_on_every_other_frame_leave_the_rest_in_order() {
    let mut q = FrameQueue::new(16);
    let mut counter: u64 = 0;
    let outcomes = vec![
        Some(vec![10]),
        None,
        Some(vec![11]),
        None,
        Some(vec![12]),
    ];
    deliver_frames(&mut q, &mut counter, outcomes);
    assert_eq!(counter, 5);
    assert_eq!(q.len(), 3);
    let a = q.pop_front().unwrap();
    let b = q.pop_front().unwrap();
    let c = q.pop_front().unwrap();
    assert_eq!((a.bytes, a.index), (vec![10], 0));
    assert_eq!((b.bytes, b.index), (vec![11], 2));
    assert_eq!((c.bytes, c.index), (vec![12], 4));
}

#[test]
fn the_track_feed_keeps_frame_index_order() {
    let mut t = TrackFeed::new();
    t.forward_packets(0, vec![(vec![1, 2], true)]);
    t.forward_packets(1, vec![(vec![3], false), (vec![4], false)]);
    t.forward_packets(3, vec![(vec![5], true)]);
    assert_eq!(t.packets.len(), 4);
    assert_eq!(t.packets[0].frame_index, 0);
    assert!(t.packets[0].is_keyframe);
    assert_eq!(t.packets[1].frame_index, 1);
    assert_eq!(t.packets[1].bytes, vec![3]);
    assert_eq!(t.packets[2].frame_index, 1);
    assert_eq!(t.packets[3].frame_index, 3);
    for w in t.packets.windows(2) {
        assert!(w[0].frame_index <= w[1].frame_index);
    }
    assert_eq!(t.high, 3);
}

#[test]
fn a_frame_without_packets_leaves_the_feed_unchanged() {
    let mut t = TrackFeed::new();
    t.forward_packets(2, Vec::new());
    assert!(t.packets.is_empty());
    assert_eq!(t.high, 0);
    t.forward_packets(5, vec![(vec![7], true)]);
    assert_eq!(t.packets.len(), 1);
    assert_eq!(t.packets[0].frame_index, 5);
    assert_eq!(t.high, 5);
}
