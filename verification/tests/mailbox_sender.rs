//! The single-slot mailbox and the non-blocking sender handoff.

use ndimixer::frame::Frame;
use ndimixer::mailbox::Mailbox;
use ndimixer::sender::{bgra_bytes, swap_channels, SendSlot};

fn marked(tag: u8) -> Frame {
    Frame::new_solid(1, 1, tag, 0, 0, 255)
}

#[test]
fn take_from_empty_mailbox_is_none() {
    let mut mb = Mailbox::new();
    assert!(mb.take().is_none());
}

#[test]
fn publish_overwrites_unread_frame() {
    // Two publishes, then a take: only the most recent frame comes out,
    // and a second take returns none — nothing is seen twice.
    let mut mb = Mailbox::new();
    mb.publish(marked(1));
    mb.publish(marked(2));
    let got = mb.take().expect("a frame was published");
    assert_eq!(got.data[0], 2);
    assert!(mb.take().is_none());
}

#[test]
fn interleaved_publish_take_returns_latest_unread() {
    let mut mb = Mailbox::new();
    mb.publish(marked(1));
    assert_eq!(mb.take().unwrap().data[0], 1);
    mb.publish(marked(2));
    mb.publish(marked(3));
    mb.publish(marked(4));
    assert_eq!(mb.take().unwrap().data[0], 4);
    assert!(mb.take().is_none());
    assert!(!mb.is_full());
    mb.publish(marked(5));
    assert!(mb.is_full());
}

#[test]
fn rgba_to_bgra_swaps_first_and_third_channel() {
    let rgba: Vec<u8> = vec![1, 2, 3, 4, 10, 20, 30, 40];
    let bgra = swap_channels(&rgba);
    assert_eq!(bgra, vec![3, 2, 1, 4, 30, 20, 10, 40]);
}

#[test]
fn channel_swap_round_trips() {
    let rgba: Vec<u8> = vec![5, 6, 7, 8, 200, 100, 50, 25, 0, 255, 128, 64];
    let back = swap_channels(&swap_channels(&rgba));
    assert_eq!(back, rgba);
}

#[test]
fn bgra_bytes_of_canvas() {
    let canvas = Frame::new_solid(2, 1, 255, 0, 10, 255);
    let bgra = bgra_bytes(&canvas);
    assert_eq!(bgra, vec![10, 0, 255, 255, 10, 0, 255, 255]);
}

#[test]
fn send_slot_drops_when_full() {
    // Publish rate above send rate: the accepted sends are exactly the
    // delivered buffers plus the one still waiting; the rest is dropped.
    let mut slot = SendSlot::new();
    assert!(slot.try_send(vec![1]));
    assert!(!slot.try_send(vec![2]));
    assert!(!slot.try_send(vec![3]));
    assert_eq!(slot.recv().unwrap(), vec![1]);
    assert!(slot.try_send(vec![4]));
    assert_eq!(slot.recv().unwrap(), vec![4]);
    assert!(slot.recv().is_none());
}

#[test]
fn send_slot_balance_over_a_burst() {
    // 10 sends against 3 receives: 4 sends are accepted (3 delivered,
    // 1 left waiting), 6 dropped.
    let mut slot = SendSlot::new();
    let mut accepted = 0;
    let mut delivered = 0;
    for round in 0..10 {
        if slot.try_send(vec![round]) {
            accepted += 1;
        }
        if round % 3 == 2 {
            if slot.recv().is_some() {
                delivered += 1;
            }
        }
    }
    assert_eq!(accepted, 4);
    assert_eq!(delivered, 3);
}
