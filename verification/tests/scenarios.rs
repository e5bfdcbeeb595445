//! End-to-end channel scenarios, deterministic with stubbed producers:
//! one simulated render tick = take from every mailbox, keep last
//! frames, build layers, composite, convert and offer to the sender.

use ndimixer::frame::Frame;
use ndimixer::mailbox::Mailbox;
use ndimixer::render::{absorb_taken, build_layers, render_tick, LayerSetting};
use ndimixer::sender::{bgra_bytes, SendSlot};
use ndimixer::timing::{frame_interval_micros, next_deadline};

const W: u32 = 16;
const H: u32 = 9;

struct TestChannel {
    canvas: Frame,
    ndi_mailbox: Mailbox,
    ndi_last: Option<Frame>,
    ndi_setting: LayerSetting,
    overlay_mailboxes: Vec<Mailbox>,
    overlay_last: Vec<Option<Frame>>,
    overlay_settings: Vec<LayerSetting>,
    sender: SendSlot,
    frames_output: u64,
}

impl TestChannel {
    fn new(overlays: Vec<LayerSetting>) -> TestChannel {
        let mut overlay_mailboxes = Vec::new();
        let mut overlay_last = Vec::new();
        for _ in 0..overlays.len() {
            overlay_mailboxes.push(Mailbox::new());
            overlay_last.push(None);
        }
        TestChannel {
            canvas: Frame::new_black(W, H),
            ndi_mailbox: Mailbox::new(),
            ndi_last: None,
            ndi_setting: LayerSetting {
                opacity: 256,
                z_index: 0,
            },
            overlay_mailboxes,
            overlay_last,
            overlay_settings: overlays,
            sender: SendSlot::new(),
            frames_output: 0,
        }
    }

    /// One render tick; returns the BGRA buffer the sender accepted, if
    /// the slot was free.
    fn tick(&mut self) -> Option<Vec<u8>> {
        absorb_taken(&mut self.ndi_last, self.ndi_mailbox.take());
        for i in 0..self.overlay_mailboxes.len() {
            absorb_taken(&mut self.overlay_last[i], self.overlay_mailboxes[i].take());
        }
        let ndi_copy = self.ndi_last.as_ref().map(|f| f.duplicate());
        let overlay_copies: Vec<Option<Frame>> = self
            .overlay_last
            .iter()
            .map(|s| s.as_ref().map(|f| f.duplicate()))
            .collect();
        let layers = build_layers(
            ndi_copy,
            &self.ndi_setting,
            overlay_copies,
            &self.overlay_settings,
        );
        render_tick(&mut self.canvas, &layers);
        self.frames_output += 1;
        let bgra = bgra_bytes(&self.canvas);
        if self.sender.try_send(bgra) {
            self.sender.recv()
        } else {
            None
        }
    }
}

fn solid(rgba: [u8; 4]) -> Frame {
    Frame::new_solid(W, H, rgba[0], rgba[1], rgba[2], rgba[3])
}

#[test]
fn empty_channel_emits_opaque_black_at_rate() {
    // No inputs, no overlays, 30 fps: one second gives 30 black buffers.
    let mut ch = TestChannel::new(Vec::new());
    let interval = frame_interval_micros(30);
    let mut deadline: u64 = interval;
    let mut buffers = Vec::new();
    while deadline <= 1_000_000 {
        buffers.push(ch.tick().expect("consumer keeps up"));
        deadline = next_deadline(0, interval, deadline);
    }
    assert_eq!(buffers.len(), 30);
    for buf in &buffers {
        assert_eq!(buf.len(), (W * H * 4) as usize);
        for p in buf.chunks(4) {
            assert_eq!(p, &[0, 0, 0, 255]);
        }
    }
    assert_eq!(ch.frames_output, 30);
}

#[test]
fn single_input_at_double_rate_shows_latest_frame() {
    // A producer publishing solid red at 60 Hz into a 30 Hz channel:
    // every emitted frame is solid red, and more frames were received
    // than emitted.
    let mut ch = TestChannel::new(Vec::new());
    let mut frames_received: u64 = 0;
    for _ in 0..30 {
        // two publishes per tick (60 Hz against 30 Hz)
        ch.ndi_mailbox.publish(solid([255, 0, 0, 255]));
        frames_received += 1;
        ch.ndi_mailbox.publish(solid([255, 0, 0, 255]));
        frames_received += 1;
        let buf = ch.tick().expect("consumer keeps up");
        for p in buf.chunks(4) {
            assert_eq!(p, &[0, 0, 255, 255]); // BGRA of solid red
        }
    }
    assert_eq!(ch.frames_output, 30);
    assert!(frames_received > ch.frames_output);
}

#[test]
fn overlay_over_input_blends_half_transparent_blue() {
    let mut ch = TestChannel::new(vec![LayerSetting {
        opacity: 256,
        z_index: 1,
    }]);
    ch.ndi_mailbox.publish(solid([255, 0, 0, 255]));
    ch.overlay_mailboxes[0].publish(solid([0, 0, 255, 128]));
    let buf = ch.tick().expect("consumer keeps up");
    for p in buf.chunks(4) {
        // BGRA of (R 127, G 0, B 128, A 255)
        assert_eq!(p, &[128, 0, 127, 255]);
    }
}

#[test]
fn disappearing_producer_keeps_last_frame() {
    // The producer stops publishing halfway; the channel keeps emitting
    // the captured frame at full rate and the counter keeps climbing.
    let mut ch = TestChannel::new(Vec::new());
    for tick in 0..30 {
        if tick < 15 {
            ch.ndi_mailbox.publish(solid([255, 0, 0, 255]));
        }
        let buf = ch.tick().expect("consumer keeps up");
        for p in buf.chunks(4) {
            assert_eq!(p, &[0, 0, 255, 255]);
        }
    }
    assert_eq!(ch.frames_output, 30);
}

#[test]
fn opacity_zero_overlay_equals_input_only() {
    let mut with_overlay = TestChannel::new(vec![LayerSetting {
        opacity: 0,
        z_index: 1,
    }]);
    with_overlay.ndi_mailbox.publish(solid([200, 50, 25, 255]));
    with_overlay.overlay_mailboxes[0].publish(solid([0, 255, 0, 255]));
    let a = with_overlay.tick().expect("consumer keeps up");

    let mut input_only = TestChannel::new(Vec::new());
    input_only.ndi_mailbox.publish(solid([200, 50, 25, 255]));
    let b = input_only.tick().expect("consumer keeps up");

    assert_eq!(a, b);
}

#[test]
fn z_order_puts_green_on_top() {
    // Two overlays, red at z 0 and opaque green at z 1: solid green out.
    let mut ch = TestChannel::new(vec![
        LayerSetting {
            opacity: 256,
            z_index: 1,
        },
        LayerSetting {
            opacity: 256,
            z_index: 0,
        },
    ]);
    ch.overlay_mailboxes[0].publish(solid([0, 255, 0, 255])); // green, z 1
    ch.overlay_mailboxes[1].publish(solid([255, 0, 0, 255])); // red, z 0
    let buf = ch.tick().expect("consumer keeps up");
    for p in buf.chunks(4) {
        assert_eq!(p, &[0, 255, 0, 255]); // BGRA of green
    }
}
