//! Render-loop timing arithmetic.

use ndimixer::timing::{frame_interval_micros, next_deadline, wait_action, TickWait};

#[test]
fn interval_of_common_rates() {
    assert_eq!(frame_interval_micros(30), 33_333);
    assert_eq!(frame_interval_micros(60), 16_666);
    assert_eq!(frame_interval_micros(1), 1_000_000);
}

#[test]
fn wait_action_regions() {
    assert_eq!(wait_action(100, 100), TickWait::Elapsed);
    assert_eq!(wait_action(101, 100), TickWait::Elapsed);
    assert_eq!(wait_action(0, 3001), TickWait::CoarseSleep);
    assert_eq!(wait_action(0, 3000), TickWait::Spin);
    assert_eq!(wait_action(99, 100), TickWait::Spin);
}

#[test]
fn next_deadline_advances_one_interval_when_on_time() {
    // Finished inside the frame: the next deadline is the next tick.
    assert_eq!(next_deadline(0, 100, 0), 100);
    assert_eq!(next_deadline(0, 100, 99), 100);
    assert_eq!(next_deadline(0, 100, 100), 200);
}

#[test]
fn next_deadline_skips_to_aligned_tick_after_miss() {
    // A slow composite pushed `now` past several ticks: the loop does
    // not burst, it goes to the next instant on the aligned grid.
    assert_eq!(next_deadline(0, 100, 250), 300);
    assert_eq!(next_deadline(0, 100, 999), 1000);
    assert_eq!(next_deadline(50, 100, 999), 1050);
}
