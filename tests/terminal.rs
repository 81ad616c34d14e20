use klyx_extension::terminal::{WriteStep, wait_status_code, window_size, write_step};

#[test]
fn window_sizes_keep_low_bits() {
    assert_eq!(window_size(24, 80, 10, 20), (24, 80, 800, 480));
    assert_eq!(window_size(65536 + 5, 7, 1, 1), (5, 7, 7, 5));
}

#[test]
fn wait_codes() {
    assert_eq!(wait_status_code(true, 3, false, 0), 3);
    assert_eq!(wait_status_code(false, 0, true, 9), -9);
    assert_eq!(wait_status_code(false, 0, false, 0), 0);
}

#[test]
fn write_loop_steps() {
    assert_eq!(write_step(0, 10, 4, false), WriteStep::Continue(4));
    assert_eq!(write_step(4, 10, 6, false), WriteStep::Done(10));
    assert_eq!(write_step(4, 10, 0, false), WriteStep::Done(4));
    assert_eq!(write_step(4, 10, -1, true), WriteStep::Retry);
    assert_eq!(write_step(4, 10, -1, false), WriteStep::Fail);
}
