use vxapo_driver::host::instance::apo_rt::{
    calc_input_frames, calc_output_frames, get_latency, output_flags, panic_line, time_of_frames,
    Pipeline, BUFFER_SILENT, BUFFER_VALID,
};

#[test]
fn get_latency_no_chain() {
    let pipeline = Pipeline::new(480, 480, 2);
    assert_eq!(get_latency(&pipeline, 48000), 0);
}

#[test]
fn get_latency_zero_sample_rate() {
    let mut pipeline = Pipeline::new(480, 480, 2);
    pipeline.chain_latency = Some(0);
    assert_eq!(get_latency(&pipeline, 0), 0);
}

#[test]
fn calc_frames_no_latency() {
    let pipeline = Pipeline::new(480, 480, 2);
    assert_eq!(calc_input_frames(&pipeline, 480), 480);
    assert_eq!(calc_output_frames(&pipeline, 480), 480);
}

#[test]
fn calc_frames_with_latency() {
    let mut pipeline = Pipeline::new(480, 480, 2);
    pipeline.chain_latency = Some(128);

    assert_eq!(calc_input_frames(&pipeline, 480), 608);
    assert_eq!(calc_output_frames(&pipeline, 608), 480);
}

#[test]
fn calc_output_frames_saturates() {
    let mut pipeline = Pipeline::new(480, 480, 2);
    pipeline.chain_latency = Some(1000);

    assert_eq!(calc_output_frames(&pipeline, 100), 0);
}

#[test]
fn latency_is_counted_in_hundreds_of_nanoseconds() {
    let mut pipeline = Pipeline::new(480, 480, 2);
    pipeline.chain_latency = Some(480);
    assert_eq!(get_latency(&pipeline, 48000), 100_000);
    assert_eq!(time_of_frames(1, 3), 3_333_333);
}

#[test]
fn calc_input_frames_saturates() {
    let mut pipeline = Pipeline::new(480, 480, 2);
    pipeline.chain_latency = Some(10);
    assert_eq!(calc_input_frames(&pipeline, u32::MAX - 3), u32::MAX);
}

/// A processing that ended leaves its flags; one that panicked leaves silence and a line
/// in the log.
#[test]
fn panic_leaves_silence_and_a_line() {
    assert_eq!(output_flags(Some(BUFFER_VALID)), BUFFER_VALID);
    assert_eq!(output_flags(Some(BUFFER_SILENT)), BUFFER_SILENT);
    assert_eq!(output_flags(None), BUFFER_SILENT);
    let line = panic_line(Some("intentional test panic"));
    assert!(line.contains("PANIC"), "log should contain PANIC: {line}");
    assert!(line.contains("intentional test panic"));
}
