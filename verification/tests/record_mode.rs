use shader_rs::{
    bytes_per_row, frame_bytes_ok, frame_name, output_buffer_len, record, FramePlan, Options,
    TargetFormat,
};

#[test]
fn frame_names_are_zero_padded_to_eight_digits() {
    assert_eq!(frame_name(0), "00000000");
    assert_eq!(frame_name(1), "00000001");
    assert_eq!(frame_name(42), "00000042");
    assert_eq!(frame_name(299), "00000299");
    assert_eq!(frame_name(12_345_678), "12345678");
    assert_eq!(frame_name(123_456_789), "123456789");
    assert_eq!(frame_name(i32::MAX), "2147483647");
}

#[test]
fn frame_names_match_format_padding() {
    for i in (0..200_000).step_by(37).chain([9, 99, 9_999_999, 10_000_000, 100_000_000]) {
        assert_eq!(frame_name(i), format!("{:0>8}", i), "i = {}", i);
    }
}

#[test]
fn record_produces_exactly_n_outputs_in_order() {
    let plan = FramePlan::new(1024);
    let plan = record(plan, 300);
    assert_eq!(plan.entries.len(), 300);
    for (k, entry) in plan.entries.iter().enumerate() {
        assert_eq!(entry.index, k as i32);
        assert_eq!(entry.name, format!("{:0>8}", k));
        assert_eq!(entry.byte_len, 1024 * 1024 * 4);
    }
    assert_eq!(plan.entries[0].name, "00000000");
    assert_eq!(plan.entries[299].name, "00000299");
}

#[test]
fn record_time_is_frame_index_over_thirty() {
    let plan = FramePlan::new(256);
    let plan = record(plan, 61);
    for entry in &plan.entries {
        assert_eq!(entry.time_den, 30);
        assert_eq!(entry.time_num, entry.index);
    }
    // Frame 0 is at time 0.0, frame 30 at exactly 1.0, frame 60 at 2.0,
    // as the shader sees them after the single-precision division.
    let t0 = plan.entries[0].time_num as f32 / plan.entries[0].time_den as f32;
    assert_eq!(t0, 0.0);
    let t30 = plan.entries[30].time_num as f32 / plan.entries[30].time_den as f32;
    assert_eq!(t30, 1.0);
    let t60 = plan.entries[60].time_num as f32 / plan.entries[60].time_den as f32;
    assert_eq!(t60, 2.0);
}

#[test]
fn record_of_no_frames_is_empty() {
    let plan = record(FramePlan::new(64), 0);
    assert_eq!(plan.entries.len(), 0);
    let plan = record(FramePlan::new(64), -5);
    assert_eq!(plan.entries.len(), 0);
}

#[test]
fn staging_buffer_sizes_match_texture() {
    assert_eq!(output_buffer_len(1024), 4 * 1024 * 1024);
    assert_eq!(output_buffer_len(1), 4);
    assert_eq!(bytes_per_row(1024), 4096);
    assert!(frame_bytes_ok(4 * 1024 * 1024, 1024));
    assert!(!frame_bytes_ok(4 * 1024 * 1024 - 1, 1024));
    assert!(!frame_bytes_ok(0, 1024));
}

#[test]
fn options_default_to_interactive_512() {
    let options = Options::default();
    assert_eq!(options.width, 512);
    assert_eq!(options.height, 512);
    assert!(!options.record);
    assert!(!options.verbose);
}

#[test]
fn target_format_follows_mode() {
    assert_eq!(shader_rs::target_format(true), TargetFormat::Rgba8UnormSrgb);
    assert_eq!(shader_rs::target_format(false), TargetFormat::Bgra8Unorm);
}

#[test]
fn plan_recording_covers_a_whole_run() {
    let plan = shader_rs::plan_recording(1024, 300);
    assert_eq!(plan.entries.len(), 300);
    assert_eq!(plan.entries[0].name, "00000000");
    assert_eq!(plan.entries[0].time_num, 0);
    assert_eq!(plan.entries[299].name, "00000299");
    assert_eq!(plan.entries[299].time_num, 299);
    for entry in &plan.entries {
        assert_eq!(entry.byte_len, 1024 * 1024 * 4);
        assert_eq!(entry.time_den, 30);
    }
}
