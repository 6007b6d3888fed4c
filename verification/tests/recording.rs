use sketchbook::decimal::decimal_string;
use sketchbook::recording::{
    frame_file_name, recording_dir_name, recording_dir_path, FrameRecorder, RecordCommand,
    RECORDINGS_DIR,
};

#[test]
fn frame_names_are_zero_padded() {
    assert_eq!(frame_file_name(0), "frame-000000.png");
    assert_eq!(frame_file_name(7), "frame-000007.png");
    assert_eq!(frame_file_name(123456), "frame-123456.png");
    assert_eq!(frame_file_name(1234567), "frame-1234567.png");
    assert_eq!(frame_file_name(u64::MAX), format!("frame-{}.png", u64::MAX));
}

#[test]
fn frame_names_match_format() {
    for n in [0u64, 1, 9, 10, 99, 100, 999_999, 1_000_000, 42_424_242] {
        assert_eq!(frame_file_name(n), format!("frame-{:06}.png", n));
    }
}

#[test]
fn recording_dir_names() {
    assert_eq!(recording_dir_name(1725029869), "recording-1725029869");
    assert_eq!(recording_dir_name(0), "recording-0");
}

#[test]
fn decimal_text() {
    assert_eq!(decimal_string(0), "0");
    assert_eq!(decimal_string(10), "10");
    assert_eq!(decimal_string(18446744073709551615), "18446744073709551615");
}

#[test]
fn idle_recorder_captures_nothing() {
    let mut recorder: FrameRecorder<String> = FrameRecorder::new();
    assert!(!recorder.active());
    assert_eq!(recorder.button_label(), "Record");
    assert_eq!(recorder.next_capture(), None);
    assert_eq!(recorder.frame(), 0);
    assert_eq!(recorder.output_dir(), None);
}

#[test]
fn record_button_requests_start_then_stops() {
    let mut recorder: FrameRecorder<String> = FrameRecorder::new();
    assert_eq!(recorder.press_record(), RecordCommand::StartRequested);
    assert!(!recorder.active());
    recorder.begin("recordings/recording-5".to_string());
    assert!(recorder.active());
    assert_eq!(recorder.button_label(), "Stop");
    assert_eq!(recorder.output_dir(), Some(&"recordings/recording-5".to_string()));
    assert_eq!(recorder.press_record(), RecordCommand::Stopped);
    assert!(!recorder.active());
}

#[test]
fn captures_are_numbered_consecutively_from_zero() {
    let mut recorder: FrameRecorder<&str> = FrameRecorder::new();
    recorder.begin("out");
    assert_eq!(recorder.next_capture().as_deref(), Some("frame-000000.png"));
    assert_eq!(recorder.next_capture().as_deref(), Some("frame-000001.png"));
    assert_eq!(recorder.next_capture().as_deref(), Some("frame-000002.png"));
    assert_eq!(recorder.frame(), 3);
    recorder.stop();
    assert_eq!(recorder.next_capture(), None);
    assert_eq!(recorder.frame(), 3);
    recorder.begin("again");
    assert_eq!(recorder.frame(), 0);
    assert_eq!(recorder.next_capture().as_deref(), Some("frame-000000.png"));
}

#[test]
fn distinct_frames_get_distinct_files() {
    let names: Vec<String> = (0..2000u64).map(frame_file_name).collect();
    let mut sorted = names.clone();
    sorted.sort();
    sorted.dedup();
    assert_eq!(sorted.len(), names.len());
}

#[test]
fn frame_files_sort_in_capture_order() {
    let names: Vec<String> = (0..3000u64).chain([99_999, 100_000, 999_998, 999_999]).map(frame_file_name).collect();
    let mut sorted = names.clone();
    sorted.sort();
    assert_eq!(sorted, names);
}

#[test]
fn recording_dir_paths() {
    assert_eq!(RECORDINGS_DIR, "recordings");
    assert_eq!(recording_dir_path(1725029869), "recordings/recording-1725029869");
    assert_eq!(recording_dir_path(7), "recordings/recording-7");
}
