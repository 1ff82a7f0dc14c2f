//! Record framing, rotation, retention, and the recorder's queues and writers.

use roboprotocol::options::{
    operator_recorder_config, parse_record_category, parse_record_extra_category,
    parse_record_extra_list, parse_record_list, robot_recorder_config, CategoryError, RecordLimits,
};
use roboprotocol::recorder::ring::CategoryState;
use roboprotocol::recorder::writer::{segment_file_name, SegmentAction, Writer};
use roboprotocol::recorder::{Category, CategoryConfig, Record, Recorder, RecorderConfig};
use roboprotocol::recording::{
    control_source_byte, decode_records, encode_record, segments_to_delete_for_budget,
    should_rotate, RecordHeader, RotationThresholds, SegmentMeta, CONTROL_SOURCE_SENTINEL,
};
use roboprotocol::safety::ControlSource;
use roboprotocol::time::{Duration, Instant};

fn at(ms: u64) -> Instant {
    Instant { nanos: 1_000_000_000 }.plus(Duration::from_millis(ms))
}

#[test]
fn record_round_trips_single() {
    let mut buf = Vec::new();
    encode_record(RecordHeader { capture_us: 1_000_000, control_source: 3 }, b"hello", &mut buf);
    let records = decode_records(&buf);
    assert_eq!(records.len(), 1);
    assert_eq!(records[0].0, RecordHeader { capture_us: 1_000_000, control_source: 3 });
    assert_eq!(records[0].1, b"hello");
}

#[test]
fn record_round_trips_multiple_concatenated() {
    let mut buf = Vec::new();
    encode_record(RecordHeader { capture_us: 1, control_source: 0 }, b"a", &mut buf);
    encode_record(RecordHeader { capture_us: 2, control_source: 0xFF }, b"bb", &mut buf);
    encode_record(RecordHeader { capture_us: 3, control_source: 4 }, b"", &mut buf);
    let records = decode_records(&buf);
    assert_eq!(records.len(), 3);
    assert_eq!(records[0].1, b"a");
    assert_eq!(records[1].1, b"bb");
    assert_eq!(records[2].1, b"" as &[u8]);
}

#[test]
fn truncated_final_record_does_not_prevent_reading_earlier_ones() {
    let mut buf = Vec::new();
    encode_record(RecordHeader { capture_us: 1, control_source: 0 }, b"complete", &mut buf);
    let good_len = buf.len();
    encode_record(
        RecordHeader { capture_us: 2, control_source: 0 },
        b"this one gets cut off",
        &mut buf,
    );
    buf.truncate(good_len + 10); // chop the second record mid-payload

    let records = decode_records(&buf);
    assert_eq!(records.len(), 1);
    assert_eq!(records[0].1, b"complete");
}

#[test]
fn truncated_header_alone_yields_nothing_but_does_not_panic() {
    let buf = vec![0u8, 1, 2]; // shorter than a header
    assert_eq!(decode_records(&buf).len(), 0);
}

#[test]
fn a_record_is_length_time_source_and_payload() {
    let mut buf = Vec::new();
    encode_record(RecordHeader { capture_us: 0x0102, control_source: 4 }, b"xyz", &mut buf);
    assert_eq!(buf, vec![0, 0, 0, 3, 0, 0, 0, 0, 0, 0, 1, 2, 4, b'x', b'y', b'z']);
}

#[test]
fn should_rotate_at_size_threshold() {
    let t = RotationThresholds {
        max_segment_bytes: 100,
        max_segment_duration: Duration::from_secs(3600),
    };
    let now = at(0);
    assert!(should_rotate(100, now, now, &t));
    assert!(should_rotate(150, now, now, &t));
    assert!(!should_rotate(99, now, now, &t));
}

#[test]
fn should_rotate_at_duration_threshold() {
    let t = RotationThresholds {
        max_segment_bytes: u64::MAX,
        max_segment_duration: Duration::from_secs(60),
    };
    let opened_at = at(0);
    let now = opened_at.plus(Duration::from_secs(61));
    assert!(should_rotate(0, opened_at, now, &t));
    let now_early = opened_at.plus(Duration::from_secs(30));
    assert!(!should_rotate(0, opened_at, now_early, &t));
}

#[test]
fn segments_to_delete_deletes_oldest_first_and_stops_under_budget() {
    let existing = [
        SegmentMeta { size_bytes: 100 },
        SegmentMeta { size_bytes: 100 },
        SegmentMeta { size_bytes: 100 },
    ];
    let to_delete = segments_to_delete_for_budget(&existing, 50, 200);
    // 350 in all; without the first 250, without the second 150.
    assert_eq!(to_delete, vec![0, 1]);
}

#[test]
fn segments_to_delete_is_empty_when_already_under_budget() {
    let existing = [SegmentMeta { size_bytes: 10 }, SegmentMeta { size_bytes: 10 }];
    assert!(segments_to_delete_for_budget(&existing, 5, 1000).is_empty());
}

#[test]
fn segments_to_delete_never_selects_the_newest() {
    // The newest one is being written to.
    let existing = [SegmentMeta { size_bytes: 1_000_000 }];
    assert!(segments_to_delete_for_budget(&existing, 0, 1).is_empty());

    let existing = [
        SegmentMeta { size_bytes: 500 },
        SegmentMeta { size_bytes: 500 },
        SegmentMeta { size_bytes: 500 },
    ];
    let to_delete = segments_to_delete_for_budget(&existing, 0, 1);
    assert!(!to_delete.contains(&2));
}

#[test]
fn control_source_byte_never_produces_the_sentinel() {
    for source in [
        ControlSource::EStop,
        ControlSource::EmergencySafeParking,
        ControlSource::ActiveImpedanceHold,
        ControlSource::FullTeleoperation,
        ControlSource::SemiAutonomous,
    ] {
        assert_ne!(control_source_byte(source), CONTROL_SOURCE_SENTINEL);
    }
}

fn quick_category(category: Category, start_active: bool) -> CategoryConfig {
    CategoryConfig {
        category,
        ring_capacity: 64,
        max_segment_bytes: 1_000_000,
        max_segment_duration: Duration::from_secs(3600),
        max_total_bytes: 10_000_000,
        flush_interval: Duration::from_millis(20),
        start_active,
    }
}

fn config(categories: Vec<CategoryConfig>) -> RecorderConfig {
    RecorderConfig { record_dir: "records".to_string(), categories }
}

/// Segment files kept in memory: start of the name and contents.
struct Disk {
    writer: Writer,
    segments: Vec<(u64, Vec<u8>)>,
    open: bool,
}

impl Disk {
    fn new(config: &CategoryConfig) -> Disk {
        Disk { writer: Writer::new(config, at(0)), segments: vec![], open: false }
    }

    /// Carries out what the writer asks for.
    fn write(&mut self, record: &Record, now: Instant) {
        for action in self.writer.on_record(record, now) {
            match action {
                SegmentAction::Close => self.open = false,
                SegmentAction::EnforceRetention { incoming_bytes, budget_bytes } => {
                    let metas: Vec<SegmentMeta> = self
                        .segments
                        .iter()
                        .map(|s| SegmentMeta { size_bytes: s.1.len() as u64 })
                        .collect();
                    let gone = segments_to_delete_for_budget(&metas, incoming_bytes, budget_bytes);
                    let mut index = 0;
                    self.segments.retain(|_| {
                        index += 1;
                        !gone.contains(&(index - 1))
                    });
                }
                SegmentAction::Create { start_capture_us } => {
                    self.segments.push((start_capture_us, vec![]));
                    self.open = true;
                    self.writer.on_created(Some(now));
                }
                SegmentAction::Append { bytes } => {
                    assert!(self.open);
                    self.writer.on_appended(bytes.len() as u64);
                    self.segments.last_mut().unwrap().1.extend(bytes);
                }
            }
        }
    }
}

#[test]
fn unconfigured_category_enqueue_is_a_noop() {
    let mut recorder = Recorder::start(&config(vec![]));
    recorder.enqueue(
        Category::VideoA,
        Record { capture_us: 1, control_source: 0xFF, payload: vec![1, 2, 3] },
    );
    assert!(recorder.stats(Category::VideoA).is_none());
    assert!(recorder.drain(Category::VideoA).0.is_empty());
}

#[test]
fn inactive_category_enqueue_is_a_noop() {
    let mut recorder =
        Recorder::start(&config(vec![quick_category(Category::ChannelBCommand, false)]));
    recorder.enqueue(
        Category::ChannelBCommand,
        Record { capture_us: 1, control_source: 3, payload: vec![9, 9] },
    );
    let stats = recorder.stats(Category::ChannelBCommand).unwrap();
    assert_eq!(stats.bytes_enqueued, 0);
    assert!(!stats.active);
}

#[test]
fn record_enqueued_just_before_deactivation_still_gets_written() {
    let category = quick_category(Category::KeyPress, true);
    let mut disk = Disk::new(&category);
    let mut recorder = Recorder::start(&config(vec![category]));
    recorder.enqueue(
        Category::KeyPress,
        Record { capture_us: 1, control_source: 0xFF, payload: b"ToggleRecording".to_vec() },
    );
    recorder.set_active(Category::KeyPress, false);

    let (batch, _) = recorder.drain(Category::KeyPress);
    for record in &batch {
        disk.write(record, at(1));
    }
    let records = decode_records(&disk.segments[0].1);
    assert_eq!(records.len(), 1);
    assert_eq!(records[0].1, b"ToggleRecording");
}

#[test]
fn everything_queued_at_the_end_is_read_back_in_order() {
    let category = CategoryConfig { max_segment_bytes: 40, ..quick_category(Category::KeyPress, true) };
    let mut disk = Disk::new(&category);
    let mut recorder = Recorder::start(&config(vec![category]));
    for i in 0..10u64 {
        recorder.enqueue(
            Category::KeyPress,
            Record { capture_us: 7 + i * 95, control_source: i as u8, payload: vec![i as u8; i as usize] },
        );
    }
    recorder.set_active(Category::KeyPress, false);
    recorder.shut_down(Category::KeyPress);

    let (batch, shutting_down) = recorder.drain(Category::KeyPress);
    assert!(!Writer::finished(shutting_down, batch.len()));
    for (i, record) in batch.iter().enumerate() {
        disk.write(record, at(i as u64));
        disk.writer.flush_due(at(i as u64));
    }
    let (rest, shutting_down) = recorder.drain(Category::KeyPress);
    assert!(Writer::finished(shutting_down, rest.len()));

    let mut files = disk.segments;
    assert!(files.len() > 2, "several segments: {}", files.len());
    files.sort_by_key(|(start, _)| segment_file_name(*start));
    let mut read = Vec::new();
    for (_, bytes) in &files {
        for (header, payload) in decode_records(bytes) {
            read.push((header, payload.to_vec()));
        }
    }
    let expected: Vec<_> = (0..10u64)
        .map(|i| {
            let header = RecordHeader { capture_us: 7 + i * 95, control_source: i as u8 };
            (header, vec![i as u8; i as usize])
        })
        .collect();
    assert_eq!(read, expected);
}

#[test]
fn active_category_writes_a_readable_segment() {
    let category = quick_category(Category::KeyPress, true);
    let mut disk = Disk::new(&category);
    let mut recorder = Recorder::start(&config(vec![category]));
    recorder.enqueue(
        Category::KeyPress,
        Record { capture_us: 100, control_source: 0xFF, payload: b"Quit".to_vec() },
    );
    for record in &recorder.drain(Category::KeyPress).0 {
        disk.write(record, at(1));
    }
    let records = decode_records(&disk.segments[0].1);
    assert_eq!(records.len(), 1);
    assert_eq!(records[0].0.capture_us, 100);
    assert_eq!(records[0].1, b"Quit");
}

#[test]
fn rotation_fires_at_a_tiny_size_threshold() {
    let mut category = quick_category(Category::ChannelBTelemetry, true);
    category.max_segment_bytes = 20; // a header alone is 13 bytes
    let mut disk = Disk::new(&category);
    for i in 0..20u64 {
        disk.write(
            &Record { capture_us: 1000 + i, control_source: 3, payload: vec![0u8; 10] },
            at(i),
        );
    }
    assert!(disk.segments.len() >= 2, "rotation never produced a second segment");
    assert_eq!(disk.segments.len(), 20);
}

#[test]
fn retention_deletes_oldest_segments_first_and_keeps_the_newest() {
    let mut category = quick_category(Category::ChannelBCommand, true);
    category.max_segment_bytes = 20; // rotate at every record
    category.max_total_bytes = 60; // about two segments
    let mut disk = Disk::new(&category);
    for i in 0..30u64 {
        disk.write(
            &Record { capture_us: 1000 + i, control_source: 3, payload: vec![0u8; 10] },
            at(i),
        );
    }
    assert_eq!(disk.segments.last().unwrap().0, 1000 + 29);
    for (start, _) in &disk.segments {
        assert!(*start >= 1010, "segment {start} should have been deleted");
    }
    let total: usize = disk.segments.iter().map(|s| s.1.len()).sum();
    assert!(total < 200, "retention did not keep the total bounded: {total}");
}

#[test]
fn ring_drops_oldest_when_over_capacity() {
    let mut state = CategoryState::new(4, true);
    for i in 0..10u64 {
        state.push(Record { capture_us: i, control_source: 0xFF, payload: vec![] });
    }
    let (_, dropped, _) = state.stats();
    assert!(dropped >= 6, "expected at least 6 drops (10 pushed, capacity 4), got {dropped}");
    let kept: Vec<u64> = state.drain().iter().map(|r| r.capture_us).collect();
    assert_eq!(kept, vec![6, 7, 8, 9]);
}

#[test]
fn counters_count_every_push() {
    let mut state = CategoryState::new(4, true);
    for i in 0..10u64 {
        state.push(Record { capture_us: i, control_source: 0, payload: vec![0; i as usize] });
    }
    assert_eq!(state.stats(), (45, 6, true));
    state.drain();
    for i in 0..3u64 {
        state.push(Record { capture_us: i, control_source: 0, payload: vec![0; 5] });
    }
    assert_eq!(state.stats(), (60, 6, true));
}

#[test]
fn segment_crash_safety_truncated_final_record_preserves_earlier_ones() {
    let mut disk = Disk::new(&quick_category(Category::KeyPress, true));
    disk.write(&Record { capture_us: 1, control_source: 0, payload: b"first".to_vec() }, at(0));
    disk.write(
        &Record { capture_us: 2, control_source: 0, payload: b"second-record-longer".to_vec() },
        at(0),
    );
    assert_eq!(disk.segments.len(), 1);
    let mut bytes = disk.segments[0].1.clone();
    bytes.truncate(bytes.len() - 5); // chop the tail of the second record

    let records = decode_records(&bytes);
    assert_eq!(records.len(), 1);
    assert_eq!(records[0].1, b"first");
}

#[test]
fn segment_names_sort_by_time() {
    assert_eq!(segment_file_name(42), "00000000000000000042.rec");
    assert!(segment_file_name(999) < segment_file_name(1_000));
}

#[test]
fn a_writer_stops_only_when_nothing_is_queued_and_flushes_in_time() {
    assert!(Writer::finished(true, 0));
    assert!(!Writer::finished(true, 1));
    assert!(!Writer::finished(false, 0));
    let mut writer = Writer::new(&quick_category(Category::VideoA, true), at(0));
    assert!(!writer.flush_due(at(19)));
    assert!(writer.flush_due(at(20)));
    assert!(!writer.flush_due(at(39)));
}

#[test]
fn a_segment_that_cannot_be_opened_is_asked_for_again() {
    let mut writer = Writer::new(&quick_category(Category::VideoA, true), at(0));
    let record = Record { capture_us: 5, control_source: 0, payload: vec![1] };
    let first = writer.on_record(&record, at(0));
    assert!(matches!(first[1], SegmentAction::Create { start_capture_us: 5 }));
    writer.on_created(None);
    let second = writer.on_record(&record, at(1));
    assert!(matches!(second[1], SegmentAction::Create { start_capture_us: 5 }));
}

#[test]
fn category_directories() {
    assert_eq!(Category::VideoA.dirname(), "video-a");
    assert_eq!(Category::ActionTriggerC.dirname(), "action-trigger-c");
}

#[test]
fn shutting_down_leaves_what_is_queued() {
    let mut recorder = Recorder::start(&config(vec![quick_category(Category::VideoA, true)]));
    recorder.enqueue(
        Category::VideoA,
        Record { capture_us: 1, control_source: 0xFF, payload: vec![1, 2, 3] },
    );
    recorder.shut_down(Category::VideoA);
    let (batch, down) = recorder.drain(Category::VideoA);
    assert_eq!(batch.len(), 1);
    assert!(down);
    assert!(recorder.is_active(Category::VideoA));
    assert_eq!(recorder.toggled_dropped(), 0);
}

const LIMITS: RecordLimits = RecordLimits {
    max_segment_mb: 8,
    max_segment_secs: 60,
    budget_mb: 64,
    video_budget_mb: 16,
    flush_secs: 2,
};

#[test]
fn the_robot_records_what_it_is_asked_to() {
    let categories = parse_record_list("video,action").unwrap();
    assert_eq!(categories, vec![Category::VideoA, Category::ActionTriggerC]);
    assert!(LIMITS.fit());
    let c = robot_recorder_config(Some("dir".to_string()), &categories, &LIMITS);
    assert_eq!(c.record_dir, "dir");
    assert_eq!(c.categories.len(), 2);
    assert_eq!(c.categories[0].max_total_bytes, 16_000_000);
    assert_eq!(c.categories[1].max_total_bytes, 64_000_000);
    assert_eq!(c.categories[1].max_segment_bytes, 8_000_000);
    assert_eq!(c.categories[1].ring_capacity, 256);
    assert!(c.categories.iter().all(|k| k.start_active));
    assert!(robot_recorder_config(None, &categories, &LIMITS).categories.is_empty());
}

#[test]
fn the_console_adds_to_what_is_switched() {
    let extra = parse_record_extra_list("haptic").unwrap();
    let c = operator_recorder_config(Some("dir".to_string()), &extra, &LIMITS);
    let started: Vec<(Category, bool)> =
        c.categories.iter().map(|k| (k.category, k.start_active)).collect();
    assert_eq!(
        started,
        vec![
            (Category::VideoA, false),
            (Category::ChannelBCommand, false),
            (Category::ChannelBTelemetry, false),
            (Category::KeyPress, false),
            (Category::ChannelBHaptic, true),
        ]
    );
    assert!(operator_recorder_config(None, &extra, &LIMITS).categories.is_empty());
}

#[test]
fn wrong_categories_are_errors() {
    assert!(matches!(parse_record_category("key-press"), Err(CategoryError::NoKeyboard)));
    let Err(CategoryError::Unknown(name)) = parse_record_list("video,,telemetry") else {
        panic!("an empty name is no category");
    };
    assert_eq!(name, "");
    let Err(CategoryError::Unknown(name)) = parse_record_extra_category("video") else {
        panic!("video is switched at run time");
    };
    assert_eq!(name, "video");
    let too_large = RecordLimits { budget_mb: u64::MAX, ..LIMITS };
    assert!(!too_large.fit());
    let for_ever = RecordLimits { max_segment_secs: u64::MAX, flush_secs: 18_446_744_074, ..LIMITS };
    assert!(for_ever.fit());
    let c = robot_recorder_config(Some("dir".to_string()), &vec![Category::VideoA], &for_ever);
    assert_eq!(c.categories[0].max_segment_duration, Duration { nanos: u64::MAX });
    assert_eq!(c.categories[0].flush_interval, Duration { nanos: u64::MAX });
}
