use track_work::fmt::{format_centi_hours, format_duration, u64_to_dec};
use track_work::log::Log;
use track_work::model::{ProjectState, TimeKind, TimeSegment, WorkRecord};
use track_work::store::WorkRecordRepository;
use track_work::week::{week_key_of_secs, WeekPickerState};

fn record(id: &str, name: &str, start: u64) -> WorkRecord {
    WorkRecord::new_started(id.to_string(), name.to_string(), start)
}

#[test]
fn fresh_record_shape() {
    let r = record("id-1", "Eng", 100);
    assert_eq!(r.name, "Eng");
    assert_eq!(r.start, 100);
    assert_eq!(r.end, None);
    assert!(matches!(r.state, ProjectState::Working));
    assert_eq!(r.segments.len(), 1);
    assert_eq!(r.segments[0].start, 100);
    assert_eq!(r.segments[0].end, None);
    assert!(matches!(r.segments[0].kind, TimeKind::Productive));
    assert!(r.check_wf());
}

#[test]
fn pause_resume_alternates_segments() {
    let mut r = record("id-1", "Eng", 100);
    r.begin_pause(200);
    r.resume_work(300);
    r.begin_pause(450);
    r.resume_work(500);
    assert_eq!(r.segments.len(), 5);
    // consecutive segments never share a kind
    let mut i = 0;
    while i + 1 < r.segments.len() {
        let a = matches!(r.segments[i].kind, TimeKind::Productive);
        let b = matches!(r.segments[i + 1].kind, TimeKind::Productive);
        assert_ne!(a, b);
        i += 1;
    }
    // every segment except the last is closed, the last is open
    let mut j = 0;
    while j + 1 < r.segments.len() {
        assert!(r.segments[j].end.is_some());
        j += 1;
    }
    assert!(r.segments[r.segments.len() - 1].end.is_none());
    assert!(r.check_wf());
}

#[test]
fn pause_when_paused_changes_nothing() {
    let mut r = record("id-1", "Eng", 100);
    r.begin_pause(200);
    assert_eq!(r.segments.len(), 2);
    r.begin_pause(250);
    assert_eq!(r.segments.len(), 2);
    assert!(matches!(r.state, ProjectState::Paused));
}

#[test]
fn resume_when_working_changes_nothing() {
    let mut r = record("id-1", "Eng", 100);
    r.resume_work(200);
    assert_eq!(r.segments.len(), 1);
    assert!(matches!(r.state, ProjectState::Working));
}

#[test]
fn stop_is_idempotent() {
    let mut r = record("id-1", "Eng", 100);
    r.stop(400);
    assert!(matches!(r.state, ProjectState::Done));
    assert_eq!(r.end, Some(400));
    let segments_before = r.segments.len();
    r.stop(900);
    assert!(matches!(r.state, ProjectState::Done));
    assert_eq!(r.end, Some(400));
    assert_eq!(r.segments.len(), segments_before);
}

#[test]
fn duration_counts_only_productive_segments() {
    let mut r = record("id-1", "Eng", 1000);
    r.begin_pause(1100); // 100 s productive
    r.resume_work(1600); // 500 s pause contributes nothing
    r.begin_pause(1630); // 30 s productive
    // the open pause segment contributes nothing however long it gets
    assert_eq!(r.calculate_duration(1630), 130);
    assert_eq!(r.calculate_duration(99999), 130);
    r.resume_work(2000);
    // an open productive segment counts up to `now`
    assert_eq!(r.calculate_duration(2050), 180);
    r.stop(2100);
    assert_eq!(r.calculate_duration(3000), 230);
}

#[test]
fn finish_sets_only_a_missing_end() {
    let mut seg = TimeSegment { start: 10, end: None, kind: TimeKind::Productive };
    seg.finish(25);
    assert_eq!(seg.end, Some(25));
    seg.finish(99);
    assert_eq!(seg.end, Some(25));
}

#[test]
fn check_wf_rejects_malformed_records() {
    let mut r = record("id-1", "Eng", 100);
    assert!(r.check_wf());
    // an empty segment list is rejected
    let empty = WorkRecord {
        id: "x".to_string(),
        name: "y".to_string(),
        start: 0,
        end: None,
        state: ProjectState::Working,
        segments: Vec::new(),
    };
    assert!(!empty.check_wf());
    // two adjacent segments of one kind are rejected
    r.segments.push(TimeSegment { start: 150, end: None, kind: TimeKind::Productive });
    assert!(!r.check_wf());
    // a record whose end is set while it still works is rejected
    let broken = WorkRecord {
        id: "x".to_string(),
        name: "y".to_string(),
        start: 0,
        end: Some(5),
        state: ProjectState::Working,
        segments: vec![TimeSegment { start: 0, end: None, kind: TimeKind::Productive }],
    };
    assert!(!broken.check_wf());
}

#[test]
fn persist_then_get_latest_round_trip() {
    let mut repo = WorkRecordRepository::new();
    assert!(repo.get_latest().is_none());

    // three records in one week (days 0..6 of the epoch), one in an earlier week is impossible,
    // so use a later week for the newest shard instead
    let early_a = {
        let mut r = record("id-a", "Eng", 86400);
        r.stop(90000);
        r
    };
    let early_b = {
        let mut r = record("id-b", "Docs", 172800);
        r.stop(180000);
        r
    };
    // a record one year later falls into a later shard
    let late = {
        let mut r = record("id-c", "Eng", 31536000);
        r.stop(31540000);
        r
    };
    repo.persist(late.duplicate());
    repo.persist(early_a.duplicate());
    repo.persist(early_b.duplicate());

    // the latest comes from the shard with the greatest key, by maximum start
    let latest = repo.get_latest().expect("a record was persisted");
    assert_eq!(latest.id, "id-c");
    assert_eq!(latest.name, "Eng");
    assert_eq!(latest.start, 31536000);
    assert_eq!(latest.end, Some(31540000));
}

#[test]
fn get_latest_prefers_max_start_within_the_latest_shard() {
    let mut repo = WorkRecordRepository::new();
    let a = record("id-a", "Eng", 86400);
    let b = record("id-b", "Docs", 90000);
    let c = record("id-c", "Ops", 87000);
    repo.persist(a);
    repo.persist(b);
    repo.persist(c);
    let latest = repo.get_latest().expect("records were persisted");
    assert_eq!(latest.id, "id-b");
    assert_eq!(latest.start, 90000);
}

#[test]
fn persist_replaces_by_id() {
    let mut repo = WorkRecordRepository::new();
    let mut r = record("id-a", "Eng", 86400);
    repo.persist(r.duplicate());
    r.stop(90000);
    repo.persist(r.duplicate());
    let week = week_key_of_secs(86400);
    let records = repo.find_week(week);
    assert_eq!(records.len(), 1);
    assert_eq!(records[0].end, Some(90000));
}

#[test]
fn find_week_and_get_by_id() {
    let mut repo = WorkRecordRepository::new();
    let a = record("id-a", "Eng", 86400);
    let late = record("id-c", "Eng", 31536000);
    repo.persist(a);
    repo.persist(late);
    let early_week = week_key_of_secs(86400);
    let late_week = week_key_of_secs(31536000);
    assert_ne!(early_week, late_week);
    assert_eq!(repo.find_week(early_week).len(), 1);
    assert_eq!(repo.find_week(late_week).len(), 1);
    assert_eq!(repo.find_week(999999).len(), 0);
    let found = repo.get_by_id("id-a", early_week).expect("stored in this week");
    assert_eq!(found.name, "Eng");
    assert!(repo.get_by_id("id-a", late_week).is_none());
    assert!(repo.get_by_id("id-zzz", early_week).is_none());
}

#[test]
fn week_keys_follow_iso_weeks() {
    // 1970-01-01 is a Thursday of ISO week 1970-W01
    assert_eq!(week_key_of_secs(0), 197001);
    // 2023-12-25 00:00:00 UTC is the Monday of ISO week 2023-W52
    assert_eq!(week_key_of_secs(1703462400), 202352);
    // 2021-01-01 falls into ISO week 2020-W53
    assert_eq!(week_key_of_secs(1609459200), 202053);
    // the Sunday and the Monday around a week boundary get different keys
    assert_eq!(week_key_of_secs(1703462400 - 1), 202351);
}

#[test]
fn week_picker_moves_by_whole_weeks() {
    // day 19716 is 2023-12-25, a Monday
    let mut picker = WeekPickerState { day: 19718 };
    assert_eq!(picker.week(), 202352);
    let (start, end) = picker.start_and_end();
    assert_eq!(start, 19716);
    assert_eq!(end, 19722);
    picker.increment();
    assert_eq!(picker.day, 19725);
    assert_eq!(picker.week(), 202401);
    picker.decrement();
    picker.decrement();
    assert_eq!(picker.day, 19711);
    assert_eq!(picker.week(), 202351);
    // the first week after the epoch is a floor
    let mut early = WeekPickerState { day: 3 };
    early.decrement();
    assert_eq!(early.day, 3);
}

#[test]
fn decimal_rendering() {
    assert_eq!(u64_to_dec(0), "0");
    assert_eq!(u64_to_dec(7), "7");
    assert_eq!(u64_to_dec(40), "40");
    assert_eq!(u64_to_dec(1234567890), "1234567890");
    assert_eq!(format_centi_hours(0), "0.00h");
    assert_eq!(format_centi_hours(5), "0.05h");
    assert_eq!(format_centi_hours(150), "1.50h");
    assert_eq!(format_centi_hours(200), "2.00h");
    assert_eq!(format_centi_hours(12345), "123.45h");
}

#[test]
fn log_keeps_the_last_entries() {
    let mut log = Log::new();
    log.log("one".to_string());
    log.log("two".to_string());
    log.log("three".to_string());
    assert_eq!(log.last_n(2), vec!["two".to_string(), "three".to_string()]);
    assert_eq!(log.last_n(10).len(), 3);
    assert_eq!(log.last_n(0).len(), 0);
}

#[test]
fn duration_rendering() {
    assert_eq!(format_duration(0), "00:00:00");
    assert_eq!(format_duration(59), "00:00:59");
    assert_eq!(format_duration(61), "00:01:01");
    assert_eq!(format_duration(3600 + 2 * 60 + 3), "01:02:03");
    assert_eq!(format_duration(360000), "100:00:00");
}
