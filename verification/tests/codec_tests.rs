use jira_tracker::dur::Dur;
use jira_tracker::json::{parse_snapshot_text, render_snapshot};
use jira_tracker::store::{ClockSample, TrackerStore};
use jira_tracker::wall::WallTime;

fn wall() -> WallTime {
    WallTime {
        year: 2024,
        month: 1,
        day: 2,
        hour: 3,
        minute: 4,
        second: 5,
        off_neg: false,
        off_hour: 0,
        off_minute: 0,
    }
}

fn clock(mono_secs: u64) -> ClockSample {
    ClockSample {
        mono_nanos: mono_secs * 1_000_000_000,
        wall_nanos: 1_700_000_000_000_000_000 + mono_secs * 1_000_000_000,
        wall_time: wall(),
    }
}

#[test]
fn empty_store_renders_exactly() {
    let store = TrackerStore::new();
    let snap = store.to_snapshot(clock(0));
    let text = render_snapshot(&snap);
    assert_eq!(text, "{\"running\":null,\"trackers\":{}}");
}

#[test]
fn one_paused_tracker_renders_exactly() {
    let mut store = TrackerStore::new();
    store.create_tracker("AB-1", clock(0)).unwrap();
    store.pause(clock(65).mono_nanos);
    let snap = store.to_snapshot(clock(65));
    let text = render_snapshot(&snap);
    assert_eq!(
        text,
        "{\"running\":null,\"trackers\":{\"AB-1\":{\"duration\":\"1m 5s\",\
         \"startTime\":\"2024-01-02T03:04:05+00:00\"}}}"
    );
}

#[test]
fn save_then_load_reproduces_the_store() {
    let mut store = TrackerStore::new();
    store.create_tracker("AB-1", clock(0)).unwrap();
    store
        .set_description("AB-1", Some("first item".to_string()), clock(1).mono_nanos)
        .unwrap();
    store.create_tracker("AB-2", clock(10)).unwrap();
    store
        .adjust_positive_duration("AB-1", Dur::from_secs(7), clock(12).mono_nanos)
        .unwrap();
    store
        .adjust_negative_duration("AB-1", Dur::from_secs(3), clock(13).mono_nanos)
        .unwrap();
    let at = clock(20);
    let snap = store.to_snapshot(at);
    let text = render_snapshot(&snap);
    let parsed = parse_snapshot_text(&text).unwrap();
    let restored = TrackerStore::from_snapshot(&parsed, at);
    let before = store.list_trackers(at.mono_nanos);
    let after = restored.list_trackers(at.mono_nanos);
    assert_eq!(before.len(), after.len());
    for (b, a) in before.iter().zip(after.iter()) {
        assert_eq!(b.key, a.key);
        assert_eq!(b.description, a.description);
        assert_eq!(b.duration.nanos, a.duration.nanos);
        assert_eq!(b.running, a.running);
        assert_eq!(b.start_time, a.start_time);
    }
    assert_eq!(
        store.current(at.mono_nanos).unwrap().key,
        restored.current(at.mono_nanos).unwrap().key
    );
}

#[test]
fn descriptions_with_escapes_survive_the_round_trip() {
    let mut store = TrackerStore::new();
    store.create_tracker("AB-1", clock(0)).unwrap();
    let tricky = "say \"hi\" \\ twice\nplease".to_string();
    store
        .set_description("AB-1", Some(tricky.clone()), clock(1).mono_nanos)
        .unwrap();
    let at = clock(2);
    let text = render_snapshot(&store.to_snapshot(at));
    let parsed = parse_snapshot_text(&text).unwrap();
    let restored = TrackerStore::from_snapshot(&parsed, at);
    let got = restored.get_tracker("AB-1", at.mono_nanos).unwrap();
    assert_eq!(got.description.as_deref(), Some(tricky.as_str()));
}

#[test]
fn hand_written_file_with_whitespace_loads() {
    let text = "{\n  \"running\": null,\n  \"trackers\": {\n    \"XY-7\": {\n      \
                \"description\": \"typed by hand\",\n      \"duration\": \"90m\",\n      \
                \"positiveAdjustments\": [\"1s\", \"2s\"],\n      \
                \"negativeAdjustments\": [],\n      \
                \"startTime\": \"2023-11-30T08:00:00+01:00\"\n    }\n  }\n}\n";
    let snap = parse_snapshot_text(text).unwrap();
    let store = TrackerStore::from_snapshot(&snap, clock(0));
    let got = store.get_tracker("XY-7", clock(0).mono_nanos).unwrap();
    assert_eq!(got.description.as_deref(), Some("typed by hand"));
    // 90 minutes plus the two positive corrections
    assert_eq!(got.duration.nanos, (90 * 60 + 3) * 1_000_000_000);
    assert!(!got.running);
}

#[test]
fn reload_replaces_the_whole_store() {
    // the in-memory store has AB-1; the file written elsewhere has CD-9
    let mut store = TrackerStore::new();
    store.create_tracker("AB-1", clock(0)).unwrap();
    let external = "{\"running\":null,\"trackers\":{\"CD-9\":{\"duration\":\"5s\",\
                    \"startTime\":\"2024-01-02T03:04:05+00:00\"}}}";
    let snap = parse_snapshot_text(external).unwrap();
    let store = TrackerStore::from_snapshot(&snap, clock(50));
    let list = store.list_trackers(clock(50).mono_nanos);
    assert_eq!(list.len(), 1);
    assert_eq!(list[0].key, "CD-9");
    assert_eq!(list[0].duration.nanos, 5 * 1_000_000_000);
}

#[test]
fn running_pointer_survives_the_round_trip() {
    let mut store = TrackerStore::new();
    store.create_tracker("AB-1", clock(0)).unwrap();
    let at = clock(30);
    let text = render_snapshot(&store.to_snapshot(at));
    let parsed = parse_snapshot_text(&text).unwrap();
    let restored = TrackerStore::from_snapshot(&parsed, at);
    // with the same clock sample, the recovered live segment is exact
    let current = restored.current(at.mono_nanos).unwrap();
    assert_eq!(current.key, "AB-1");
    assert_eq!(current.duration.nanos, 30 * 1_000_000_000);
}

#[test]
fn malformed_files_give_errors_not_panics() {
    assert!(parse_snapshot_text("").is_err());
    assert!(parse_snapshot_text("not json").is_err());
    assert!(parse_snapshot_text("{\"running\":null}").is_err());
    assert!(parse_snapshot_text("{\"trackers\":{},\"running\":null}").is_err());
    assert!(parse_snapshot_text(
        "{\"running\":null,\"trackers\":{}} trailing"
    )
    .is_err());
    // schema mismatch inside a tracker
    assert!(parse_snapshot_text(
        "{\"running\":null,\"trackers\":{\"AB-1\":{\"duration\":\"abc\",\
         \"startTime\":\"2024-01-02T03:04:05+00:00\"}}}"
    )
    .is_err());
    // a bad timestamp
    assert!(parse_snapshot_text(
        "{\"running\":null,\"trackers\":{\"AB-1\":{\"duration\":\"1s\",\
         \"startTime\":\"2024-13-02T03:04:05+00:00\"}}}"
    )
    .is_err());
}

#[test]
fn dangling_running_pointer_is_rejected() {
    let text = "{\"running\":{\"key\":\"ZZ-1\",\"startTime\":12345},\"trackers\":{}}";
    assert!(parse_snapshot_text(text).is_err());
}

#[test]
fn duplicate_keys_are_rejected() {
    let text = "{\"running\":null,\"trackers\":{\
                \"AB-1\":{\"duration\":\"1s\",\"startTime\":\"2024-01-02T03:04:05+00:00\"},\
                \"AB-1\":{\"duration\":\"2s\",\"startTime\":\"2024-01-02T03:04:05+00:00\"}}}";
    assert!(parse_snapshot_text(text).is_err());
}
