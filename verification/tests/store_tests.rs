use jira_tracker::dur::Dur;
use jira_tracker::store::{AdjustRequest, ClockSample, TrackerError, TrackerStore};
use jira_tracker::wall::WallTime;

fn wall() -> WallTime {
    WallTime {
        year: 2024,
        month: 1,
        day: 2,
        hour: 3,
        minute: 4,
        second: 5,
        off_neg: false,
        off_hour: 0,
        off_minute: 0,
    }
}

fn clock(mono_secs: u64) -> ClockSample {
    ClockSample {
        mono_nanos: mono_secs * 1_000_000_000,
        wall_nanos: 1_700_000_000_000_000_000 + mono_secs * 1_000_000_000,
        wall_time: wall(),
    }
}

#[test]
fn create_runs_then_pause_reports_banked_time() {
    // create implies start; 65 simulated seconds later a pause freezes it
    let mut store = TrackerStore::new();
    let info = store.create_tracker("AB-1", clock(0)).unwrap();
    assert!(info.running);
    assert_eq!(info.key, "AB-1");
    store.pause(clock(65).mono_nanos);
    let got = store.get_tracker("AB-1", clock(65).mono_nanos).unwrap();
    assert!(!got.running);
    assert!(got.duration.nanos >= 65 * 1_000_000_000);
    assert_eq!(got.duration.nanos, 65 * 1_000_000_000);
}

#[test]
fn second_create_switches_running() {
    let mut store = TrackerStore::new();
    store.create_tracker("AB-1", clock(0)).unwrap();
    store.create_tracker("AB-2", clock(10)).unwrap();
    let current = store.current(clock(10).mono_nanos).unwrap();
    assert_eq!(current.key, "AB-2");
    let list = store.list_trackers(clock(10).mono_nanos);
    assert_eq!(list.len(), 2);
    assert_eq!(list[0].key, "AB-1");
    assert_eq!(list[1].key, "AB-2");
    assert!(list[0].description.is_none());
    assert!(list[1].description.is_none());
    assert!(!list[0].running);
    assert!(list[1].running);
}

#[test]
fn bad_key_leaves_store_unchanged() {
    let mut store = TrackerStore::new();
    let r = store.create_tracker("bad key!", clock(0));
    assert_eq!(r.unwrap_err(), TrackerError::KeyFormatError);
    assert_eq!(store.list_trackers(clock(0).mono_nanos).len(), 0);
}

#[test]
fn occupied_key_is_refused() {
    let mut store = TrackerStore::new();
    store.create_tracker("AB-1", clock(0)).unwrap();
    let r = store.create_tracker("AB-1", clock(5));
    assert_eq!(r.unwrap_err(), TrackerError::OccupiedError);
    // the earlier tracker is still running and still alone
    assert_eq!(store.list_trackers(clock(5).mono_nanos).len(), 1);
    assert_eq!(store.current(clock(5).mono_nanos).unwrap().key, "AB-1");
}

#[test]
fn start_switches_and_folds_the_old_segment() {
    // A runs 10s, B runs 15s, then A again: every segment lands in the bank
    let mut store = TrackerStore::new();
    store.create_tracker("AB-1", clock(0)).unwrap();
    store.create_tracker("AB-2", clock(10)).unwrap();
    let a = store.get_tracker("AB-1", clock(10).mono_nanos).unwrap();
    assert_eq!(a.duration.nanos, 10 * 1_000_000_000);
    store.start("AB-1", clock(25)).unwrap();
    let current = store.current(clock(25).mono_nanos).unwrap();
    assert_eq!(current.key, "AB-1");
    let b = store.get_tracker("AB-2", clock(25).mono_nanos).unwrap();
    assert!(!b.running);
    assert_eq!(b.duration.nanos, 15 * 1_000_000_000);
    let a_later = store.get_tracker("AB-1", clock(30).mono_nanos).unwrap();
    assert!(a_later.running);
    assert_eq!(a_later.duration.nanos, 15 * 1_000_000_000);
}

#[test]
fn start_of_missing_key_is_not_found() {
    let mut store = TrackerStore::new();
    let r = store.start("AB-9", clock(0));
    assert_eq!(r.unwrap_err(), TrackerError::NotFoundError);
}

#[test]
fn pause_with_nothing_running_is_a_no_op() {
    let mut store = TrackerStore::new();
    store.pause(clock(5).mono_nanos);
    store.create_tracker("AB-1", clock(10)).unwrap();
    store.pause(clock(20).mono_nanos);
    store.pause(clock(30).mono_nanos);
    let got = store.get_tracker("AB-1", clock(30).mono_nanos).unwrap();
    assert_eq!(got.duration.nanos, 10 * 1_000_000_000);
    assert!(store.current(clock(30).mono_nanos).is_err());
}

#[test]
fn negative_adjustment_fails_only_beyond_the_balance() {
    let mut store = TrackerStore::new();
    store.create_tracker("AB-1", clock(0)).unwrap();
    store.pause(clock(100).mono_nanos);
    let too_much = Dur::from_secs(101);
    let r = store.adjust_negative_duration("AB-1", too_much, clock(100).mono_nanos);
    assert_eq!(r.unwrap_err(), TrackerError::DurationAdjustmentError);
    let unchanged = store.get_tracker("AB-1", clock(100).mono_nanos).unwrap();
    assert_eq!(unchanged.duration.nanos, 100 * 1_000_000_000);
    let fine = Dur::from_secs(40);
    let after = store
        .adjust_negative_duration("AB-1", fine, clock(100).mono_nanos)
        .unwrap();
    assert_eq!(after.duration.nanos, 60 * 1_000_000_000);
    let exact = store.elapsed("AB-1", clock(100).mono_nanos).unwrap();
    assert_eq!(exact.nanos, 60 * 1_000_000_000);
    // reducing by exactly the balance leaves zero
    let rest = Dur::from_secs(60);
    let zeroed = store
        .adjust_negative_duration("AB-1", rest, clock(100).mono_nanos)
        .unwrap();
    assert_eq!(zeroed.duration.nanos, 0);
}

#[test]
fn positive_adjustment_adds_time() {
    let mut store = TrackerStore::new();
    store.create_tracker("AB-1", clock(0)).unwrap();
    store.pause(clock(30).mono_nanos);
    let info = store
        .adjust_positive_duration("AB-1", Dur::from_secs(30), clock(30).mono_nanos)
        .unwrap();
    assert_eq!(info.duration.nanos, 60 * 1_000_000_000);
}

#[test]
fn empty_description_means_absent() {
    let mut store = TrackerStore::new();
    store.create_tracker("AB-1", clock(0)).unwrap();
    let with = store
        .set_description("AB-1", Some("hello".to_string()), clock(1).mono_nanos)
        .unwrap();
    assert_eq!(with.description.as_deref(), Some("hello"));
    let cleared = store
        .set_description("AB-1", Some(String::new()), clock(2).mono_nanos)
        .unwrap();
    assert!(cleared.description.is_none());
}

#[test]
fn remove_pauses_the_running_tracker_first() {
    let mut store = TrackerStore::new();
    store.create_tracker("AB-1", clock(0)).unwrap();
    store.create_tracker("AB-2", clock(10)).unwrap();
    let removed = store.remove("AB-2", clock(25).mono_nanos).unwrap();
    assert_eq!(removed.duration.nanos, 15 * 1_000_000_000);
    assert!(store.current(clock(25).mono_nanos).is_err());
    let list = store.list_trackers(clock(25).mono_nanos);
    assert_eq!(list.len(), 1);
    assert_eq!(list[0].key, "AB-1");
}

#[test]
fn remove_keeps_the_relative_order_of_the_rest() {
    let mut store = TrackerStore::new();
    store.create_tracker("AB-1", clock(0)).unwrap();
    store.create_tracker("AB-2", clock(1)).unwrap();
    store.create_tracker("AB-3", clock(2)).unwrap();
    store.remove("AB-2", clock(3).mono_nanos).unwrap();
    let list = store.list_trackers(clock(3).mono_nanos);
    assert_eq!(list.len(), 2);
    assert_eq!(list[0].key, "AB-1");
    assert_eq!(list[1].key, "AB-3");
}

#[test]
fn remove_missing_key_is_not_found() {
    let mut store = TrackerStore::new();
    let r = store.remove("AB-9", clock(0).mono_nanos);
    assert!(matches!(r, Err(TrackerError::NotFoundError)));
}

#[test]
fn remove_all_returns_every_tracker_in_order() {
    let mut store = TrackerStore::new();
    store.create_tracker("AB-1", clock(0)).unwrap();
    store.create_tracker("AB-2", clock(10)).unwrap();
    let removed = store.remove_all(clock(30).mono_nanos);
    assert_eq!(removed.len(), 2);
    assert_eq!(removed[0].duration.nanos, 10 * 1_000_000_000);
    assert_eq!(removed[1].duration.nanos, 20 * 1_000_000_000);
    assert_eq!(store.list_trackers(clock(30).mono_nanos).len(), 0);
    assert!(store.current(clock(30).mono_nanos).is_err());
}

#[test]
fn sum_adds_reported_durations() {
    let mut store = TrackerStore::new();
    store.create_tracker("AB-1", clock(0)).unwrap();
    store.create_tracker("AB-2", clock(10)).unwrap();
    // AB-1 banked 10s; AB-2 live 20s at t=30
    let total = store.sum(clock(30).mono_nanos);
    assert_eq!(total.nanos, 30 * 1_000_000_000);
}

#[test]
fn adjust_dispatches_all_three_requests() {
    let mut store = TrackerStore::new();
    store.create_tracker("AB-1", clock(0)).unwrap();
    store.pause(clock(10).mono_nanos);
    let d = store
        .adjust(
            "AB-1",
            AdjustRequest::SetDescription(Some("work".to_string())),
            clock(10).mono_nanos,
        )
        .unwrap();
    assert_eq!(d.description.as_deref(), Some("work"));
    let p = store
        .adjust(
            "AB-1",
            AdjustRequest::PositiveDuration(Dur::from_secs(5)),
            clock(10).mono_nanos,
        )
        .unwrap();
    assert_eq!(p.duration.nanos, 15 * 1_000_000_000);
    let n = store
        .adjust(
            "AB-1",
            AdjustRequest::NegativeDuration(Dur::from_secs(1)),
            clock(10).mono_nanos,
        )
        .unwrap();
    assert_eq!(n.duration.nanos, 14 * 1_000_000_000);
    let over = store.adjust(
        "AB-1",
        AdjustRequest::NegativeDuration(Dur::from_secs(100)),
        clock(10).mono_nanos,
    );
    assert!(matches!(over, Err(TrackerError::DurationAdjustmentError)));
}

#[test]
fn error_kinds_map_to_status_codes() {
    assert_eq!(TrackerError::KeyFormatError.http_status(), 400);
    assert_eq!(TrackerError::OccupiedError.http_status(), 409);
    assert_eq!(TrackerError::NotFoundError.http_status(), 404);
    assert_eq!(TrackerError::DurationAdjustmentError.http_status(), 400);
}

#[test]
fn reported_duration_is_truncated_to_whole_seconds() {
    let mut store = TrackerStore::new();
    store.create_tracker("AB-1", clock(0)).unwrap();
    let sample = ClockSample {
        mono_nanos: 65 * 1_000_000_000 + 900_000_000,
        wall_nanos: 0,
        wall_time: wall(),
    };
    let got = store.get_tracker("AB-1", sample.mono_nanos).unwrap();
    assert_eq!(got.duration.nanos, 65 * 1_000_000_000);
    // full precision keeps the fraction
    let exact = store.elapsed("AB-1", sample.mono_nanos).unwrap();
    assert_eq!(exact.nanos, 65 * 1_000_000_000 + 900_000_000);
}
