use jira_tracker::dur::Dur;
use jira_tracker::jira::{worklog_entry, worklogs_to_submit};
use jira_tracker::menu::{entries_from, entry_label, Entry};
use jira_tracker::stopwatch::Stopwatch;
use jira_tracker::tracker::TrackerInformation;
use jira_tracker::wall::WallTime;
use jira_tracker::watcher::{event_triggers_reload, WatchEventKind};

fn wall() -> WallTime {
    WallTime {
        year: 2024,
        month: 3,
        day: 15,
        hour: 9,
        minute: 30,
        second: 0,
        off_neg: false,
        off_hour: 2,
        off_minute: 0,
    }
}

fn info(key: &str, secs: u64, running: bool) -> TrackerInformation {
    TrackerInformation {
        key: key.to_string(),
        description: None,
        duration: Dur::from_secs(secs),
        running,
        start_time: wall(),
    }
}

#[test]
fn stopwatch_banks_segments() {
    let mut watch = Stopwatch::new_and_start(10 * 1_000_000_000);
    assert_eq!(
        watch.total_elapsed(25 * 1_000_000_000).nanos,
        15 * 1_000_000_000
    );
    watch.pause(25 * 1_000_000_000);
    // frozen while paused, whatever the clock says
    assert_eq!(
        watch.total_elapsed(99 * 1_000_000_000).nanos,
        15 * 1_000_000_000
    );
    watch.start(100 * 1_000_000_000);
    assert_eq!(
        watch.total_elapsed(101 * 1_000_000_000).nanos,
        16 * 1_000_000_000
    );
    let truncated = watch.total_elapsed_seconds(101 * 1_000_000_000 + 900_000_000);
    assert_eq!(truncated.nanos, 16 * 1_000_000_000);
}

#[test]
fn fresh_stopwatch_reads_zero() {
    let watch = Stopwatch::new();
    assert_eq!(watch.total_elapsed(42).nanos, 0);
}

#[test]
fn reload_fires_only_for_settled_writes_on_the_watched_file() {
    let watched = "/home/u/state.json";
    let hit = vec!["/tmp/x".to_string(), watched.to_string()];
    let miss = vec!["/tmp/x".to_string()];
    assert!(event_triggers_reload(
        WatchEventKind::CloseWrite,
        &hit,
        watched
    ));
    assert!(event_triggers_reload(
        WatchEventKind::RenameInto,
        &hit,
        watched
    ));
    assert!(!event_triggers_reload(WatchEventKind::Other, &hit, watched));
    assert!(!event_triggers_reload(
        WatchEventKind::CloseWrite,
        &miss,
        watched
    ));
    assert!(!event_triggers_reload(
        WatchEventKind::CloseWrite,
        &Vec::new(),
        watched
    ));
}

#[test]
fn menu_lists_trackers_then_actions() {
    let trackers = vec![info("AB-1", 60, false), info("AB-2", 0, true)];
    let entries = entries_from(trackers);
    assert_eq!(entries.len(), 5);
    assert_eq!(entry_label(&entries[0]), "AB-1");
    assert_eq!(entry_label(&entries[1]), "AB-2");
    assert_eq!(entry_label(&entries[2]), "Add New");
    assert_eq!(entry_label(&entries[3]), "Refresh issues");
    assert_eq!(entry_label(&entries[4]), "Submit");
    assert!(matches!(entries[2], Entry::NewTracker));
    assert!(matches!(entries[3], Entry::Refresh));
    assert!(matches!(entries[4], Entry::Submit));
}

#[test]
fn worklog_entry_splits_the_start_stamp() {
    let mut t = info("AB-1", 125, false);
    t.description = Some("wrote docs".to_string());
    let entry = worklog_entry(&t, "account-77");
    assert_eq!(entry.issue_key, "AB-1");
    assert_eq!(entry.time_spent_seconds, 125);
    assert_eq!(entry.start_date, "2024-03-15");
    assert_eq!(entry.start_time, "09:30:00");
    assert_eq!(entry.description.as_deref(), Some("wrote docs"));
    assert_eq!(entry.author_account_id, "account-77");
}

#[test]
fn submission_skips_trackers_under_a_minute() {
    let trackers = vec![
        info("AB-1", 59, false),
        info("AB-2", 60, false),
        info("AB-3", 3000, true),
    ];
    let logs = worklogs_to_submit(&trackers, "account-77");
    assert_eq!(logs.len(), 2);
    assert_eq!(logs[0].issue_key, "AB-2");
    assert_eq!(logs[1].issue_key, "AB-3");
    assert_eq!(logs[1].time_spent_seconds, 3000);
}

#[test]
fn saturating_duration_arithmetic() {
    let a = Dur::from_nanos(u64::MAX - 5);
    let b = Dur::from_nanos(10);
    assert_eq!(a.saturating_add(b).nanos, u64::MAX);
    assert_eq!(b.saturating_sub(a).nanos, 0);
    assert_eq!(Dur::from_secs(2).as_secs(), 2);
    assert_eq!(
        Dur::from_nanos(1_999_999_999).truncated_to_secs().nanos,
        1_000_000_000
    );
}
