use playlist_sync::engine::{SyncCounts, SyncStatus};
use playlist_sync::journal::{JournalError, OperationKind, SyncJournal};
use playlist_sync::scheduler::{
    effective_period, Scheduler, TaskStep, WatcherTask, MIN_PERIOD_SECONDS, QUARANTINE_THRESHOLD,
};

#[test]
fn period_below_minimum_is_clamped() {
    // A watcher created with a 30 second period actually runs at the
    // 300 second minimum.
    assert_eq!(effective_period(30), 300);
    assert_eq!(effective_period(-5), 300);
    assert_eq!(effective_period(300), 300);
    assert_eq!(effective_period(3600), 3600);
    assert!(effective_period(30) >= MIN_PERIOD_SECONDS);
}

#[test]
fn five_consecutive_failures_quarantine_the_watcher() {
    let mut task = WatcherTask::start(9);
    for _ in 0..QUARANTINE_THRESHOLD {
        assert_eq!(task.next_tick(), TaskStep::RunSync);
        task.record_run(SyncStatus::Failed);
    }
    assert!(!task.active);
    assert_eq!(task.next_tick(), TaskStep::Exit);

    // Only an explicit start brings the watcher back.
    let restarted = WatcherTask::start(9);
    assert_eq!(restarted.next_tick(), TaskStep::RunSync);
}

#[test]
fn a_success_resets_the_failure_counter() {
    let mut task = WatcherTask::start(4);
    task.record_run(SyncStatus::Failed);
    task.record_run(SyncStatus::Failed);
    task.record_run(SyncStatus::CompletedWithErrors);
    assert_eq!(task.consecutive_failures, 0);
    assert!(task.active);
}

#[test]
fn stop_marks_the_task_and_start_is_idempotent() {
    let mut sched = Scheduler::new();
    assert!(sched.start(1));
    assert!(!sched.start(1));
    assert!(sched.start(2));
    assert!(sched.stop(1));
    let i = sched.find_task(1).unwrap();
    assert!(sched.tasks[i].cancelled);
    assert_eq!(sched.tasks[i].next_tick(), TaskStep::Exit);
    assert!(sched.remove_task(1));
    assert!(!sched.stop(1));
}

#[test]
fn one_pending_row_per_watcher() {
    let mut journal = SyncJournal::new();
    let id = journal.begin(7, OperationKind::AutoSync, 1000).unwrap();
    assert_eq!(
        journal.begin(7, OperationKind::ManualSync, 1001),
        Err(JournalError::PendingExists)
    );
    // Another watcher is free to start.
    assert!(journal.begin(8, OperationKind::AutoSync, 1002).is_ok());
    let counts = SyncCounts { songs_added: 2, songs_removed: 1, songs_failed: 0 };
    journal.finish(id, SyncStatus::Completed, counts, None, 1100).unwrap();
    // Once terminal the watcher may begin again, and the row is immutable.
    assert!(journal.begin(7, OperationKind::AutoSync, 1200).is_ok());
    assert_eq!(
        journal.finish(id, SyncStatus::Failed, counts, None, 1300),
        Err(JournalError::RowImmutable)
    );
}

#[test]
fn finished_rows_carry_counts_and_completion_time() {
    let mut journal = SyncJournal::new();
    let id = journal.begin(3, OperationKind::ManualSync, 50).unwrap();
    let counts = SyncCounts { songs_added: 5, songs_removed: 2, songs_failed: 1 };
    journal
        .finish(id, SyncStatus::CompletedWithErrors, counts, Some("partial".to_string()), 75)
        .unwrap();
    let rows = journal.query_by_watcher(3, 10, 0);
    assert_eq!(rows.len(), 1);
    assert_eq!(rows[0].songs_added, 5);
    assert_eq!(rows[0].songs_removed, 2);
    assert_eq!(rows[0].songs_failed, 1);
    assert_eq!(rows[0].status, SyncStatus::CompletedWithErrors);
    assert_eq!(rows[0].completed_at, Some(75));
    assert_eq!(rows[0].started_at, 50);
}

#[test]
fn history_is_newest_first_and_paged() {
    let mut journal = SyncJournal::new();
    let counts = SyncCounts { songs_added: 0, songs_removed: 0, songs_failed: 0 };
    for n in 0..4 {
        let id = journal.begin(1, OperationKind::AutoSync, 100 + n).unwrap();
        journal.finish(id, SyncStatus::Completed, counts, None, 110 + n).unwrap();
    }
    let all = journal.query_by_watcher(1, 10, 0);
    assert_eq!(all.len(), 4);
    assert!(all[0].started_at > all[1].started_at);
    assert_eq!(all[0].started_at, 103);
    let page = journal.query_by_watcher(1, 2, 1);
    assert_eq!(page.len(), 2);
    assert_eq!(page[0].started_at, 102);
    assert_eq!(page[1].started_at, 101);
}

#[test]
fn orphaned_pending_rows_are_reaped() {
    let mut journal = SyncJournal::new();
    let old_id = journal.begin(1, OperationKind::AutoSync, 100).unwrap();
    let _fresh = journal.begin(2, OperationKind::AutoSync, 5000).unwrap();
    let reaped = journal.reap_orphans(3000, 6000);
    assert_eq!(reaped, 1);
    let rows = journal.query_by_watcher(1, 10, 0);
    assert_eq!(rows[0].id, old_id);
    assert_eq!(rows[0].status, SyncStatus::Failed);
    assert_eq!(rows[0].error_message.as_deref(), Some("interrupted"));
    assert_eq!(rows[0].completed_at, Some(6000));
    // The fresh pending row is untouched.
    let fresh_rows = journal.query_by_watcher(2, 10, 0);
    assert_eq!(fresh_rows[0].status, SyncStatus::Pending);
}
