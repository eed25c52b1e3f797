use issue_viewer::github::IssuePage;
use issue_viewer::sync::{newest_cached, synced_stamp, SyncMode, SyncRun};
use issue_viewer::tree::sample;

fn page(numbers: &[u64], next: Option<&str>) -> IssuePage {
    IssuePage {
        rows: numbers.iter().map(|n| sample(*n, None, "t")).collect(),
        has_next: next.is_some(),
        end_cursor: next.map(|s| s.to_string()),
        rate_remaining: None,
        rate_cost: None,
    }
}

#[test]
fn pages_concatenate_in_order() {
    let mut run = SyncRun::start(false, None);
    assert_eq!(run.cursor, None);
    run.take_page(page(&[1], Some("c1")));
    assert!(!run.finished);
    assert_eq!(run.cursor.as_deref(), Some("c1"));
    run.take_page(page(&[2, 3], None));
    assert!(run.finished);
    let numbers: Vec<u64> = run.rows.iter().map(|r| r.number).collect();
    assert_eq!(numbers, vec![1, 2, 3]);
    assert_eq!(run.mode(), SyncMode::Replace);
}

#[test]
fn refresh_since_newest_upserts() {
    let run = SyncRun::start(true, Some("2026-01-01T00:00:00Z".into()));
    assert_eq!(run.since.as_deref(), Some("2026-01-01T00:00:00Z"));
    assert_eq!(run.mode(), SyncMode::Upsert);
}

#[test]
fn cached_rows_without_newest_time_are_kept() {
    let mut run = SyncRun::start(true, newest_cached(Some(String::new())));
    assert_eq!(run.since, None);
    run.take_page(page(&[5], None));
    assert_eq!(run.mode(), SyncMode::Upsert);
}

#[test]
fn empty_newest_counts_as_none() {
    assert_eq!(newest_cached(Some(String::new())), None);
    assert_eq!(newest_cached(None), None);
    assert_eq!(newest_cached(Some("x".into())).as_deref(), Some("x"));
}

#[test]
fn stamp_is_decimal_seconds() {
    assert_eq!(synced_stamp(Some(1789795222)), "1789795222");
    assert_eq!(synced_stamp(Some(0)), "0");
    assert_eq!(synced_stamp(None), "0");
    assert_eq!(synced_stamp(Some(u64::MAX)), "18446744073709551615");
}
