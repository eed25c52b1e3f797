use issue_viewer::filter::{apply, matches_query, state_flags_from_query, SortDir, SortKey};
use issue_viewer::model::{IssueRow, IssueState};

fn row(n: u64, title: &str, state: IssueState, created: &str, updated: &str) -> IssueRow {
    IssueRow {
        number: n,
        title: title.into(),
        body: String::new(),
        state,
        parent_number: None,
        created_at: created.into(),
        updated_at: updated.into(),
    }
}

#[test]
fn is_open_hides_closed() {
    let rows = vec![
        row(1, "a", IssueState::Open, "1", "1"),
        row(2, "b", IssueState::Closed, "1", "1"),
    ];
    let got = apply(&rows, "is:open", true, true, SortKey::Updated, SortDir::Desc);
    assert_eq!(got.len(), 1);
    assert_eq!(got[0].number, 1);
}

#[test]
fn foo_matches_title() {
    let rows = vec![
        row(1, "hello foo", IssueState::Open, "1", "1"),
        row(2, "bar", IssueState::Open, "1", "1"),
    ];
    let got = apply(&rows, "foo", true, false, SortKey::Updated, SortDir::Desc);
    assert_eq!(got.len(), 1);
    assert_eq!(got[0].number, 1);
}

#[test]
fn hash_number_matches() {
    let rows = vec![
        row(1, "a", IssueState::Open, "1", "1"),
        row(2, "b", IssueState::Open, "1", "1"),
    ];
    let got = apply(&rows, "#2", true, false, SortKey::Updated, SortDir::Desc);
    assert_eq!(got.len(), 1);
    assert_eq!(got[0].number, 2);
}

#[test]
fn updated_desc_orders_later_first() {
    let rows = vec![
        row(1, "a", IssueState::Open, "2026-01-01T00:00:00Z", "2026-01-01T00:00:00Z"),
        row(2, "b", IssueState::Open, "2026-01-01T00:00:00Z", "2026-02-01T00:00:00Z"),
    ];
    let got = apply(&rows, "", true, false, SortKey::Updated, SortDir::Desc);
    assert_eq!(got[0].number, 2);
    assert_eq!(got[1].number, 1);
}

#[test]
fn last_state_word_wins_and_is_case_insensitive() {
    assert_eq!(state_flags_from_query("is:open IS:CLOSED", true, false), (false, true));
    assert_eq!(state_flags_from_query("Is:Closed is:open", false, true), (true, false));
}

#[test]
fn both_boxes_unchecked_show_both() {
    assert_eq!(state_flags_from_query("foo", false, false), (true, true));
    assert_eq!(state_flags_from_query("", true, false), (true, false));
    assert_eq!(state_flags_from_query("", false, true), (false, true));
}

#[test]
fn query_words_all_must_match_ignoring_case() {
    let r = row(7, "Fix Login Crash", IssueState::Open, "1", "1");
    assert!(matches_query(&r, "login  CRASH"));
    assert!(!matches_query(&r, "login logout"));
    assert!(matches_query(&r, "is:closed"));
    assert!(matches_query(&r, "   "));
}

#[test]
fn number_words_match_the_number_only() {
    let r = row(42, "issue 7 of 42", IssueState::Open, "1", "1");
    assert!(matches_query(&r, "42"));
    assert!(matches_query(&r, "+42"));
    assert!(matches_query(&r, "#42"));
    assert!(!matches_query(&r, "7"));
    assert!(!matches_query(&r, "#7"));
    assert!(!matches_query(&r, "#"));
    assert!(matches_query(&r, "of"));
}

#[test]
fn created_asc_then_number_breaks_ties() {
    let rows = vec![
        row(3, "c", IssueState::Open, "2026-01-02", "x"),
        row(2, "b", IssueState::Open, "2026-01-01", "x"),
        row(1, "a", IssueState::Open, "2026-01-02", "x"),
    ];
    let got = apply(&rows, "", true, true, SortKey::Created, SortDir::Asc);
    let order: Vec<u64> = got.iter().map(|r| r.number).collect();
    assert_eq!(order, vec![2, 1, 3]);
    let got = apply(&rows, "", true, true, SortKey::Created, SortDir::Desc);
    let order: Vec<u64> = got.iter().map(|r| r.number).collect();
    assert_eq!(order, vec![1, 3, 2]);
}

#[test]
fn equal_rows_keep_their_input_order() {
    let rows = vec![
        row(5, "first", IssueState::Open, "t", "t"),
        row(5, "second", IssueState::Open, "t", "t"),
    ];
    let got = apply(&rows, "", true, true, SortKey::Updated, SortDir::Desc);
    assert_eq!(got[0].title, "first");
    assert_eq!(got[1].title, "second");
}

#[test]
fn closed_filter_and_title_word_combine() {
    let rows = vec![
        row(1, "crash on start", IssueState::Closed, "1", "1"),
        row(2, "crash on exit", IssueState::Open, "1", "1"),
        row(3, "slow", IssueState::Closed, "1", "1"),
    ];
    let got = apply(&rows, "is:closed crash", true, false, SortKey::Updated, SortDir::Asc);
    assert_eq!(got.len(), 1);
    assert_eq!(got[0].number, 1);
}

#[test]
fn descending_is_ascending_reversed_for_distinct_times() {
    let rows = vec![
        row(1, "a", IssueState::Open, "2026-01-03", "2026-02-01"),
        row(2, "b", IssueState::Closed, "2026-01-01", "2026-02-03"),
        row(3, "c", IssueState::Open, "2026-01-02", "2026-02-02"),
    ];
    for key in [SortKey::Created, SortKey::Updated] {
        let asc = apply(&rows, "", true, true, key, SortDir::Asc);
        let mut desc = apply(&rows, "", true, true, key, SortDir::Desc);
        desc.reverse();
        assert_eq!(desc, asc);
    }
    let asc = apply(&rows, "", true, true, SortKey::Created, SortDir::Asc);
    let nums: Vec<u64> = asc.iter().map(|r| r.number).collect();
    assert_eq!(nums, vec![2, 3, 1]);
}

#[test]
fn equal_times_stand_by_number_in_both_directions() {
    let rows = vec![
        row(2, "b", IssueState::Open, "1", "1"),
        row(1, "a", IssueState::Open, "1", "1"),
    ];
    let asc = apply(&rows, "", true, true, SortKey::Updated, SortDir::Asc);
    let desc = apply(&rows, "", true, true, SortKey::Updated, SortDir::Desc);
    assert_eq!(asc[0].number, 1);
    assert_eq!(desc[0].number, 1);
}

#[test]
fn space_joined_query_is_both_queries() {
    let rows = vec![
        row(7, "Crash on start", IssueState::Open, "1", "1"),
        row(8, "crash report", IssueState::Closed, "1", "1"),
        row(9, "slow start", IssueState::Open, "1", "1"),
    ];
    for r in &rows {
        for (q1, q2) in [("crash", "start"), ("#7", "crash"), ("is:open", "slow"), ("", "8")] {
            let joined = format!("{q1} {q2}");
            assert_eq!(
                matches_query(r, &joined),
                matches_query(r, q1) && matches_query(r, q2),
                "{joined}"
            );
        }
    }
    assert!(matches_query(&rows[0], "crash start"));
    assert!(!matches_query(&rows[1], "crash start"));
}
