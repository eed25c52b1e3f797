use issue_viewer::github::{
    issue_page_from_response, GitHubError, GqlData, GqlIssue, GqlIssues, GqlPage, GqlParent,
    GqlRate, GqlRepo, GqlResponse, status_error,
};
use issue_viewer::model::IssueState;

fn issue(n: u64, title: &str, body: &str, state: &str, at: &str, parent: Option<u64>) -> GqlIssue {
    GqlIssue {
        number: n,
        title: title.into(),
        body: body.into(),
        state: state.into(),
        created_at: Some(at.into()),
        updated_at: at.into(),
        parent: parent.map(|number| GqlParent { number }),
    }
}

#[test]
fn parses_parent_number() {
    let resp = GqlResponse {
        data: Some(GqlData {
            rate_limit: Some(GqlRate { remaining: 4990, cost: Some(1) }),
            repository: Some(GqlRepo {
                issues: GqlIssues {
                    nodes: vec![
                        issue(1, "parent", "hello", "OPEN", "2026-01-01T00:00:00Z", None),
                        issue(2, "child", "world", "CLOSED", "2026-01-02T00:00:00Z", Some(1)),
                    ],
                    page_info: GqlPage { has_next_page: false, end_cursor: None },
                },
            }),
        }),
    };
    let page = issue_page_from_response(&resp);
    assert!(!page.has_next);
    assert_eq!(page.rate_remaining, Some(4990));
    assert_eq!(page.rate_cost, Some(1));
    assert_eq!(page.rows[1].parent_number, Some(1));
    assert_eq!(page.rows[1].body, "world");
    assert_eq!(page.rows[1].state, IssueState::Closed);
    assert_eq!(page.rows[0].created_at, "2026-01-01T00:00:00Z");
}

#[test]
fn missing_repository_gives_empty_page_with_rate() {
    let resp = GqlResponse {
        data: Some(GqlData { rate_limit: Some(GqlRate { remaining: 3, cost: None }), repository: None }),
    };
    let page = issue_page_from_response(&resp);
    assert!(page.rows.is_empty());
    assert!(!page.has_next);
    assert_eq!(page.end_cursor, None);
    assert_eq!(page.rate_remaining, Some(3));
    assert_eq!(page.rate_cost, None);
    let page = issue_page_from_response(&GqlResponse { data: None });
    assert!(page.rows.is_empty());
    assert_eq!(page.rate_remaining, None);
}

#[test]
fn state_is_case_insensitive_and_created_defaults_empty() {
    let mut n = issue(9, "t", "", "closed", "x", None);
    n.created_at = None;
    let resp = GqlResponse {
        data: Some(GqlData {
            rate_limit: None,
            repository: Some(GqlRepo {
                issues: GqlIssues {
                    nodes: vec![n, issue(10, "u", "", "Open", "y", None)],
                    page_info: GqlPage { has_next_page: true, end_cursor: Some("c1".into()) },
                },
            }),
        }),
    };
    let page = issue_page_from_response(&resp);
    assert_eq!(page.rows[0].state, IssueState::Closed);
    assert_eq!(page.rows[0].created_at, "");
    assert_eq!(page.rows[1].state, IssueState::Open);
    assert!(page.has_next);
    assert_eq!(page.end_cursor.as_deref(), Some("c1"));
}

#[test]
fn error_messages() {
    assert_eq!(GitHubError::Http("timeout".into()).message(), "http: timeout");
    assert_eq!(GitHubError::Auth.message(), "auth required");
}

#[test]
fn http_status_maps_to_errors() {
    assert!(matches!(status_error(401), Some(GitHubError::Auth)));
    match status_error(403) {
        Some(GitHubError::Http(m)) => assert_eq!(m, "rate_limited"),
        other => panic!("{other:?}"),
    }
    assert!(status_error(200).is_none());
    assert!(status_error(404).is_none());
}
