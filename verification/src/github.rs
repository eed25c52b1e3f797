//! GitHub: the issue page a GraphQL query returns, the client interface, and
//! the error type.
use vstd::prelude::*;

use crate::model::{state_from_graphql, state_from_graphql_spec, IssueRow};
use crate::text::{owned, push_text};

verus! {

/// One page of a repository's issues, with the API rate that is left.
#[derive(Debug, Clone, Default)]
pub struct IssuePage {
    pub rows: Vec<IssueRow>,
    pub has_next: bool,
    pub end_cursor: Option<String>,
    pub rate_remaining: Option<u32>,
    pub rate_cost: Option<u32>,
}

/// Why a call to GitHub failed.
#[derive(Debug)]
pub enum GitHubError {
    Http(String),
    Auth,
}

/// The message of an error: `http: ` and the cause, or `auth required`.
pub open spec fn error_message(e: GitHubError) -> Seq<char> {
    match e {
        GitHubError::Http(m) => "http: "@ + m@,
        GitHubError::Auth => "auth required"@,
    }
}

impl GitHubError {
    /// The text that describes this error.
    pub fn message(&self) -> (r: String)
        ensures
            r@ == error_message(*self),
    {
        match self {
            GitHubError::Http(m) => {
                let mut s = owned("http: ");
                push_text(&mut s, m.as_str());
                s
            },
            GitHubError::Auth => owned("auth required"),
        }
    }
}

/// The error that an HTTP status of GitHub's API stands for: 401 asks for a
/// new sign-in, 403 means the rate limit was hit (`http: rate_limited`); any
/// other status is no error of its own.
pub fn status_error(status: u16) -> (r: Option<GitHubError>)
    ensures
        match r {
            Some(GitHubError::Auth) => status == 401,
            Some(GitHubError::Http(m)) => status == 403 && m@ == "rate_limited"@,
            None => status != 401 && status != 403,
        },
{
    if status == 401 {
        Some(GitHubError::Auth)
    } else if status == 403 {
        Some(GitHubError::Http(owned("rate_limited")))
    } else {
        None
    }
}

/// A repository the user can access.
#[derive(Clone, Debug)]
pub struct RepoRef {
    pub owner: String,
    pub name: String,
}

/// Access to GitHub's repositories and issues.
pub trait GitHubClient {
    /// The repositories the user can access.
    fn list_repos(&self) -> Result<Vec<RepoRef>, GitHubError>;

    /// One page of the issues of `owner/repo` updated at or after `since`,
    /// starting after `cursor`.
    fn fetch_issue_page(
        &self,
        owner: &str,
        repo: &str,
        cursor: Option<&str>,
        since: Option<&str>,
    ) -> Result<IssuePage, GitHubError>;
}

// ---------------------------------------------------------------------------
// The GraphQL answer, as plain values
// ---------------------------------------------------------------------------

/// The GraphQL response of the issues query.
#[derive(Debug)]
pub struct GqlResponse {
    pub data: Option<GqlData>,
}

#[derive(Debug)]
pub struct GqlData {
    pub rate_limit: Option<GqlRate>,
    pub repository: Option<GqlRepo>,
}

#[derive(Debug)]
pub struct GqlRate {
    pub remaining: u32,
    pub cost: Option<u32>,
}

#[derive(Debug)]
pub struct GqlRepo {
    pub issues: GqlIssues,
}

#[derive(Debug)]
pub struct GqlIssues {
    pub nodes: Vec<GqlIssue>,
    pub page_info: GqlPage,
}

#[derive(Debug)]
pub struct GqlPage {
    pub has_next_page: bool,
    pub end_cursor: Option<String>,
}

#[derive(Debug)]
pub struct GqlIssue {
    pub number: u64,
    pub title: String,
    pub body: String,
    pub state: String,
    pub created_at: Option<String>,
    pub updated_at: String,
    pub parent: Option<GqlParent>,
}

#[derive(Debug)]
pub struct GqlParent {
    pub number: u64,
}

/// `r` is the cached row for the GraphQL issue `n`: same number, title, body
/// and update time, the state that `n.state` stands for, the parent's number,
/// and the creation time or, without one, an empty text.
pub open spec fn row_from_gql(r: IssueRow, n: GqlIssue) -> bool {
    &&& r.number == n.number
    &&& r.title == n.title
    &&& r.body == n.body
    &&& r.state == state_from_graphql_spec(n.state@)
    &&& r.parent_number == match n.parent {
        Some(p) => Some(p.number),
        None => None,
    }
    &&& r.created_at@ == match n.created_at {
        Some(c) => c@,
        None => Seq::<char>::empty(),
    }
    &&& r.updated_at == n.updated_at
}

/// The remaining rate and the query's cost, when the answer has them.
pub open spec fn rate_of(resp: GqlResponse) -> (Option<u32>, Option<u32>) {
    match resp.data {
        Some(d) => match d.rate_limit {
            Some(rl) => (Some(rl.remaining), rl.cost),
            None => (None, None),
        },
        None => (None, None),
    }
}

/// `p` is the issue page of the GraphQL answer `resp`: the rate as the answer
/// gives it; without a repository, no rows and no next page; with one, a row
/// per issue node in order and the node list's page information.
pub open spec fn page_from_gql(p: IssuePage, resp: GqlResponse) -> bool {
    &&& (p.rate_remaining, p.rate_cost) == rate_of(resp)
    &&& match resp.data {
        Some(d) => match d.repository {
            Some(repo) => {
                &&& p.rows@.len() == repo.issues.nodes@.len()
                &&& forall|i: int|
                    0 <= i < p.rows@.len() ==> row_from_gql(#[trigger] p.rows@[i], repo.issues.nodes@[i])
                &&& p.has_next == repo.issues.page_info.has_next_page
                &&& p.end_cursor == repo.issues.page_info.end_cursor
            },
            None => p.rows@.len() == 0 && !p.has_next && p.end_cursor is None,
        },
        None => p.rows@.len() == 0 && !p.has_next && p.end_cursor is None,
    }
}

/// The cached row for one GraphQL issue node.
pub fn issue_row_from_gql(n: &GqlIssue) -> (r: IssueRow)
    ensures
        row_from_gql(r, *n),
{
    let state = state_from_graphql(n.state.as_str());
    let parent_number = match &n.parent {
        Some(p) => Some(p.number),
        None => None,
    };
    let created_at = match &n.created_at {
        Some(c) => c.clone(),
        None => String::new(),
    };
    IssueRow {
        number: n.number,
        title: n.title.clone(),
        body: n.body.clone(),
        state,
        parent_number,
        created_at,
        updated_at: n.updated_at.clone(),
    }
}

/// The issue page that a GraphQL answer describes.
pub fn issue_page_from_response(resp: &GqlResponse) -> (p: IssuePage)
    ensures
        page_from_gql(p, *resp),
{
    let (rate_remaining, rate_cost) = match &resp.data {
        Some(d) => match &d.rate_limit {
            Some(rl) => (Some(rl.remaining), rl.cost),
            None => (None, None),
        },
        None => (None, None),
    };
    let data = match &resp.data {
        Some(d) => d,
        None => {
            return IssuePage {
                rows: Vec::new(),
                has_next: false,
                end_cursor: None,
                rate_remaining,
                rate_cost,
            };
        },
    };
    let repo = match &data.repository {
        Some(r) => r,
        None => {
            return IssuePage {
                rows: Vec::new(),
                has_next: false,
                end_cursor: None,
                rate_remaining,
                rate_cost,
            };
        },
    };
    let nodes = &repo.issues.nodes;
    let mut rows: Vec<IssueRow> = Vec::new();
    let mut i: usize = 0;
    while i < nodes.len()
        invariant
            i <= nodes@.len(),
            rows@.len() == i,
            forall|j: int| 0 <= j < i ==> row_from_gql(#[trigger] rows@[j], nodes@[j]),
        decreases nodes@.len() - i,
    {
        let r = issue_row_from_gql(&nodes[i]);
        rows.push(r);
        i += 1;
    }
    let end_cursor = match &repo.issues.page_info.end_cursor {
        Some(c) => Some(c.clone()),
        None => None,
    };
    IssuePage {
        rows,
        has_next: repo.issues.page_info.has_next_page,
        end_cursor,
        rate_remaining,
        rate_cost,
    }
}

} // verus!
