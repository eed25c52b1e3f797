//! Refreshing a repository's cached issues: which pages to ask for, and
//! whether the fetched rows replace the cache or are merged into it.
use vstd::prelude::*;

use crate::github::IssuePage;
use crate::model::IssueRow;
use crate::text::{decimal, decimal_string, opt_view, owned};

verus! {

/// How the fetched rows go into the cache.
#[derive(Clone, Copy, Debug, PartialEq, Eq, Structural)]
pub enum SyncMode {
    /// The repository had no cached rows: the fetched rows become the cache.
    Replace,
    /// Rows with the fetched numbers are overwritten, other rows stay.
    Upsert,
}

/// One refresh of a repository in progress.
pub struct SyncRun {
    /// Only issues updated at or after this time are fetched; `None` fetches
    /// all issues.
    pub since: Option<String>,
    /// The page cursor for the next request.
    pub cursor: Option<String>,
    /// The rows fetched so far, in page order.
    pub rows: Vec<IssueRow>,
    /// No page is left to fetch.
    pub finished: bool,
    /// The repository had cached rows when the refresh started.
    pub had_rows: bool,
}

/// The newest cached update time, as the cache reports it: an empty text
/// counts as none.
pub fn newest_cached(value: Option<String>) -> (r: Option<String>)
    ensures
        opt_view(r) == match opt_view(value) {
            Some(v) => if v.len() == 0 {
                None
            } else {
                Some(v)
            },
            None => None,
        },
{
    match value {
        Some(v) => if v.as_str().is_empty() {
            assert(v@.len() == 0);
            None
        } else {
            assert(v@.len() != 0);
            Some(v)
        },
        None => None,
    }
}

/// The last-synced stamp: the seconds since the Unix epoch in decimal, or
/// `0` when the clock is before the epoch.
pub fn synced_stamp(now_secs: Option<u64>) -> (r: String)
    ensures
        r@ == match now_secs {
            Some(s) => decimal(s as nat),
            None => "0"@,
        },
{
    match now_secs {
        Some(s) => decimal_string(s),
        None => owned("0"),
    }
}

impl SyncRun {
    /// A refresh of a repository that has cached rows or not (`had_rows`)
    /// and whose newest cached update time is `newest`: it fetches the issues
    /// updated since then, or all issues when there is no such time, starting
    /// at the first page.
    pub fn start(had_rows: bool, newest: Option<String>) -> (r: SyncRun)
        ensures
            r.since == newest,
            r.had_rows == had_rows,
            r.cursor is None,
            r.rows@.len() == 0,
            !r.finished,
    {
        SyncRun { since: newest, cursor: None, rows: Vec::new(), finished: false, had_rows }
    }

    /// How the fetched rows go into the cache: they replace it only when the
    /// repository had no cached rows, and are merged into the cached rows
    /// otherwise (whatever the newest cached time was).
    pub fn mode(&self) -> (r: SyncMode)
        ensures
            r == if self.had_rows {
                SyncMode::Upsert
            } else {
                SyncMode::Replace
            },
    {
        if self.had_rows {
            SyncMode::Upsert
        } else {
            SyncMode::Replace
        }
    }

    /// Takes in the next fetched page: its rows follow the rows fetched
    /// before; when it has a next page the cursor moves to its end, and
    /// otherwise the refresh is finished.
    pub fn take_page(&mut self, page: IssuePage)
        requires
            !old(self).finished,
        ensures
            final(self).rows@ == old(self).rows@ + page.rows@,
            final(self).since == old(self).since,
            final(self).had_rows == old(self).had_rows,
            final(self).finished == !page.has_next,
            page.has_next ==> final(self).cursor == page.end_cursor,
            !page.has_next ==> final(self).cursor == old(self).cursor,
    {
        let IssuePage { rows, has_next, end_cursor, rate_remaining: _, rate_cost: _ } = page;
        let mut rows = rows;
        self.rows.append(&mut rows);
        if has_next {
            self.cursor = end_cursor;
        } else {
            self.finished = true;
        }
    }
}

} // verus!
