//! The cached issue row and its open/closed state.
use vstd::prelude::*;

use crate::text::{ascii_lower, chars_eq, chars_of, lower_all};

verus! {

/// Whether an issue is open or closed on GitHub.
#[derive(Clone, Copy, Debug, PartialEq, Eq, Structural)]
pub enum IssueState {
    Open,
    Closed,
}

/// One issue of a repository, as the local cache stores it.
#[derive(Clone, Debug, PartialEq, Eq)]
pub struct IssueRow {
    pub number: u64,
    pub title: String,
    pub body: String,
    pub state: IssueState,
    pub parent_number: Option<u64>,
    pub created_at: String,
    pub updated_at: String,
}

impl IssueRow {
    /// A field-by-field copy of this row.
    pub fn duplicate(&self) -> (r: IssueRow)
        ensures
            r == *self,
    {
        IssueRow {
            number: self.number,
            title: self.title.clone(),
            body: self.body.clone(),
            state: self.state,
            parent_number: self.parent_number,
            created_at: self.created_at.clone(),
            updated_at: self.updated_at.clone(),
        }
    }
}

/// The text under which the cache stores a state.
pub open spec fn state_text_spec(s: IssueState) -> Seq<char> {
    match s {
        IssueState::Open => seq!['o', 'p', 'e', 'n'],
        IssueState::Closed => seq!['c', 'l', 'o', 's', 'e', 'd'],
    }
}

/// The state that a stored text stands for: `"closed"` is closed, any other
/// text is open.
pub open spec fn state_from_text_spec(t: Seq<char>) -> IssueState {
    if t == seq!['c', 'l', 'o', 's', 'e', 'd'] {
        IssueState::Closed
    } else {
        IssueState::Open
    }
}

/// The state that GitHub's GraphQL `state` field stands for: `CLOSED`, in any
/// ASCII case, is closed; any other text is open.
pub open spec fn state_from_graphql_spec(t: Seq<char>) -> IssueState {
    if ascii_lower(t) == seq!['c', 'l', 'o', 's', 'e', 'd'] {
        IssueState::Closed
    } else {
        IssueState::Open
    }
}

/// The text under which the cache stores `s`: `"open"` or `"closed"`.
pub fn state_text(s: IssueState) -> (r: String)
    ensures
        r@ == state_text_spec(s),
{
    match s {
        IssueState::Open => {
            let v = vec!['o', 'p', 'e', 'n'];
            crate::text::string_from_chars(v.as_slice())
        },
        IssueState::Closed => {
            let v = vec!['c', 'l', 'o', 's', 'e', 'd'];
            crate::text::string_from_chars(v.as_slice())
        },
    }
}

/// The state that a stored text stands for.
pub fn state_from_text(t: &str) -> (r: IssueState)
    ensures
        r == state_from_text_spec(t@),
{
    let cs = chars_of(t);
    let closed = vec!['c', 'l', 'o', 's', 'e', 'd'];
    if chars_eq(cs.as_slice(), closed.as_slice()) {
        IssueState::Closed
    } else {
        IssueState::Open
    }
}

/// The state that GitHub's GraphQL `state` field stands for
/// (`eq_ignore_ascii_case("CLOSED")`).
pub fn state_from_graphql(t: &str) -> (r: IssueState)
    ensures
        r == state_from_graphql_spec(t@),
{
    let cs = chars_of(t);
    let l = lower_all(cs.as_slice());
    let closed = vec!['c', 'l', 'o', 's', 'e', 'd'];
    if chars_eq(l.as_slice(), closed.as_slice()) {
        IssueState::Closed
    } else {
        IssueState::Open
    }
}

/// Reading back a stored state gives the state that was stored.
pub proof fn lemma_state_text_roundtrip(s: IssueState)
    ensures
        state_from_text_spec(state_text_spec(s)) == s,
{
    if s == IssueState::Open {
        assert(seq!['o', 'p', 'e', 'n'] != seq!['c', 'l', 'o', 's', 'e', 'd']) by {
            assert(seq!['o', 'p', 'e', 'n'].len() == 4);
        }
    }
}

} // verus!
