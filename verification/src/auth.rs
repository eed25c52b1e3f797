//! Sign-in helpers: the OAuth device flow's payloads and polling decisions,
//! and reading a token from `gh auth token`.
use vstd::prelude::*;

use crate::text::{
    chars_of, has_prefix, line_pieces, opt_view, owned, split_line_pieces, string_from_chars,
    text_eq, trim, trim_chars,
};

verus! {

/// GitHub's answer to a device-code request.
#[derive(Debug, PartialEq, Eq)]
pub struct DeviceCode {
    pub device_code: String,
    pub user_code: String,
    pub verification_uri: String,
    pub expires_in: u64,
    pub interval: u64,
}

/// GitHub's answer to one poll for the access token.
#[derive(Debug)]
pub struct TokenResponse {
    pub access_token: Option<String>,
    pub error: Option<String>,
    pub interval: Option<u64>,
}

/// Whether the configured OAuth client id is missing: empty or the
/// placeholder `REPLACE_ME`.
pub fn is_placeholder_client_id(id: &str) -> (r: bool)
    ensures
        r == (id@.len() == 0 || id@ == "REPLACE_ME"@),
{
    id.is_empty() || text_eq(id, "REPLACE_ME")
}

/// What sign-in shows when no OAuth client id is configured.
pub open spec fn missing_client_id_message() -> Seq<char> {
    "Set GITHUB_CLIENT_ID in src/config.rs (OAuth App with Device Flow enabled)"@
}

/// The message that stops sign-in before any request, when the configured
/// client id is still the placeholder `REPLACE_ME`; `None` when sign-in may
/// go ahead.
pub fn login_precheck(client_id: &str) -> (r: Option<String>)
    ensures
        match r {
            Some(m) => client_id@ == "REPLACE_ME"@ && m@ == missing_client_id_message(),
            None => client_id@ != "REPLACE_ME"@,
        },
{
    if text_eq(client_id, "REPLACE_ME") {
        Some(owned("Set GITHUB_CLIENT_ID in src/config.rs (OAuth App with Device Flow enabled)"))
    } else {
        None
    }
}

/// The trimmed first piece of `ls` that is not blank.
pub open spec fn first_nonblank(ls: Seq<Seq<char>>) -> Option<Seq<char>>
    decreases ls.len(),
{
    if ls.len() == 0 {
        None
    } else if trim(ls[0]).len() > 0 {
        Some(trim(ls[0]))
    } else {
        first_nonblank(ls.drop_first())
    }
}

pub open spec fn gho_prefix() -> Seq<char> {
    seq!['g', 'h', 'o', '_']
}

pub open spec fn ghp_prefix() -> Seq<char> {
    seq!['g', 'h', 'p', '_']
}

pub open spec fn ghu_prefix() -> Seq<char> {
    seq!['g', 'h', 'u', '_']
}

pub open spec fn pat_prefix() -> Seq<char> {
    seq!['g', 'i', 't', 'h', 'u', 'b', '_', 'p', 'a', 't', '_']
}

/// `t` begins like a GitHub token: `gho_`, `ghp_`, `github_pat_` or `ghu_`.
pub open spec fn looks_like_token(t: Seq<char>) -> bool {
    ||| gho_prefix().is_prefix_of(t)
    ||| ghp_prefix().is_prefix_of(t)
    ||| pat_prefix().is_prefix_of(t)
    ||| ghu_prefix().is_prefix_of(t)
}

/// The token in the output of `gh auth token`: the first non-blank line,
/// trimmed, when it looks like a token. (A line of `str::lines` and the
/// piece before its line feed differ at most by a carriage return, which
/// trimming removes.)
pub open spec fn gh_token_spec(stdout: Seq<char>) -> Option<Seq<char>> {
    match first_nonblank(line_pieces(stdout)) {
        Some(l) => if looks_like_token(l) {
            Some(l)
        } else {
            None
        },
        None => None,
    }
}

fn looks_like_token_exec(t: &[char]) -> (r: bool)
    ensures
        r == looks_like_token(t@),
{
    let a = vec!['g', 'h', 'o', '_'];
    let b = vec!['g', 'h', 'p', '_'];
    let c = vec!['g', 'i', 't', 'h', 'u', 'b', '_', 'p', 'a', 't', '_'];
    let d = vec!['g', 'h', 'u', '_'];
    assert(a@ =~= gho_prefix());
    assert(b@ =~= ghp_prefix());
    assert(c@ =~= pat_prefix());
    assert(d@ =~= ghu_prefix());
    has_prefix(t, a.as_slice()) || has_prefix(t, b.as_slice()) || has_prefix(t, c.as_slice())
        || has_prefix(t, d.as_slice())
}

/// Reads the token out of what `gh auth token` printed: the first non-blank
/// line, trimmed, if it starts like a GitHub token.
pub fn parse_gh_auth_token_stdout(stdout: &str) -> (r: Option<String>)
    ensures
        opt_view(r) == gh_token_spec(stdout@),
{
    let cs = chars_of(stdout);
    let pieces = split_line_pieces(cs.as_slice());
    let ghost ls = line_pieces(stdout@);
    assert(ls.skip(0) =~= ls);
    let mut i: usize = 0;
    while i < pieces.len()
        invariant
            ls == line_pieces(stdout@),
            pieces@.len() == ls.len(),
            forall|j: int| 0 <= j < pieces@.len() ==> (#[trigger] pieces@[j])@ == ls[j],
            i <= pieces@.len(),
            first_nonblank(ls) == first_nonblank(ls.skip(i as int)),
        decreases pieces@.len() - i,
    {
        let t = trim_chars(pieces[i].as_slice());
        assert(ls.skip(i as int)[0] == ls[i as int]);
        if t.len() > 0 {
            if looks_like_token_exec(t.as_slice()) {
                return Some(string_from_chars(t.as_slice()));
            } else {
                return None;
            }
        }
        assert(ls.skip(i as int).drop_first() =~= ls.skip(i + 1));
        i += 1;
    }
    assert(ls.skip(i as int).len() == 0);
    None
}

/// What to do after one poll for the access token.
#[derive(Debug, PartialEq, Eq)]
pub enum PollStep {
    /// Signed in with this token.
    Token(String),
    /// Poll again after this many seconds.
    Wait(u64),
    /// Stop with this error.
    Fail(String),
}

/// The first wait before polling: the device code's interval, at least one
/// second.
pub fn initial_poll_interval(device: &DeviceCode) -> (r: u64)
    ensures
        r == if device.interval < 1 {
            1
        } else {
            device.interval
        },
{
    if device.interval < 1 {
        1
    } else {
        device.interval
    }
}

/// A poll that asks to slow down without naming an interval adds five
/// seconds to `interval`; that sum must fit.
pub open spec fn poll_step_fits(resp: TokenResponse, interval: u64) -> bool {
    (resp.access_token is None && resp.interval is None && opt_view(resp.error) == Some(
        "slow_down"@,
    )) ==> interval + 5 <= u64::MAX
}

/// The next step of the device flow after the poll answer `resp`, when the
/// current wait is `interval` seconds: a token signs in; `slow_down` waits
/// the interval GitHub names (at least one second) or five seconds longer;
/// `authorization_pending` and an answer without error wait as before; any
/// other error stops.
pub fn poll_step(resp: &TokenResponse, interval: u64) -> (r: PollStep)
    requires
        poll_step_fits(*resp, interval),
    ensures
        match resp.access_token {
            Some(t) => r matches PollStep::Token(x) && x@ == t@,
            None => match resp.error {
                None => r == PollStep::Wait(interval),
                Some(e) => if e@ == "authorization_pending"@ {
                    r == PollStep::Wait(interval)
                } else if e@ == "slow_down"@ {
                    r == PollStep::Wait(
                        match resp.interval {
                            Some(extra) => if extra < 1 {
                                1
                            } else {
                                extra
                            },
                            None => (interval + 5) as u64,
                        },
                    )
                } else {
                    r matches PollStep::Fail(x) && x@ == e@
                },
            },
        },
{
    match &resp.access_token {
        Some(t) => PollStep::Token(owned(t.as_str())),
        None => match &resp.error {
            None => PollStep::Wait(interval),
            Some(e) => {
                if text_eq(e.as_str(), "authorization_pending") {
                    PollStep::Wait(interval)
                } else if text_eq(e.as_str(), "slow_down") {
                    match resp.interval {
                        Some(extra) => PollStep::Wait(
                            if extra < 1 {
                                1
                            } else {
                                extra
                            },
                        ),
                        None => PollStep::Wait(interval + 5),
                    }
                } else {
                    PollStep::Fail(owned(e.as_str()))
                }
            },
        },
    }
}

} // verus!
