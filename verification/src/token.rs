//! Where the access token is kept between runs.
use vstd::prelude::*;

use crate::text::{opt_view, owned};

verus! {

/// A place that keeps the GitHub access token.
pub trait TokenStore {
    /// The kept token, if any.
    fn load(&self) -> Option<String>;

    /// Keeps `token`, replacing any token kept before.
    fn save(&mut self, token: &str);

    /// Forgets the kept token.
    fn clear(&mut self);
}

/// A token store that lives in memory only.
pub struct MemoryTokenStore {
    pub token: Option<String>,
}

impl MemoryTokenStore {
    /// The token this store keeps.
    pub open spec fn kept(&self) -> Option<Seq<char>> {
        opt_view(self.token)
    }
}

impl Default for MemoryTokenStore {
    fn default() -> (r: Self)
        ensures
            r.kept() is None,
    {
        MemoryTokenStore { token: None }
    }
}

impl TokenStore for MemoryTokenStore {
    fn load(&self) -> (r: Option<String>)
        ensures
            opt_view(r) == self.kept(),
    {
        match &self.token {
            Some(t) => Some(owned(t.as_str())),
            None => None,
        }
    }

    fn save(&mut self, token: &str)
        ensures
            final(self).kept() == Some(token@),
    {
        self.token = Some(owned(token));
    }

    fn clear(&mut self)
        ensures
            final(self).kept() is None,
    {
        self.token = None;
    }
}

} // verus!
