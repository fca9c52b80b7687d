//! Who makes a call: an identity, alone or within a session.
use vstd::prelude::*;

verus! {

/// A caller, known by a token under which it can be cached.
#[derive(Clone, Debug)]
pub struct Identity {
    pub cache_token: String,
}

impl Identity {
    pub fn new(cache_token: String) -> (r: Self)
        ensures
            r.cache_token == cache_token,
    {
        Identity { cache_token }
    }

    /// The token under which this identity is cached.
    pub fn cache_token(&self) -> (r: &String)
        ensures
            *r == self.cache_token,
    {
        &self.cache_token
    }
}

/// A session of a caller, known by an opaque token.
#[derive(Clone, Debug)]
pub struct Session {
    pub token: String,
    pub identity: Identity,
}

impl Session {
    pub fn new(token: String, identity: Identity) -> (r: Self)
        ensures
            r.token == token,
            r.identity == identity,
    {
        Session { token, identity }
    }

    /// The opaque token of this session.
    pub fn token(&self) -> (r: &String)
        ensures
            *r == self.token,
    {
        &self.token
    }
}

} // verus!
