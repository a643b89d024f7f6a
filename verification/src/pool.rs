//! The session pool: at most one session handle for each board size.

use std::collections::HashMap;
use vstd::prelude::*;

verus! {

broadcast use vstd::std_specs::hash::group_hash_axioms;

/// A pool of session handles of type `S`, keyed by board size.
///
/// The pool only keeps the handles; what a handle is, and how a session is
/// started, is the caller's business.
pub struct SessionPool<S> {
    sessions: HashMap<u8, S>,
}

impl<S> SessionPool<S> {
    /// The handles that the pool holds, by board size.
    pub closed spec fn view(&self) -> Map<u8, S> {
        self.sessions@
    }

    /// A pool without any session.
    pub fn new() -> (pool: Self)
        ensures
            pool@ == Map::<u8, S>::empty(),
    {
        SessionPool { sessions: HashMap::new() }
    }

    /// The handle of the session for boards of `size`, if the pool holds one.
    /// The pool is left as it is.
    pub fn acquire(&self, size: u8) -> (r: Option<&S>)
        ensures
            match r {
                Some(s) => self@.contains_key(size) && self@[size] == *s,
                None => !self@.contains_key(size),
            },
    {
        self.sessions.get(&size)
    }

    /// Installs `session` as the handle for boards of `size`, whatever the
    /// pool held for that size before, and hands back what it held. The
    /// handles of all other sizes stay.
    pub fn replace(&mut self, size: u8, session: S) -> (previous: Option<S>)
        ensures
            final(self)@ == old(self)@.insert(size, session),
            match previous {
                Some(s) => old(self)@.contains_key(size) && old(self)@[size] == s,
                None => !old(self)@.contains_key(size),
            },
    {
        self.sessions.insert(size, session)
    }
}

} // verus!
