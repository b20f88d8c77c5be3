//! Where the identifiers of the games are kept.

use vstd::prelude::*;
use std::collections::HashSet;

verus! {

/// Where the identifiers of the games are kept: in a Redis server that is
/// reached by the given address, or in the memory of this server.
#[derive(Debug)]
pub enum GameRepositoryEnum {
    Redis(String),
    Local,
}

/// The identifiers of the games, kept in the memory of this server.
#[derive(Debug)]
pub struct LocalRepository {
    repository: HashSet<u128>,
}

impl View for LocalRepository {
    type V = Set<u128>;

    closed spec fn view(&self) -> Set<u128> {
        self.repository@
    }
}

impl LocalRepository {
    pub fn new() -> (r: Self)
        ensures
            r@ == Set::<u128>::empty(),
    {
        Self { repository: HashSet::new() }
    }

    /// Takes up the identifier `uuid`, and says whether it was new. An
    /// identifier that is there already changes nothing.
    pub fn add_game(&mut self, uuid: u128) -> (r: bool)
        ensures
            r == !old(self)@.contains(uuid),
            final(self)@ == old(self)@.insert(uuid),
    {
        broadcast use vstd::std_specs::hash::group_hash_axioms;

        if self.repository.contains(&uuid) {
            assert(self@.insert(uuid) =~= self@);
            false
        } else {
            self.repository.insert(uuid);
            true
        }
    }
}

} // verus!
