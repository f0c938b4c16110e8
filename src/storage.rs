use vstd::prelude::*;
use crate::domain::{Tally, VotingMachine};

verus! {

/// Why a store could not hand over or keep the state.
#[derive(Debug, Clone, Copy, PartialEq, Eq, Structural)]
pub enum StorageError {
    /// The medium could not be read or written.
    StorageUnavailable,
    /// The medium holds data that does not describe a state.
    MalformedPersistedState,
}

/// Where the state of an election is kept between two ballots.
pub trait Storage: Sized {
    /// The state the store holds, for a store that Verus can see into; `None`
    /// for one whose medium lies outside the library.
    open spec fn held(&self) -> Option<Tally> {
        None
    }

    /// A store seeded with `machine`.
    fn new(machine: VotingMachine) -> (r: Result<Self, StorageError>)
        ensures
            r matches Ok(s) ==> (s.held() is Some ==> s.held() == Some(machine@)),
    ;

    /// The state held now.
    fn get_voting_machine(&self) -> (r: Result<VotingMachine, StorageError>)
        ensures
            self.held() matches Some(t) ==> (r matches Ok(m) && m@ == t),
    ;

    /// Replaces the state held by `machine`.
    fn put_voting_machine(&mut self, machine: VotingMachine) -> (r: Result<(), StorageError>)
        ensures
            old(self).held() is Some ==> (r is Ok && final(self).held() == Some(machine@)),
            old(self).held() is None ==> final(self).held() is None,
    ;
}

/// A store in memory. It hands out copies, so that no caller holds the state
/// it keeps.
#[derive(Debug)]
pub struct Memory {
    machine: VotingMachine,
}

impl Storage for Memory {
    closed spec fn held(&self) -> Option<Tally> {
        Some(self.machine@)
    }

    fn new(machine: VotingMachine) -> (r: Result<Self, StorageError>)
        ensures
            r matches Ok(s) && s.held() == Some(machine@),
    {
        Ok(Memory { machine })
    }

    fn get_voting_machine(&self) -> (r: Result<VotingMachine, StorageError>) {
        Ok(self.machine.duplicate())
    }

    fn put_voting_machine(&mut self, machine: VotingMachine) -> (r: Result<(), StorageError>) {
        self.machine = machine;
        Ok(())
    }
}

} // verus!
