use vstd::prelude::*;
use crate::domain::{is_opening, names_of, Candidate, Scoreboard, VotingMachine};

verus! {

/// Where the state of the election is kept.
#[derive(Debug, Clone, Copy, PartialEq, Eq, Structural)]
pub enum StorageType {
    File,
    Memory,
}

/// The language of the front end's messages.
#[derive(Debug, Clone, Copy, PartialEq, Eq, Structural)]
pub enum Language {
    En,
    Fr,
}

/// What the program is started with: the candidates, in order, the kind of
/// store and the language.
#[derive(Debug, Clone)]
pub struct Configuration {
    pub candidates: Vec<String>,
    pub storage: StorageType,
    pub language: Language,
}

/// The names of the configured candidates.
pub open spec fn configured_names(candidates: Seq<String>) -> Seq<Seq<char>> {
    candidates.map_values(|c: String| c@)
}

/// The opening state of the configured election: every configured candidate
/// at zero, nobody on the sheet.
pub fn create_voting_machine(configuration: &Configuration) -> (r: VotingMachine)
    ensures
        is_opening(r@, configured_names(configuration.candidates@)),
{
    let mut candidates: Vec<Candidate> = Vec::new();
    let mut i: usize = 0;
    while i < configuration.candidates.len()
        invariant
            i <= configuration.candidates.len(),
            names_of(candidates@) =~= configured_names(configuration.candidates@).take(i as int),
        decreases configuration.candidates.len() - i,
    {
        let ghost before = candidates@;
        let candidate = Candidate(configuration.candidates[i].clone());
        candidates.push(candidate);
        assert(candidates@ =~= before.push(candidate));
        assert(configured_names(configuration.candidates@).take(i as int + 1) =~= configured_names(
            configuration.candidates@,
        ).take(i as int).push(candidate@));
        i += 1;
    }
    assert(configured_names(configuration.candidates@).take(i as int) =~= configured_names(
        configuration.candidates@,
    ));
    VotingMachine::new(Scoreboard::new(candidates))
}

} // verus!
