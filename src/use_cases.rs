use vstd::prelude::*;
use crate::domain::{
    entry_of, is_opening, lemma_names_has_entry, lemma_turnout_invariant, replay, lemma_sum_counts_increment, lemma_zero_sum, names,
    Ballot, BallotPaper, Candidate, Outcome, Tally, VoteOutcome, Voter, VotingMachine,
};
use crate::storage::{Storage, StorageError};

verus! {

/// A vote request as the front end receives it: an empty candidate asks for a
/// blank vote.
pub struct VoteForm {
    pub voter: String,
    pub candidate: String,
}

/// The ballot asked for by a voter's name and a candidate's name, where an
/// empty candidate's name asks for a blank vote.
pub open spec fn form_ballot(voter: Seq<char>, candidate: Seq<char>) -> Ballot {
    Ballot {
        voter,
        choice: if candidate.len() == 0 {
            None
        } else {
            Some(candidate)
        },
    }
}

/// The ballot a form asks for.
pub open spec fn ballot_of(form: VoteForm) -> Ballot {
    form_ballot(form.voter@, form.candidate@)
}

impl From<VoteForm> for BallotPaper {
    fn from(voteform: VoteForm) -> (r: Self) {
        Self {
            voter: Voter(voteform.voter),
            candidate: if voteform.candidate.as_str().is_empty() {
                None
            } else {
                Some(Candidate(voteform.candidate))
            },
        }
    }
}

impl vstd::std_specs::convert::FromSpecImpl<VoteForm> for BallotPaper {
    open spec fn obeys_from_spec() -> bool {
        true
    }

    open spec fn from_spec(voteform: VoteForm) -> BallotPaper {
        BallotPaper {
            voter: Voter(voteform.voter),
            candidate: if voteform.candidate@.len() == 0 {
                None
            } else {
                Some(Candidate(voteform.candidate))
            },
        }
    }
}

/// Why a vote was not counted.
#[derive(Debug, Clone, Copy, PartialEq, Eq, Structural)]
pub enum ControllerError {
    /// The store failed to hand over or to keep the state.
    Storage(StorageError),
    /// The count the ballot would add to is at the largest `usize`.
    CountLimitReached,
}

/// Whether `o` is an answer to `b`: it names the ballot's voter, and a blank,
/// accepted or invalid answer agrees with the ballot's choice.
pub open spec fn answers(o: Outcome, b: Ballot) -> bool {
    match o {
        Outcome::Accepted(v, c) => v == b.voter && b.choice == Some(c),
        Outcome::Blank(v) => v == b.voter && b.choice is None,
        Outcome::Invalid(v) => v == b.voter && b.choice is Some,
        Outcome::AlreadyVoted(v) => v == b.voter,
    }
}

/// Casts votes and reads the state through a store. Each operation takes the
/// controller by exclusive reference, so a whole load, count and save runs as
/// one section that no other caller can enter: callers that share a controller
/// share it behind a lock, and votes are counted one at a time.
pub struct VotingController<Store> {
    store: Store,
}

impl<Store: Storage> VotingController<Store> {
    /// The state held by the store, where Verus can see it.
    pub closed spec fn held(&self) -> Option<Tally> {
        self.store.held()
    }

    /// A controller over `store`.
    pub fn new(store: Store) -> (r: Self)
        ensures
            r.held() == store.held(),
    {
        Self { store }
    }

    /// Loads the state, counts the form's ballot and saves the new state.
    /// A failure of the store ends the operation and comes back as it is.
    pub fn vote(&mut self, vote_form: VoteForm) -> (r: Result<VoteOutcome, ControllerError>)
        ensures
            r matches Ok(o) ==> answers(o@, ballot_of(vote_form)),
            old(self).held() is None ==> final(self).held() is None,
            old(self).held() matches Some(t) ==> if t.can_record(ballot_of(vote_form)) {
                &&& r matches Ok(o) && o@ == t.outcome(ballot_of(vote_form))
                &&& final(self).held() == Some(t.record(ballot_of(vote_form)))
            } else {
                &&& r == Err::<VoteOutcome, ControllerError>(ControllerError::CountLimitReached)
                &&& final(self).held() == old(self).held()
            },
    {
        let ballot_paper: BallotPaper = BallotPaper::from(vote_form);
        let mut voting_machine = match self.store.get_voting_machine() {
            Ok(m) => m,
            Err(e) => return Err(ControllerError::Storage(e)),
        };
        if !voting_machine.can_record(&ballot_paper) {
            return Err(ControllerError::CountLimitReached);
        }
        let ghost loaded = voting_machine@;
        let outcome = voting_machine.vote(ballot_paper);
        proof {
            lemma_outcome_answers(loaded, ballot_of(vote_form));
        }
        match self.store.put_voting_machine(voting_machine) {
            Ok(()) => Ok(outcome),
            Err(e) => Err(ControllerError::Storage(e)),
        }
    }

    /// The state held by the store.
    pub fn get_voting_machine(&self) -> (r: Result<VotingMachine, StorageError>)
        ensures
            self.held() matches Some(t) ==> (r matches Ok(m) && m@ == t),
    {
        self.store.get_voting_machine()
    }
}

/// Whatever the state, the outcome of a ballot answers it.
pub proof fn lemma_outcome_answers(t: Tally, b: Ballot)
    ensures
        answers(t.outcome(b), b),
{
}

/// A vote through a controller keeps the stored counts matched with the
/// stored sheet: when the counts add up to the number of voters on the sheet,
/// nobody being on it twice, the state `vote` saves (`t.record(b)`) still
/// satisfies both.
pub proof fn vote_keeps_turnout(t: Tally, b: Ballot)
    requires
        t.total() == t.voters.len(),
        t.voters.no_duplicates(),
    ensures
        t.record(b).total() == t.record(b).voters.len(),
        t.record(b).voters.no_duplicates(),
{
    let one = seq![b];
    lemma_turnout_invariant(t, one);
    assert(one.drop_last() =~= Seq::<Ballot>::empty());
    assert(replay(t, one.drop_last()) == t);
}

/// A voter already on the stored sheet who votes again through a controller,
/// blank or for any name, is answered `AlreadyVoted`, and the state `vote`
/// saves is the state it loaded.
pub proof fn repeat_vote_changes_nothing(t: Tally, b: Ballot)
    requires
        t.voters.contains(b.voter),
    ensures
        t.can_record(b),
        t.outcome(b) == Outcome::AlreadyVoted(b.voter),
        t.record(b) == t,
{
}

/// One ballot cast at the opening of an election is counted: it can always be
/// recorded, and the state after it has that one voter on the sheet and one
/// ballot counted, so it is not the opening state. Read together with the
/// contracts of `VotingController::vote` and `get_voting_machine`, a store that
/// Verus sees into, such as `Memory`, hands back this state after the vote.
pub proof fn first_vote_is_kept(t: Tally, candidates: Seq<Seq<char>>, b: Ballot)
    requires
        is_opening(t, candidates),
    ensures
        t.can_record(b),
        t.record(b).voters == seq![b.voter],
        t.record(b).total() == 1,
        t.record(b) != t,
{
    lemma_zero_sum(t.scores);
    assert(t.voters.push(b.voter) =~= seq![b.voter]);
    if let Some(name) = b.choice {
        if names(t.scores, name) {
            let i = entry_of(t.scores, name);
            lemma_names_has_entry(t.scores, name);
            lemma_sum_counts_increment(t.scores, i);
        }
    }
}

} // verus!
