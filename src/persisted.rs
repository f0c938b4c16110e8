use vstd::prelude::*;
use crate::domain::{
    ascending, entries_view, latest, lemma_latest_ascending, AttendanceSheet, Candidate, Score,
    Scoreboard, Tally, Voter, VotingMachine,
};

verus! {

/// The counts as they are written to a durable medium: plain names and numbers.
#[derive(Debug, Clone)]
pub struct ScoreboardDAO {
    pub scores: Vec<(String, usize)>,
    pub blank_score: usize,
    pub invalid_score: usize,
}

/// The whole state as it is written to a durable medium: the voters' names and
/// the counts.
#[derive(Debug, Clone)]
pub struct VotingMachineDAO {
    pub voters: Vec<String>,
    pub scoreboard: ScoreboardDAO,
}

/// The entries of a stored scoreboard as values.
pub open spec fn stored_entries(scores: Seq<(String, usize)>) -> Seq<(Seq<char>, nat)> {
    scores.map_values(|e: (String, usize)| (e.0@, e.1 as nat))
}

impl View for ScoreboardDAO {
    type V = Tally;

    open spec fn view(&self) -> Tally {
        Tally {
            voters: Seq::empty(),
            scores: stored_entries(self.scores@),
            blank: self.blank_score as nat,
            invalid: self.invalid_score as nat,
        }
    }
}

impl View for VotingMachineDAO {
    type V = Tally;

    open spec fn view(&self) -> Tally {
        Tally { voters: self.voters@.map_values(|v: String| v@), ..self.scoreboard@ }
    }
}

impl ScoreboardDAO {
    /// The stored form of a scoreboard.
    pub fn from_scoreboard(scoreboard: &Scoreboard) -> (r: Self)
        ensures
            r@ == scoreboard@,
            ascending(r@.scores),
    {
        let entries = scoreboard.scores();
        assert(scoreboard@.voters =~= Seq::<Seq<char>>::empty());
        let mut scores: Vec<(String, usize)> = Vec::new();
        let mut i: usize = 0;
        while i < entries.len()
            invariant
                i <= entries.len(),
                entries_view(entries@) == scoreboard@.scores,
                stored_entries(scores@) =~= entries_view(entries@).take(i as int),
            decreases entries.len() - i,
        {
            let ghost before = scores@;
            let entry = (entries[i].0.0.clone(), entries[i].1.0);
            scores.push(entry);
            assert(scores@ =~= before.push(entry));
            assert(entries_view(entries@).take(i as int + 1) =~= entries_view(entries@).take(
                i as int,
            ).push((entry.0@, entry.1 as nat)));
            i += 1;
        }
        assert(entries_view(entries@).take(i as int) =~= entries_view(entries@));
        ScoreboardDAO {
            scores,
            blank_score: scoreboard.blank_score().0,
            invalid_score: scoreboard.invalid_score().0,
        }
    }

    /// The scoreboard a stored form describes: its entries as a map would hold
    /// them, in ascending order of name, the later count for a name given twice.
    pub fn into_scoreboard(self) -> (r: Scoreboard)
        ensures
            r@.voters.len() == 0,
            r@.blank == self@.blank,
            r@.invalid == self@.invalid,
            ascending(r@.scores),
            forall|n: Seq<char>| #[trigger] r@.count_of(n) == latest(self@.scores, n),
    {
        let mut scores: Vec<(Candidate, Score)> = Vec::new();
        let mut i: usize = 0;
        while i < self.scores.len()
            invariant
                i <= self.scores.len(),
                entries_view(scores@) =~= stored_entries(self.scores@).take(i as int),
            decreases self.scores.len() - i,
        {
            let ghost before = scores@;
            let entry = (Candidate(self.scores[i].0.clone()), Score(self.scores[i].1));
            scores.push(entry);
            assert(scores@ =~= before.push(entry));
            assert(stored_entries(self.scores@).take(i as int + 1) =~= stored_entries(
                self.scores@,
            ).take(i as int).push((entry.0@, entry.1.0 as nat)));
            i += 1;
        }
        assert(stored_entries(self.scores@).take(i as int) =~= stored_entries(self.scores@));
        Scoreboard::from_counts(scores, Score(self.blank_score), Score(self.invalid_score))
    }
}

impl VotingMachineDAO {
    /// The stored form of a machine.
    pub fn from_machine(machine: &VotingMachine) -> (r: Self)
        ensures
            r@ == machine@,
            ascending(r@.scores),
    {
        let sheet = machine.get_voters();
        let mut voters: Vec<String> = Vec::new();
        let mut i: usize = 0;
        while i < sheet.0.len()
            invariant
                i <= sheet.0.len(),
                voters@.map_values(|v: String| v@) =~= sheet@.take(i as int),
            decreases sheet.0.len() - i,
        {
            let ghost before = voters@;
            let name = sheet.0[i].0.clone();
            voters.push(name);
            assert(voters@ =~= before.push(name));
            assert(sheet@.take(i as int + 1) =~= sheet@.take(i as int).push(name@));
            i += 1;
        }
        assert(sheet@.take(i as int) =~= sheet@);
        let scoreboard = ScoreboardDAO::from_scoreboard(machine.get_scoreboard());
        VotingMachineDAO { voters, scoreboard }
    }

    /// The machine a stored form describes: its voters in the stored order,
    /// its counts as `into_scoreboard` reads them.
    pub fn into_machine(self) -> (r: VotingMachine)
        ensures
            r@.voters == self@.voters,
            r@.blank == self@.blank,
            r@.invalid == self@.invalid,
            ascending(r@.scores),
            forall|n: Seq<char>| #[trigger] r@.count_of(n) == latest(self@.scores, n),
    {
        let mut voters: Vec<Voter> = Vec::new();
        let mut i: usize = 0;
        while i < self.voters.len()
            invariant
                i <= self.voters.len(),
                voters@.map_values(|v: Voter| v@) =~= self@.voters.take(i as int),
            decreases self.voters.len() - i,
        {
            let ghost before = voters@;
            let voter = Voter(self.voters[i].clone());
            voters.push(voter);
            assert(voters@ =~= before.push(voter));
            assert(self@.voters.take(i as int + 1) =~= self@.voters.take(i as int).push(voter@));
            i += 1;
        }
        assert(self@.voters.take(i as int) =~= self@.voters);
        let sheet = AttendanceSheet(voters);
        let ghost stored = self@;
        let scoreboard = self.scoreboard.into_scoreboard();
        let r = VotingMachine::recover_from(sheet, scoreboard);
        assert forall|n: Seq<char>| #[trigger] r@.count_of(n) == latest(stored.scores, n) by {
            assert(scoreboard@.count_of(n) == latest(stored.scores, n));
        }
        r
    }
}

/// A machine taken to its stored form (`from_machine`) and read back from it
/// (`into_machine`) has the same voters, in the same order, the same blank and
/// invalid counts, and the same count for every candidate's name.
pub proof fn stored_form_round_trip(machine: Tally, stored: Tally, back: Tally)
    requires
        stored == machine,
        ascending(stored.scores),
        back.voters == stored.voters,
        back.blank == stored.blank,
        back.invalid == stored.invalid,
        forall|n: Seq<char>| #[trigger] back.count_of(n) == latest(stored.scores, n),
    ensures
        back.voters == machine.voters,
        back.blank == machine.blank,
        back.invalid == machine.invalid,
        forall|n: Seq<char>| #[trigger] back.count_of(n) == machine.count_of(n),
{
    assert forall|n: Seq<char>| #[trigger] back.count_of(n) == machine.count_of(n) by {
        lemma_latest_ascending(stored.scores, n);
    }
}

} // verus!
