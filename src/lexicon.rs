use vstd::prelude::*;

verus! {

/// The words the front end writes its messages with.
#[derive(Debug, Clone, Copy, PartialEq, Eq)]
pub struct Lexicon {
    pub blank: &'static str,
    pub candidate: &'static str,
    pub voter: &'static str,
    pub attendencesheet: &'static str,
    pub scoreboard: &'static str,
    pub ballotpaper: &'static str,
    pub voteoutcome: &'static str,
    pub invalid: &'static str,
    pub votingmachine: &'static str,
    pub accepted: &'static str,
    pub hasalready: &'static str,
}

impl Lexicon {
    /// The words in English.
    pub fn english() -> (r: Self)
        ensures
            r.blank@ == "blank"@,
            r.candidate@ == "candidate"@,
            r.voter@ == "voter"@,
            r.attendencesheet@ == "attendence sheet"@,
            r.scoreboard@ == "scoreboard"@,
            r.ballotpaper@ == "ballot paper"@,
            r.voteoutcome@ == "vote outcome"@,
            r.invalid@ == "invalid"@,
            r.votingmachine@ == "voting machine"@,
            r.accepted@ == "accepted"@,
            r.hasalready@ == "has already"@,
    {
        Self {
            blank: "blank",
            candidate: "candidate",
            voter: "voter",
            attendencesheet: "attendence sheet",
            scoreboard: "scoreboard",
            ballotpaper: "ballot paper",
            voteoutcome: "vote outcome",
            invalid: "invalid",
            votingmachine: "voting machine",
            accepted: "accepted",
            hasalready: "has already",
        }
    }

    /// The words in French.
    pub fn french() -> (r: Self)
        ensures
            r.blank@ == "blanc"@,
            r.candidate@ == "Candidat"@,
            r.voter@ == "voteur"@,
            r.attendencesheet@ == "feuille de présence"@,
            r.scoreboard@ == "tableau des scores"@,
            r.ballotpaper@ == "bulletin de vote"@,
            r.voteoutcome@ == "résultat de vote"@,
            r.invalid@ == "invalide"@,
            r.votingmachine@ == "machine à vote"@,
            r.accepted@ == "accepté"@,
            r.hasalready@ == "a déjà"@,
    {
        Self {
            blank: "blanc",
            candidate: "Candidat",
            voter: "voteur",
            attendencesheet: "feuille de présence",
            scoreboard: "tableau des scores",
            ballotpaper: "bulletin de vote",
            voteoutcome: "résultat de vote",
            invalid: "invalide",
            votingmachine: "machine à vote",
            accepted: "accepté",
            hasalready: "a déjà",
        }
    }
}

} // verus!
