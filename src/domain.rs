use vstd::prelude::*;
use crate::names::{
    lemma_name_less_irreflexive, lemma_name_less_total, lemma_name_less_transitive, name_less,
    name_precedes,
};

verus! {

/// A voter, identified by the name given at the ballot box.
#[derive(Debug, Clone, Eq, Hash, PartialOrd, Ord)]
pub struct Voter(pub String);

/// A candidate, identified by name.
#[derive(Debug, Clone, Eq, Hash, PartialOrd, Ord)]
pub struct Candidate(pub String);

impl PartialEq for Voter {
    fn eq(&self, other: &Voter) -> (r: bool) {
        self.0 == other.0
    }
}

impl vstd::std_specs::cmp::PartialEqSpecImpl for Voter {
    open spec fn obeys_eq_spec() -> bool {
        true
    }

    open spec fn eq_spec(&self, other: &Voter) -> bool {
        self.0@ == other.0@
    }
}

impl PartialEq for Candidate {
    fn eq(&self, other: &Candidate) -> (r: bool) {
        self.0 == other.0
    }
}

impl vstd::std_specs::cmp::PartialEqSpecImpl for Candidate {
    open spec fn obeys_eq_spec() -> bool {
        true
    }

    open spec fn eq_spec(&self, other: &Candidate) -> bool {
        self.0@ == other.0@
    }
}

/// A number of ballots.
#[derive(Debug, Clone, Copy, PartialEq, Eq, Structural)]
pub struct Score(pub usize);

impl View for Voter {
    type V = Seq<char>;

    open spec fn view(&self) -> Seq<char> {
        self.0@
    }
}

impl View for Candidate {
    type V = Seq<char>;

    open spec fn view(&self) -> Seq<char> {
        self.0@
    }
}

/// The sum of the counts of a list of (candidate, count) entries.
pub open spec fn sum_counts(scores: Seq<(Seq<char>, nat)>) -> nat
    decreases scores.len(),
{
    if scores.len() == 0 {
        0
    } else {
        sum_counts(scores.drop_last()) + scores.last().1
    }
}

/// Adding one to a single entry adds one to the sum.
pub proof fn lemma_sum_counts_increment(scores: Seq<(Seq<char>, nat)>, i: int)
    requires
        0 <= i < scores.len(),
    ensures
        sum_counts(scores.update(i, (scores[i].0, scores[i].1 + 1))) == sum_counts(scores) + 1,
    decreases scores.len(),
{
    let bumped = scores.update(i, (scores[i].0, scores[i].1 + 1));
    if i == scores.len() - 1 {
        assert(bumped.drop_last() =~= scores.drop_last());
    } else {
        lemma_sum_counts_increment(scores.drop_last(), i);
        assert(bumped.drop_last() =~= scores.drop_last().update(
            i,
            (scores[i].0, scores[i].1 + 1),
        ));
    }
}

/// The list of voters who have cast a ballot, in the order they came.
#[derive(Debug, Clone)]
pub struct AttendanceSheet(pub Vec<Voter>);

/// The counts: one per candidate, in ascending order of name with each name
/// once, plus the blank and the invalid ballots.
#[derive(Debug)]
pub struct Scoreboard {
    scores: Vec<(Candidate, Score)>,
    blank_score: Score,
    invalid_score: Score,
}

/// One vote request: a voter and a candidate, or no candidate for a blank vote.
pub struct BallotPaper {
    pub voter: Voter,
    pub candidate: Option<Candidate>,
}

/// How a ballot was counted.
#[derive(Debug)]
pub enum VoteOutcome {
    AcceptedVote(Voter, Candidate),
    BlankVote(Voter),
    InvalidVote(Voter),
    HasAlreadyVoted(Voter),
}

/// The attendance sheet and the scoreboard together: the whole state of an election.
#[derive(Debug, Clone)]
pub struct VotingMachine {
    voters: AttendanceSheet,
    scoreboard: Scoreboard,
}

/// A ballot as a value: who votes, and for which name (`None` for blank).
pub struct Ballot {
    pub voter: Seq<char>,
    pub choice: Option<Seq<char>>,
}

/// How a ballot is counted, as a value.
pub enum Outcome {
    Accepted(Seq<char>, Seq<char>),
    Blank(Seq<char>),
    Invalid(Seq<char>),
    AlreadyVoted(Seq<char>),
}

/// The state of an election as a value: the voters in order of arrival, the
/// candidates with their counts, and the blank and invalid counts.
pub struct Tally {
    pub voters: Seq<Seq<char>>,
    pub scores: Seq<(Seq<char>, nat)>,
    pub blank: nat,
    pub invalid: nat,
}

/// The entry of `scores` that counts the votes for `name`: the first one that bears it.
pub open spec fn is_entry_of(scores: Seq<(Seq<char>, nat)>, name: Seq<char>, i: int) -> bool {
    &&& 0 <= i < scores.len()
    &&& scores[i].0 == name
    &&& forall|j: int| 0 <= j < i ==> scores[j].0 != name
}

/// Whether some entry of `scores` bears `name`.
pub open spec fn names(scores: Seq<(Seq<char>, nat)>, name: Seq<char>) -> bool {
    exists|i: int| 0 <= i < scores.len() && scores[i].0 == name
}

/// The index of the entry that counts the votes for `name`, when there is one.
pub open spec fn entry_of(scores: Seq<(Seq<char>, nat)>, name: Seq<char>) -> int {
    choose|i: int| is_entry_of(scores, name, i)
}

/// A name borne by entry `i` is borne by a first entry, at `i` or before.
proof fn lemma_first_entry_below(scores: Seq<(Seq<char>, nat)>, name: Seq<char>, i: int)
    requires
        0 <= i < scores.len(),
        scores[i].0 == name,
    ensures
        exists|k: int| is_entry_of(scores, name, k),
    decreases i,
{
    if exists|j: int| 0 <= j < i && scores[j].0 == name {
        let j = choose|j: int| 0 <= j < i && scores[j].0 == name;
        lemma_first_entry_below(scores, name, j);
    } else {
        assert(is_entry_of(scores, name, i));
    }
}

/// A name that some entry bears has a first such entry, which `entry_of` picks.
pub proof fn lemma_names_has_entry(scores: Seq<(Seq<char>, nat)>, name: Seq<char>)
    requires
        names(scores, name),
    ensures
        is_entry_of(scores, name, entry_of(scores, name)),
{
    let i = choose|i: int| 0 <= i < scores.len() && scores[i].0 == name;
    lemma_first_entry_below(scores, name, i);
}

/// The first entry bearing a name is the one `entry_of` picks.
pub proof fn lemma_entry_of(scores: Seq<(Seq<char>, nat)>, name: Seq<char>, i: int)
    requires
        is_entry_of(scores, name, i),
    ensures
        entry_of(scores, name) == i,
        names(scores, name),
{
    let k = entry_of(scores, name);
    assert(is_entry_of(scores, name, k));
    if k < i {
        assert(scores[k].0 != name);
    }
    if i < k {
        assert(scores[i].0 != name);
    }
}

impl Tally {
    /// Every ballot counted: the candidates' counts, the blank and the invalid ones.
    pub open spec fn total(self) -> nat {
        sum_counts(self.scores) + self.blank + self.invalid
    }

    /// The count of the candidate `name`, if it stands.
    pub open spec fn count_of(self, name: Seq<char>) -> Option<nat> {
        count_in(self.scores, name)
    }

    /// The state after `b` is cast. A voter who is already on the sheet changes
    /// nothing; otherwise the voter joins the sheet and exactly one count grows.
    pub open spec fn record(self, b: Ballot) -> Tally {
        if self.voters.contains(b.voter) {
            self
        } else {
            let t = Tally { voters: self.voters.push(b.voter), ..self };
            match b.choice {
                None => Tally { blank: t.blank + 1, ..t },
                Some(name) => if names(t.scores, name) {
                    let i = entry_of(t.scores, name);
                    Tally { scores: t.scores.update(i, (name, t.scores[i].1 + 1)), ..t }
                } else {
                    Tally { invalid: t.invalid + 1, ..t }
                },
            }
        }
    }

    /// How `b` is counted.
    pub open spec fn outcome(self, b: Ballot) -> Outcome {
        if self.voters.contains(b.voter) {
            Outcome::AlreadyVoted(b.voter)
        } else {
            match b.choice {
                None => Outcome::Blank(b.voter),
                Some(name) => if names(self.scores, name) {
                    Outcome::Accepted(b.voter, name)
                } else {
                    Outcome::Invalid(b.voter)
                },
            }
        }
    }

    /// The count that `b` would add one to is below the largest `usize`.
    pub open spec fn can_record(self, b: Ballot) -> bool {
        self.voters.contains(b.voter) || match b.choice {
            None => self.blank < usize::MAX,
            Some(name) => if names(self.scores, name) {
                self.scores[entry_of(self.scores, name)].1 < usize::MAX
            } else {
                self.invalid < usize::MAX
            },
        }
    }
}

impl View for AttendanceSheet {
    type V = Seq<Seq<char>>;

    open spec fn view(&self) -> Seq<Seq<char>> {
        self.0@.map_values(|v: Voter| v@)
    }
}

/// The entries of a scoreboard as values.
pub open spec fn entries_view(scores: Seq<(Candidate, Score)>) -> Seq<(Seq<char>, nat)> {
    scores.map_values(|e: (Candidate, Score)| (e.0@, e.1.0 as nat))
}

impl View for Scoreboard {
    type V = Tally;

    /// A scoreboard is a state with no voter on its sheet.
    closed spec fn view(&self) -> Tally {
        Tally {
            voters: Seq::empty(),
            scores: entries_view(self.scores@),
            blank: self.blank_score.0 as nat,
            invalid: self.invalid_score.0 as nat,
        }
    }
}

impl View for BallotPaper {
    type V = Ballot;

    open spec fn view(&self) -> Ballot {
        Ballot {
            voter: self.voter@,
            choice: match self.candidate {
                Some(c) => Some(c@),
                None => None,
            },
        }
    }
}

impl View for VoteOutcome {
    type V = Outcome;

    open spec fn view(&self) -> Outcome {
        match self {
            VoteOutcome::AcceptedVote(v, c) => Outcome::Accepted(v@, c@),
            VoteOutcome::BlankVote(v) => Outcome::Blank(v@),
            VoteOutcome::InvalidVote(v) => Outcome::Invalid(v@),
            VoteOutcome::HasAlreadyVoted(v) => Outcome::AlreadyVoted(v@),
        }
    }
}

impl View for VotingMachine {
    type V = Tally;

    closed spec fn view(&self) -> Tally {
        Tally { voters: self.voters@, ..self.scoreboard@ }
    }
}

/// The names of a list of candidates.
pub open spec fn names_of(candidates: Seq<Candidate>) -> Seq<Seq<char>> {
    candidates.map_values(|c: Candidate| c@)
}

/// The count an entry list gives `name`, if some entry bears it.
pub open spec fn count_in(scores: Seq<(Seq<char>, nat)>, name: Seq<char>) -> Option<nat> {
    if names(scores, name) {
        Some(scores[entry_of(scores, name)].1)
    } else {
        None
    }
}

/// The names of the entries ascend strictly, so that each name has one entry.
pub open spec fn ascending(scores: Seq<(Seq<char>, nat)>) -> bool {
    forall|i: int, j: int| 0 <= i < j < scores.len() ==> name_less(scores[i].0, scores[j].0)
}

/// The count the last entry bearing `name` gives it, as when the entries are
/// inserted one after the other into a map.
pub open spec fn latest(scores: Seq<(Seq<char>, nat)>, name: Seq<char>) -> Option<nat>
    decreases scores.len(),
{
    if scores.len() == 0 {
        None
    } else if scores.last().0 == name {
        Some(scores.last().1)
    } else {
        latest(scores.drop_last(), name)
    }
}

/// The opening state of an election on `candidates`: nobody on the sheet, no
/// blank or invalid ballot, and one entry at zero for each candidate's name,
/// in ascending order.
pub open spec fn is_opening(t: Tally, candidates: Seq<Seq<char>>) -> bool {
    &&& t.voters.len() == 0
    &&& t.blank == 0
    &&& t.invalid == 0
    &&& ascending(t.scores)
    &&& forall|i: int| 0 <= i < t.scores.len() ==> t.scores[i].1 == 0
    &&& forall|n: Seq<char>| names(t.scores, n) <==> candidates.contains(n)
}

/// In an ascending list, the entry that bears a name is the one that counts it.
pub proof fn lemma_ascending_entry(scores: Seq<(Seq<char>, nat)>, name: Seq<char>, i: int)
    requires
        ascending(scores),
        0 <= i < scores.len(),
        scores[i].0 == name,
    ensures
        entry_of(scores, name) == i,
        count_in(scores, name) == Some(scores[i].1),
{
    assert forall|j: int| 0 <= j < i implies scores[j].0 != name by {
        lemma_name_less_irreflexive(name);
    }
    lemma_entry_of(scores, name, i);
}

/// In an ascending list, the last entry bearing a name is its only one.
pub proof fn lemma_latest_ascending(scores: Seq<(Seq<char>, nat)>, name: Seq<char>)
    requires
        ascending(scores),
    ensures
        latest(scores, name) == count_in(scores, name),
    decreases scores.len(),
{
    if scores.len() > 0 {
        let rest = scores.drop_last();
        let k = scores.len() - 1;
        lemma_latest_ascending(rest, name);
        if scores[k].0 == name {
            lemma_ascending_entry(scores, name, k);
        } else if names(rest, name) {
            lemma_names_has_entry(rest, name);
            let j = entry_of(rest, name);
            lemma_ascending_entry(scores, name, j);
            lemma_ascending_entry(rest, name, j);
        } else {
            assert(!names(scores, name)) by {
                if names(scores, name) {
                    let j = choose|j: int| 0 <= j < scores.len() && scores[j].0 == name;
                    assert(rest[j].0 == name);
                }
            }
        }
    }
}

/// Counts that are all zero add up to zero.
pub proof fn lemma_zero_sum(scores: Seq<(Seq<char>, nat)>)
    requires
        forall|i: int| 0 <= i < scores.len() ==> scores[i].1 == 0,
    ensures
        sum_counts(scores) == 0,
    decreases scores.len(),
{
    if scores.len() > 0 {
        lemma_zero_sum(scores.drop_last());
    }
}

/// Puts `entry` at its place in an ascending list: it replaces the entry of
/// the same name, or goes in between the names around it.
fn place(scores: &mut Vec<(Candidate, Score)>, entry: (Candidate, Score))
    requires
        ascending(entries_view(old(scores)@)),
    ensures
        ascending(entries_view(final(scores)@)),
        forall|n: Seq<char>|
            #[trigger] count_in(entries_view(final(scores)@), n) == if n == entry.0@ {
                Some(entry.1.0 as nat)
            } else {
                count_in(entries_view(old(scores)@), n)
            },
{
    let ghost old_view = entries_view(scores@);
    let ghost e = (entry.0@, entry.1.0 as nat);
    let mut p: usize = 0;
    while p < scores.len() && name_precedes(scores[p].0.0.as_str(), entry.0.0.as_str())
        invariant
            p <= scores.len(),
            old_view == entries_view(scores@),
            e == (entry.0@, entry.1.0 as nat),
            forall|k: int| 0 <= k < p ==> name_less(old_view[k].0, e.0),
        decreases scores.len() - p,
    {
        p += 1;
    }
    if p < scores.len() && scores[p].0.0 == entry.0.0 {
        scores.set(p, entry);
        let ghost new_view = entries_view(scores@);
        assert(new_view =~= old_view.update(p as int, e));
        assert forall|i: int, j: int| 0 <= i < j < new_view.len() implies name_less(
            new_view[i].0,
            new_view[j].0,
        ) by {
            assert(new_view[i].0 == old_view[i].0);
            assert(new_view[j].0 == old_view[j].0);
        }
        assert forall|n: Seq<char>| #[trigger]
            count_in(new_view, n) == if n == e.0 { Some(e.1) } else { count_in(old_view, n) } by {
            if n == e.0 {
                lemma_ascending_entry(new_view, n, p as int);
            } else if names(old_view, n) {
                lemma_names_has_entry(old_view, n);
                let k = entry_of(old_view, n);
                lemma_ascending_entry(old_view, n, k);
                lemma_ascending_entry(new_view, n, k);
            } else {
                assert(!names(new_view, n)) by {
                    if names(new_view, n) {
                        let k = choose|k: int| 0 <= k < new_view.len() && new_view[k].0 == n;
                        assert(old_view[k].0 == n);
                    }
                }
            }
        }
    } else {
        proof {
            if p < scores.len() {
                lemma_name_less_total(old_view[p as int].0, e.0);
            }
        }
        scores.insert(p, entry);
        let ghost new_view = entries_view(scores@);
        assert(new_view =~= old_view.insert(p as int, e));
        assert forall|i: int, j: int| 0 <= i < j < new_view.len() implies name_less(
            new_view[i].0,
            new_view[j].0,
        ) by {
            if j == p {
            } else if i == p {
                if j - 1 > p {
                    lemma_name_less_transitive(e.0, old_view[p as int].0, old_view[j - 1].0);
                }
            } else if j < p {
            } else if i < p {
                assert(name_less(old_view[i].0, e.0));
                lemma_name_less_total(old_view[p as int].0, e.0);
                if j - 1 > p {
                    lemma_name_less_transitive(e.0, old_view[p as int].0, old_view[j - 1].0);
                }
                lemma_name_less_transitive(old_view[i].0, e.0, old_view[j - 1].0);
            } else {
                assert(new_view[i] == old_view[i - 1]);
                assert(new_view[j] == old_view[j - 1]);
            }
        }
        assert forall|n: Seq<char>| #[trigger]
            count_in(new_view, n) == if n == e.0 { Some(e.1) } else { count_in(old_view, n) } by {
            if n == e.0 {
                lemma_ascending_entry(new_view, n, p as int);
            } else if names(old_view, n) {
                lemma_names_has_entry(old_view, n);
                let k = entry_of(old_view, n);
                lemma_ascending_entry(old_view, n, k);
                if k < p {
                    lemma_ascending_entry(new_view, n, k);
                } else {
                    assert(new_view[k + 1] == old_view[k]);
                    lemma_ascending_entry(new_view, n, k + 1);
                }
            } else {
                assert(!names(new_view, n)) by {
                    if names(new_view, n) {
                        let k = choose|k: int| 0 <= k < new_view.len() && new_view[k].0 == n;
                        if k < p {
                            assert(old_view[k].0 == n);
                        } else if k > p {
                            assert(old_view[k - 1].0 == n);
                        }
                    }
                }
            }
        }
    }
}

/// Looks up the entry that counts the votes for `name`.
pub fn find_entry(scores: &Vec<(Candidate, Score)>, name: &String) -> (r: Option<usize>)
    ensures
        match r {
            Some(i) => is_entry_of(entries_view(scores@), name@, i as int),
            None => !names(entries_view(scores@), name@),
        },
{
    let ghost view = entries_view(scores@);
    let mut i: usize = 0;
    while i < scores.len()
        invariant
            i <= scores.len(),
            view == entries_view(scores@),
            forall|j: int| 0 <= j < i ==> view[j].0 != name@,
        decreases scores.len() - i,
    {
        if scores[i].0.0 == *name {
            return Some(i);
        }
        i += 1;
    }
    None
}

impl AttendanceSheet {
    /// Whether `voter` is on the sheet.
    pub fn contains(&self, voter: &Voter) -> (r: bool)
        ensures
            r == self@.contains(voter@),
    {
        let mut i: usize = 0;
        while i < self.0.len()
            invariant
                i <= self.0.len(),
                forall|j: int| 0 <= j < i ==> self@[j] != voter@,
            decreases self.0.len() - i,
        {
            if self.0[i].0 == voter.0 {
                assert(self@[i as int] == voter@);
                return true;
            }
            i += 1;
        }
        false
    }
}

impl Clone for Scoreboard {
    /// A copy with the same entries and counts.
    fn clone(&self) -> (r: Self)
        ensures
            r@ == self@,
    {
        proof {
            use_type_invariant(self);
        }
        let mut scores: Vec<(Candidate, Score)> = Vec::new();
        let mut j: usize = 0;
        while j < self.scores.len()
            invariant
                j <= self.scores.len(),
                entries_view(scores@) =~= entries_view(self.scores@).take(j as int),
            decreases self.scores.len() - j,
        {
            let entry = &self.scores[j];
            let ghost before = scores@;
            let copy = (Candidate(entry.0.0.clone()), entry.1);
            scores.push(copy);
            assert(scores@ =~= before.push(copy));
            assert(entries_view(self.scores@).take(j as int + 1) =~= entries_view(
                self.scores@,
            ).take(j as int).push((copy.0@, copy.1.0 as nat)));
            j += 1;
        }
        assert(entries_view(self.scores@).take(j as int) =~= entries_view(self.scores@));
        Scoreboard { scores, blank_score: self.blank_score, invalid_score: self.invalid_score }
    }
}

impl Scoreboard {
    /// The names of the entries ascend strictly.
    #[verifier::type_invariant]
    spec fn names_ascend(self) -> bool {
        ascending(entries_view(self.scores@))
    }

    /// A scoreboard with a zero count for each candidate, in ascending order of
    /// name; a name given twice has one entry.
    pub fn new(candidates: Vec<Candidate>) -> (r: Self)
        ensures
            is_opening(r@, names_of(candidates@)),
    {
        let ghost all = names_of(candidates@);
        let mut scores: Vec<(Candidate, Score)> = Vec::new();
        let mut i: usize = 0;
        while i < candidates.len()
            invariant
                i <= candidates.len(),
                all == names_of(candidates@),
                ascending(entries_view(scores@)),
                forall|n: Seq<char>| #[trigger]
                    count_in(entries_view(scores@), n) == if all.take(i as int).contains(n) {
                        Some(0nat)
                    } else {
                        None
                    },
            decreases candidates.len() - i,
        {
            let ghost before = entries_view(scores@);
            let entry = (Candidate(candidates[i].0.clone()), Score(0));
            assert(entry.0@ == all[i as int]);
            place(&mut scores, entry);
            assert forall|n: Seq<char>| all.take(i as int + 1).contains(n) <==> (all.take(
                i as int,
            ).contains(n) || n == all[i as int]) by {
                if all.take(i as int + 1).contains(n) {
                    let k = all.take(i as int + 1).index_of(n);
                    if k < i {
                        assert(all.take(i as int)[k] == n);
                    }
                }
                if all.take(i as int).contains(n) {
                    let k = all.take(i as int).index_of(n);
                    assert(all.take(i as int + 1)[k] == n);
                }
                if n == all[i as int] {
                    assert(all.take(i as int + 1)[i as int] == n);
                }
            }
            i += 1;
        }
        assert(all.take(i as int) =~= all);
        let r = Scoreboard { scores, blank_score: Score(0), invalid_score: Score(0) };
        let ghost sv = r@.scores;
        assert forall|k: int| 0 <= k < sv.len() implies sv[k].1 == 0 by {
            lemma_ascending_entry(sv, sv[k].0, k);
        }
        assert forall|n: Seq<char>| names(sv, n) <==> all.contains(n) by {
            if names(sv, n) {
                assert(count_in(sv, n) is Some);
            }
        }
        assert(r@.voters =~= Seq::<Seq<char>>::empty());
        r
    }

    /// A scoreboard with the given counts, as a map would hold them: in
    /// ascending order of name, and for a name given twice the later count.
    pub fn from_counts(scores: Vec<(Candidate, Score)>, blank_score: Score, invalid_score: Score) -> (r: Self)
        ensures
            r@.voters.len() == 0,
            r@.blank == blank_score.0,
            r@.invalid == invalid_score.0,
            ascending(r@.scores),
            forall|n: Seq<char>| #[trigger] r@.count_of(n) == latest(entries_view(scores@), n),
    {
        let ghost given = entries_view(scores@);
        let mut placed: Vec<(Candidate, Score)> = Vec::new();
        let mut i: usize = 0;
        while i < scores.len()
            invariant
                i <= scores.len(),
                given == entries_view(scores@),
                ascending(entries_view(placed@)),
                forall|n: Seq<char>| #[trigger]
                    count_in(entries_view(placed@), n) == latest(given.take(i as int), n),
            decreases scores.len() - i,
        {
            let entry = (Candidate(scores[i].0.0.clone()), scores[i].1);
            place(&mut placed, entry);
            assert(given.take(i as int + 1).drop_last() =~= given.take(i as int));
            assert forall|n: Seq<char>| #[trigger]
                count_in(entries_view(placed@), n) == latest(given.take(i as int + 1), n) by {
                assert(given.take(i as int + 1).last() == given[i as int]);
            }
            i += 1;
        }
        assert(given.take(i as int) =~= given);
        let r = Scoreboard { scores: placed, blank_score, invalid_score };
        assert(r@.voters =~= Seq::<Seq<char>>::empty());
        r
    }

    /// Adds one to the count of entry `i`.
    fn count_one_more(&mut self, i: usize)
        requires
            i < old(self)@.scores.len(),
            old(self)@.scores[i as int].1 < usize::MAX,
        ensures
            final(self)@ == (Tally {
                scores: old(self)@.scores.update(
                    i as int,
                    (old(self)@.scores[i as int].0, old(self)@.scores[i as int].1 + 1),
                ),
                ..old(self)@
            }),
    {
        proof {
            use_type_invariant(&*self);
        }
        let ghost before = entries_view(self.scores@);
        let ghost after = before.update(i as int, (before[i as int].0, before[i as int].1 + 1));
        let mut scores: Vec<(Candidate, Score)> = Vec::new();
        let mut j: usize = 0;
        while j < self.scores.len()
            invariant
                j <= self.scores.len(),
                i < self.scores.len(),
                before == entries_view(self.scores@),
                after == before.update(i as int, (before[i as int].0, before[i as int].1 + 1)),
                before[i as int].1 < usize::MAX,
                entries_view(scores@) =~= after.take(j as int),
            decreases self.scores.len() - j,
        {
            let count = if j == i {
                self.scores[j].1.0 + 1
            } else {
                self.scores[j].1.0
            };
            let entry = (Candidate(self.scores[j].0.0.clone()), Score(count));
            let ghost pushed = scores@;
            scores.push(entry);
            assert(scores@ =~= pushed.push(entry));
            assert(after.take(j as int + 1) =~= after.take(j as int).push((entry.0@, entry.1.0 as nat)));
            j += 1;
        }
        assert(after.take(j as int) =~= after);
        assert forall|a: int, b: int| 0 <= a < b < after.len() implies name_less(after[a].0, after[b].0) by {
            assert(after[a].0 == before[a].0);
            assert(after[b].0 == before[b].0);
        }
        self.scores = scores;
    }

    /// The entries, in ascending order of name.
    pub fn scores(&self) -> (r: &Vec<(Candidate, Score)>)
        ensures
            entries_view(r@) == self@.scores,
            ascending(self@.scores),
            self@.voters.len() == 0,
    {
        proof {
            use_type_invariant(self);
        }
        &self.scores
    }

    /// The count of blank ballots.
    pub fn blank_score(&self) -> (r: Score)
        ensures
            r.0 == self@.blank,
    {
        self.blank_score
    }

    /// The count of invalid ballots.
    pub fn invalid_score(&self) -> (r: Score)
        ensures
            r.0 == self@.invalid,
    {
        self.invalid_score
    }

    /// The count of the candidate named like `candidate`, if it stands.
    pub fn get(&self, candidate: &Candidate) -> (r: Option<Score>)
        ensures
            match r {
                Some(s) => self@.count_of(candidate@) == Some(s.0 as nat),
                None => self@.count_of(candidate@) is None,
            },
    {
        match find_entry(&self.scores, &candidate.0) {
            Some(i) => {
                proof {
                    lemma_entry_of(entries_view(self.scores@), candidate@, i as int);
                }
                Some(self.scores[i].1)
            },
            None => None,
        }
    }
}

impl VotingMachine {
    /// An election that starts with the given scoreboard and nobody on the sheet.
    pub fn new(scoreboard1: Scoreboard) -> (r: Self)
        ensures
            r@ == scoreboard1@,
    {
        let r = VotingMachine { voters: AttendanceSheet(Vec::new()), scoreboard: scoreboard1 };
        assert(r@.voters =~= Seq::<Seq<char>>::empty());
        r
    }

    /// Whether casting `ballot_paper` keeps every count within a `usize`.
    pub fn can_record(&self, ballot_paper: &BallotPaper) -> (r: bool)
        ensures
            r == self@.can_record(ballot_paper@),
    {
        if self.voters.contains(&ballot_paper.voter) {
            return true;
        }
        match &ballot_paper.candidate {
            None => self.scoreboard.blank_score.0 < usize::MAX,
            Some(candidate) => match find_entry(&self.scoreboard.scores, &candidate.0) {
                Some(i) => {
                    proof {
                        lemma_entry_of(entries_view(self.scoreboard.scores@), candidate@, i as int);
                    }
                    self.scoreboard.scores[i].1.0 < usize::MAX
                },
                None => self.scoreboard.invalid_score.0 < usize::MAX,
            },
        }
    }

    /// Counts one ballot. A voter already on the sheet gets `HasAlreadyVoted` and
    /// changes nothing; otherwise the voter joins the sheet and the ballot is
    /// counted as blank, for its candidate, or as invalid.
    pub fn vote(&mut self, ballot_paper: BallotPaper) -> (r: VoteOutcome)
        requires
            old(self)@.can_record(ballot_paper@),
        ensures
            final(self)@ == old(self)@.record(ballot_paper@),
            r@ == old(self)@.outcome(ballot_paper@),
    {
        proof {
            use_type_invariant(&self.scoreboard);
        }
        if self.voters.contains(&ballot_paper.voter) {
            return VoteOutcome::HasAlreadyVoted(ballot_paper.voter);
        }
        let ghost before = self@;
        self.voters.0.push(Voter(ballot_paper.voter.0.clone()));
        assert(self.voters@ =~= before.voters.push(ballot_paper.voter@));
        match ballot_paper.candidate {
            None => {
                self.scoreboard.blank_score.0 = self.scoreboard.blank_score.0 + 1;
                VoteOutcome::BlankVote(ballot_paper.voter)
            },
            Some(candidate) => match find_entry(&self.scoreboard.scores, &candidate.0) {
                Some(i) => {
                    proof {
                        lemma_entry_of(entries_view(self.scoreboard.scores@), candidate@, i as int);
                    }
                    self.scoreboard.count_one_more(i);
                    VoteOutcome::AcceptedVote(ballot_paper.voter, candidate)
                },
                None => {
                    self.scoreboard.invalid_score.0 = self.scoreboard.invalid_score.0 + 1;
                    VoteOutcome::InvalidVote(ballot_paper.voter)
                },
            },
        }
    }

    /// A copy of this machine, sharing nothing with it.
    pub fn duplicate(&self) -> (r: Self)
        ensures
            r@ == self@,
    {
        let mut voters: Vec<Voter> = Vec::new();
        let mut i: usize = 0;
        while i < self.voters.0.len()
            invariant
                i <= self.voters.0.len(),
                voters@.map_values(|v: Voter| v@) =~= self.voters@.take(i as int),
            decreases self.voters.0.len() - i,
        {
            let ghost before = voters@;
            let voter = Voter(self.voters.0[i].0.clone());
            voters.push(voter);
            assert(voters@ =~= before.push(voter));
            assert(self.voters@.take(i as int + 1) =~= self.voters@.take(i as int).push(voter@));
            i += 1;
        }
        assert(self.voters@.take(i as int) =~= self.voters@);
        VotingMachine { voters: AttendanceSheet(voters), scoreboard: self.scoreboard.clone() }
    }

    /// The counts.
    pub fn get_scoreboard(&self) -> (r: &Scoreboard)
        ensures
            r@ == (Tally { voters: Seq::empty(), ..self@ }),
    {
        &self.scoreboard
    }

    /// The voters, in the order they came.
    pub fn get_voters(&self) -> (r: &AttendanceSheet)
        ensures
            r@ == self@.voters,
    {
        &self.voters
    }

    /// An election in the given state, as read back from storage.
    pub fn recover_from(voters: AttendanceSheet, scoreboard: Scoreboard) -> (r: Self)
        ensures
            r@ == (Tally { voters: voters@, ..scoreboard@ }),
    {
        Self { voters, scoreboard }
    }
}

/// The state after the ballots are cast one after the other, from the first.
pub open spec fn replay(t: Tally, ballots: Seq<Ballot>) -> Tally
    decreases ballots.len(),
{
    if ballots.len() == 0 {
        t
    } else {
        replay(t, ballots.drop_last()).record(ballots.last())
    }
}

/// Whether one of the ballots was cast by `voter`.
pub open spec fn casts(ballots: Seq<Ballot>, voter: Seq<char>) -> bool {
    exists|k: int| 0 <= k < ballots.len() && ballots[k].voter == voter
}

/// A state whose counts add up to its number of voters, with nobody on the
/// sheet twice, stays so whatever ballots are cast; the sheet then holds the
/// voters it held and those who cast a ballot, each once.
pub proof fn lemma_turnout_invariant(t: Tally, ballots: Seq<Ballot>)
    requires
        t.total() == t.voters.len(),
        t.voters.no_duplicates(),
    ensures
        replay(t, ballots).total() == replay(t, ballots).voters.len(),
        replay(t, ballots).voters.no_duplicates(),
        forall|v: Seq<char>|
            #[trigger] replay(t, ballots).voters.contains(v) <==> (t.voters.contains(v) || casts(
                ballots,
                v,
            )),
    decreases ballots.len(),
{
    if ballots.len() > 0 {
        let rest = ballots.drop_last();
        let b = ballots.last();
        lemma_turnout_invariant(t, rest);
        let s = replay(t, rest);
        if !s.voters.contains(b.voter) {
            let pushed = s.voters.push(b.voter);
            assert forall|i: int, j: int| 0 <= i < j < pushed.len() implies pushed[i] != pushed[j] by {
                if j == pushed.len() - 1 {
                    assert(s.voters.contains(pushed[i]));
                }
            }
            match b.choice {
                None => {},
                Some(name) => {
                    if names(s.scores, name) {
                        let i = entry_of(s.scores, name);
                        lemma_names_has_entry(s.scores, name);
                        lemma_sum_counts_increment(s.scores, i);
                    }
                },
            }
        }
        let r = replay(t, ballots);
        assert(r.voters == if s.voters.contains(b.voter) {
            s.voters
        } else {
            s.voters.push(b.voter)
        });
        assert(r.voters.contains(b.voter)) by {
            if !s.voters.contains(b.voter) {
                assert(r.voters[s.voters.len() as int] == b.voter);
            }
        }
        assert forall|v: Seq<char>| #[trigger] r.voters.contains(v) && !t.voters.contains(v) implies casts(
            ballots,
            v,
        ) by {
            if s.voters.contains(v) {
                assert(casts(rest, v));
                let k = choose|k: int| 0 <= k < rest.len() && rest[k].voter == v;
                assert(ballots[k] == rest[k]);
            } else {
                assert(v == b.voter);
                assert(ballots[ballots.len() - 1].voter == v);
            }
        }
        assert forall|v: Seq<char>| t.voters.contains(v) || casts(ballots, v) implies #[trigger] r.voters.contains(
            v,
        ) by {
            if casts(ballots, v) {
                let k = choose|k: int| 0 <= k < ballots.len() && ballots[k].voter == v;
                if k < ballots.len() - 1 {
                    assert(rest[k] == ballots[k]);
                    assert(casts(rest, v));
                    assert(s.voters.contains(v));
                } else {
                    assert(v == b.voter);
                }
            } else {
                assert(s.voters.contains(v));
            }
            if s.voters.contains(v) {
                let k = s.voters.index_of(v);
                assert(r.voters[k] == v);
            }
        }
    } else {
        assert(replay(t, ballots) == t);
    }
}

/// From the opening of any election, whatever ballots are cast, the candidates'
/// counts plus the blank and invalid counts equal the number of distinct voters
/// who cast a ballot.
pub proof fn tally_matches_turnout(t: Tally, candidates: Seq<Seq<char>>, ballots: Seq<Ballot>)
    requires
        is_opening(t, candidates),
    ensures
        replay(t, ballots).total() == replay(t, ballots).voters.len(),
        replay(t, ballots).voters.no_duplicates(),
        forall|v: Seq<char>| replay(t, ballots).voters.contains(v) <==> casts(ballots, v),
{
    lemma_zero_sum(t.scores);
    lemma_turnout_invariant(t, ballots);
}

/// Counting never takes a voter off the sheet.
proof fn lemma_sheet_grows(t: Tally, ballots: Seq<Ballot>, v: Seq<char>)
    requires
        t.voters.contains(v),
    ensures
        replay(t, ballots).voters.contains(v),
    decreases ballots.len(),
{
    if ballots.len() > 0 {
        lemma_sheet_grows(t, ballots.drop_last(), v);
        let s = replay(t, ballots.drop_last());
        if !s.voters.contains(ballots.last().voter) {
            assert(s.voters.push(ballots.last().voter)[s.voters.index_of(v)] == v);
        }
    }
}

/// Once a voter has cast a ballot, any later ballot of theirs, blank or for any
/// name, is answered `AlreadyVoted` and leaves the state as it was, whatever
/// other ballots came in between.
pub proof fn second_ballot_changes_nothing(
    t: Tally,
    first: Ballot,
    between: Seq<Ballot>,
    second: Ballot,
)
    requires
        second.voter == first.voter,
    ensures
        replay(t.record(first), between).record(second) == replay(t.record(first), between),
        replay(t.record(first), between).outcome(second) == Outcome::AlreadyVoted(second.voter),
{
    let t1 = t.record(first);
    if !t.voters.contains(first.voter) {
        assert(t1.voters.last() == first.voter);
    }
    assert(t1.voters.contains(first.voter));
    lemma_sheet_grows(t1, between, first.voter);
}

} // verus!
