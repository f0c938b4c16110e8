use votingmachine::domain::{
    AttendanceSheet, BallotPaper, Candidate, Score, Scoreboard, VoteOutcome, Voter, VotingMachine,
};

fn setup() -> VotingMachine {
    let candidates: Vec<Candidate> = vec![
        Candidate(String::from("Grahargul le Destructeur de Mondes")),
        Candidate(String::from("Jean-Marie Bigard")),
    ];
    let scoreboard = Scoreboard::new(candidates);
    VotingMachine::new(scoreboard)
}

fn alice_and_bob() -> VotingMachine {
    VotingMachine::new(Scoreboard::new(vec![
        Candidate("Alice".to_string()),
        Candidate("Bob".to_string()),
    ]))
}

fn ballot(voter: &str, candidate: Option<&str>) -> BallotPaper {
    BallotPaper {
        voter: Voter(voter.to_string()),
        candidate: candidate.map(|c| Candidate(c.to_string())),
    }
}

fn count(machine: &VotingMachine, name: &str) -> usize {
    machine.get_scoreboard().get(&Candidate(name.to_string())).unwrap().0
}

fn total(machine: &VotingMachine) -> usize {
    let board = machine.get_scoreboard();
    board.scores().iter().map(|(_, s)| s.0).sum::<usize>() + board.blank_score().0 + board.invalid_score().0
}

#[test]
fn domain_accepted_vote() {
    let ballot_paper = BallotPaper {
        voter: Voter(String::from("Camille")),
        candidate: Some(Candidate(String::from("Grahargul le Destructeur de Mondes"))),
    };
    let mut voting_machine = setup();
    let result = voting_machine.vote(ballot_paper);
    assert!(matches!(result, VoteOutcome::AcceptedVote(_, _)));
}

#[test]
fn domain_blank_vote() {
    let ballot_paper = BallotPaper { voter: Voter(String::from("Camille")), candidate: None };
    let mut voting_machine = setup();
    let result = voting_machine.vote(ballot_paper);
    assert!(matches!(result, VoteOutcome::BlankVote(_)));
}

#[test]
fn domain_invalid_vote() {
    let ballot_paper = BallotPaper {
        voter: Voter(String::from("Camille")),
        candidate: Some(Candidate(String::from("Ouga Bouga"))),
    };
    let mut voting_machine = setup();
    let result = voting_machine.vote(ballot_paper);
    assert!(matches!(result, VoteOutcome::InvalidVote(_)));
}

#[test]
fn domain_has_already_voted() {
    let mut voting_machine = setup();
    let voter = Voter(String::from("Camille"));

    let ballot_paper1 = BallotPaper {
        voter: voter.clone(),
        candidate: Some(Candidate(String::from("Grahargul le Destructeur de Mondes"))),
    };
    let result1 = voting_machine.vote(ballot_paper1);
    assert!(matches!(result1, VoteOutcome::AcceptedVote(_, _)));

    let ballot_paper2 = BallotPaper {
        voter: voter.clone(),
        candidate: Some(Candidate(String::from("Jean-Marie Bigard"))),
    };
    let result2 = voting_machine.vote(ballot_paper2);
    assert!(matches!(result2, VoteOutcome::HasAlreadyVoted(_)));

    let scoreboard = voting_machine.get_scoreboard();
    assert_eq!(
        scoreboard.get(&Candidate(String::from("Grahargul le Destructeur de Mondes"))).unwrap().0,
        1
    );
    assert_eq!(scoreboard.get(&Candidate(String::from("Jean-Marie Bigard"))).unwrap().0, 0);
}

#[test]
fn accepted_then_second_ballot_leaves_tally() {
    let mut machine = alice_and_bob();
    match machine.vote(ballot("Camille", Some("Alice"))) {
        VoteOutcome::AcceptedVote(v, c) => {
            assert_eq!(v.0, "Camille");
            assert_eq!(c.0, "Alice");
        }
        other => panic!("unexpected outcome {:?}", other),
    }
    assert_eq!(count(&machine, "Alice"), 1);
    assert_eq!(count(&machine, "Bob"), 0);
    assert_eq!(machine.get_scoreboard().blank_score().0, 0);
    assert_eq!(machine.get_scoreboard().invalid_score().0, 0);
    match machine.vote(ballot("Camille", Some("Bob"))) {
        VoteOutcome::HasAlreadyVoted(v) => assert_eq!(v.0, "Camille"),
        other => panic!("unexpected outcome {:?}", other),
    }
    assert_eq!(count(&machine, "Alice"), 1);
    assert_eq!(count(&machine, "Bob"), 0);
}

#[test]
fn empty_candidate_is_blank() {
    let mut machine = alice_and_bob();
    match machine.vote(ballot("Dana", None)) {
        VoteOutcome::BlankVote(v) => assert_eq!(v.0, "Dana"),
        other => panic!("unexpected outcome {:?}", other),
    }
    assert_eq!(machine.get_scoreboard().blank_score().0, 1);
    assert_eq!(machine.get_scoreboard().invalid_score().0, 0);
}

#[test]
fn unknown_candidate_is_invalid() {
    let mut machine = alice_and_bob();
    match machine.vote(ballot("Eve", Some("Carol"))) {
        VoteOutcome::InvalidVote(v) => assert_eq!(v.0, "Eve"),
        other => panic!("unexpected outcome {:?}", other),
    }
    assert_eq!(machine.get_scoreboard().invalid_score().0, 1);
    assert_eq!(machine.get_scoreboard().blank_score().0, 0);
    assert!(machine.get_scoreboard().get(&Candidate("Carol".to_string())).is_none());
}

#[test]
fn second_blank_ballot_is_refused_too() {
    let mut machine = alice_and_bob();
    machine.vote(ballot("Dana", None));
    machine.vote(ballot("Eve", Some("Bob")));
    let result = machine.vote(ballot("Dana", Some("Zed")));
    assert!(matches!(result, VoteOutcome::HasAlreadyVoted(_)));
    assert_eq!(machine.get_scoreboard().blank_score().0, 1);
    assert_eq!(machine.get_scoreboard().invalid_score().0, 0);
    assert_eq!(count(&machine, "Bob"), 1);
    assert_eq!(machine.get_voters().0.len(), 2);
}

#[test]
fn counts_add_up_to_distinct_voters() {
    let mut machine = alice_and_bob();
    let ballots = [
        ("v1", Some("Alice")),
        ("v2", None),
        ("v1", Some("Bob")),
        ("v3", Some("Nobody")),
        ("v4", Some("Bob")),
        ("v2", Some("Alice")),
        ("", Some("Alice")),
        ("", None),
    ];
    for (voter, candidate) in ballots {
        machine.vote(ballot(voter, candidate));
    }
    assert_eq!(machine.get_voters().0.len(), 5);
    assert_eq!(total(&machine), 5);
    assert_eq!(count(&machine, "Alice"), 2);
    assert_eq!(count(&machine, "Bob"), 1);
}

#[test]
fn empty_voter_is_an_ordinary_identity() {
    let mut machine = alice_and_bob();
    assert!(matches!(machine.vote(ballot("", Some("Bob"))), VoteOutcome::AcceptedVote(_, _)));
    assert!(matches!(machine.vote(ballot("", Some("Alice"))), VoteOutcome::HasAlreadyVoted(_)));
}

#[test]
fn candidate_named_twice_has_one_entry() {
    let board = Scoreboard::new(vec![
        Candidate("Alice".to_string()),
        Candidate("Bob".to_string()),
        Candidate("Alice".to_string()),
    ]);
    let names: Vec<&str> = board.scores().iter().map(|(c, _)| c.0.as_str()).collect();
    assert_eq!(names, vec!["Alice", "Bob"]);
    assert!(board.scores().iter().all(|(_, s)| *s == Score(0)));
}

#[test]
fn recovered_machine_keeps_its_state() {
    let board = Scoreboard::from_counts(vec![(Candidate("Alice".to_string()), Score(10)), (Candidate("Bob".to_string()), Score(5))], Score(2), Score(1));
    let sheet = AttendanceSheet(vec![Voter("John".to_string()), Voter("Jane".to_string())]);
    let mut machine = VotingMachine::recover_from(sheet, board);
    assert!(matches!(machine.vote(ballot("Jane", Some("Bob"))), VoteOutcome::HasAlreadyVoted(_)));
    assert!(matches!(machine.vote(ballot("Joe", Some("Bob"))), VoteOutcome::AcceptedVote(_, _)));
    assert_eq!(count(&machine, "Alice"), 10);
    assert_eq!(count(&machine, "Bob"), 6);
    let names: Vec<&str> = machine.get_voters().0.iter().map(|v| v.0.as_str()).collect();
    assert_eq!(names, vec!["John", "Jane", "Joe"]);
}

#[test]
fn full_counter_is_reported() {
    let board = Scoreboard::from_counts(vec![], Score(usize::MAX), Score(0));
    let machine = VotingMachine::new(board);
    assert!(!machine.can_record(&ballot("Ann", None)));
    assert!(machine.can_record(&ballot("Ann", Some("x"))));
}

#[test]
fn duplicate_is_independent() {
    let mut machine = alice_and_bob();
    let copy = machine.duplicate();
    machine.vote(ballot("Ann", Some("Alice")));
    assert_eq!(count(&machine, "Alice"), 1);
    assert_eq!(count(&copy, "Alice"), 0);
    assert!(copy.get_voters().0.is_empty());
}

#[test]
fn candidates_are_kept_in_ascending_order() {
    let board = Scoreboard::new(vec![
        Candidate("Bob".to_string()),
        Candidate("Alice".to_string()),
        Candidate("Zoë".to_string()),
        Candidate("Bob".to_string()),
        Candidate("Al".to_string()),
    ]);
    let names: Vec<&str> = board.scores().iter().map(|(c, _)| c.0.as_str()).collect();
    assert_eq!(names, vec!["Al", "Alice", "Bob", "Zoë"]);
}

#[test]
fn later_count_wins_for_a_repeated_name() {
    let board = Scoreboard::from_counts(
        vec![
            (Candidate("Bob".to_string()), Score(3)),
            (Candidate("Alice".to_string()), Score(1)),
            (Candidate("Bob".to_string()), Score(7)),
        ],
        Score(0),
        Score(0),
    );
    let entries: Vec<(&str, usize)> = board.scores().iter().map(|(c, s)| (c.0.as_str(), s.0)).collect();
    assert_eq!(entries, vec![("Alice", 1), ("Bob", 7)]);
}

#[test]
fn voters_and_candidates_compare_by_name() {
    assert_eq!(Voter("Ann".to_string()), Voter("Ann".to_string()));
    assert_ne!(Candidate("Ann".to_string()), Candidate("Anne".to_string()));
    assert!(Candidate("Alice".to_string()) < Candidate("Bob".to_string()));
}
