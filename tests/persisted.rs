use votingmachine::domain::{AttendanceSheet, Candidate, Score, Scoreboard, Voter, VotingMachine};
use votingmachine::persisted::VotingMachineDAO;

fn setup_voting_machine() -> VotingMachine {
    let scoreboard = Scoreboard::from_counts(vec![(Candidate("Alice".to_string()), Score(10)), (Candidate("Bob".to_string()), Score(5))], Score(2), Score(1));
    let voters = AttendanceSheet(vec![Voter("John".to_string()), Voter("Jane".to_string())]);
    VotingMachine::recover_from(voters, scoreboard)
}

#[test]
fn stored_form_holds_plain_values() {
    let dao = VotingMachineDAO::from_machine(&setup_voting_machine());
    assert_eq!(dao.voters, vec!["John".to_string(), "Jane".to_string()]);
    assert_eq!(dao.scoreboard.scores, vec![("Alice".to_string(), 10), ("Bob".to_string(), 5)]);
    assert_eq!(dao.scoreboard.blank_score, 2);
    assert_eq!(dao.scoreboard.invalid_score, 1);
}

#[test]
fn stored_form_round_trips() {
    let machine = setup_voting_machine();
    let back = VotingMachineDAO::from_machine(&machine).into_machine();
    assert_eq!(format!("{:?}", machine), format!("{:?}", back));
}

#[test]
fn sentinel_like_names_survive() {
    let machine = VotingMachine::new(Scoreboard::new(vec![
        Candidate("Blanc".to_string()),
        Candidate("Nul".to_string()),
        Candidate("Zoë \"Ω\"".to_string()),
    ]));
    let back = VotingMachineDAO::from_machine(&machine).into_machine();
    let names: Vec<&str> = back.get_scoreboard().scores().iter().map(|(c, _)| c.0.as_str()).collect();
    assert_eq!(names, vec!["Blanc", "Nul", "Zoë \"Ω\""]);
}
