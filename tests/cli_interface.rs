use votingmachine::cli_interface::{
    command_of_word, handle_ballot, handle_line, parse_command, show_scoreboard, show_vote_outcome,
    Command, Reply,
};
use votingmachine::configuration::{create_voting_machine, Configuration, Language, StorageType};
use votingmachine::domain::{Candidate, Score, Scoreboard, VoteOutcome, Voter};
use votingmachine::lexicon::Lexicon;
use votingmachine::storage::{Memory, Storage};
use votingmachine::use_cases::VotingController;

fn setup() -> (VotingController<Memory>, Lexicon) {
    let config = Configuration {
        candidates: vec!["Alice".to_string(), "Bob".to_string()],
        storage: StorageType::Memory,
        language: Language::Fr,
    };
    let lexicon = Lexicon::french();
    let voting_machine = create_voting_machine(&config);
    let store = Memory::new(voting_machine).unwrap();
    let controller = VotingController::new(store);
    (controller, lexicon)
}

fn text(reply: Reply) -> String {
    match reply {
        Reply::Text(s) => s,
        other => panic!("unexpected reply {:?}", other),
    }
}

#[test]
fn test_invalid_command() {
    let (mut controller, lexicon) = setup();
    let result = text(handle_line("commande_invalide", &mut controller, &lexicon).unwrap());
    assert_eq!(result, "invalide ! bulletin de vote : voter, votants ou score");
}

#[test]
fn test_show_voters() {
    let (mut controller, lexicon) = setup();
    let result = text(handle_line("votants", &mut controller, &lexicon).unwrap());
    assert_eq!(result, "feuille de présence :\n");
}

#[test]
fn test_show_scores() {
    let (mut controller, lexicon) = setup();
    let result = text(handle_line("score", &mut controller, &lexicon).unwrap());
    assert_eq!(result, "tableau des scores :\n• Alice : 0\n• Bob : 0\n• blanc : 0\n• invalide : 0");
}

#[test]
fn test_vote() {
    let (mut controller, lexicon) = setup();
    assert!(matches!(handle_line("voter", &mut controller, &lexicon).unwrap(), Reply::AskBallot { .. }));
    let result = handle_ballot("Alice\n", "Bob\n", &mut controller, &lexicon).unwrap();
    assert_eq!(result, "résultat de vote accepté Bob");
}

#[test]
fn test_blank_vote() {
    let (mut controller, lexicon) = setup();
    let result = handle_ballot("Alice\n", "\n", &mut controller, &lexicon).unwrap();
    assert_eq!(result, "résultat de vote blanc accepté");
}

#[test]
fn vote_prompts_in_french() {
    let (controller, lexicon) = setup();
    match handle_line("  voter\n", &controller, &lexicon).unwrap() {
        Reply::AskBallot { voter_prompt, candidate_prompt } => {
            assert_eq!(voter_prompt, "voteur ?");
            assert_eq!(candidate_prompt, "Candidat ? (blanc)");
        }
        other => panic!("unexpected reply {:?}", other),
    }
}

#[test]
fn second_ballot_message_and_listing() {
    let (mut controller, lexicon) = setup();
    handle_ballot(" Zoe ", "Alice", &mut controller, &lexicon).unwrap();
    handle_ballot("Yan", "Carol", &mut controller, &lexicon).unwrap();
    let again = handle_ballot("Zoe", "Bob", &mut controller, &lexicon).unwrap();
    assert_eq!(again, "voteur a déjà résultat de vote !");
    let voters = text(handle_line("votants", &controller, &lexicon).unwrap());
    assert_eq!(voters, "feuille de présence :\n• Zoe\n• Yan\n");
    let scores = text(handle_line("score\n", &controller, &lexicon).unwrap());
    assert_eq!(scores, "tableau des scores :\n• Alice : 1\n• Bob : 0\n• blanc : 0\n• invalide : 1");
}

#[test]
fn commands_are_trimmed_words() {
    assert_eq!(parse_command("  score \n"), Command::Scores);
    assert_eq!(parse_command("votants"), Command::Voters);
    assert_eq!(parse_command("\tvoter"), Command::Vote);
    assert_eq!(parse_command("Score"), Command::Unknown);
    assert_eq!(command_of_word(" score"), Command::Unknown);
    assert_eq!(command_of_word(""), Command::Unknown);
}

#[test]
fn counts_are_written_in_decimal() {
    let board = Scoreboard::from_counts(vec![(Candidate("Alice".to_string()), Score(10)), (Candidate("Bob".to_string()), Score(305))], Score(7), Score(1234567));
    let shown = show_scoreboard(&board, &Lexicon::english());
    assert_eq!(shown, "scoreboard :\n• Alice : 10\n• Bob : 305\n• blank : 7\n• invalid : 1234567");
}

#[test]
fn outcome_messages_in_english() {
    let lexicon = Lexicon::english();
    let v = || Voter("Ann".to_string());
    assert_eq!(
        show_vote_outcome(VoteOutcome::AcceptedVote(v(), Candidate("Bob".to_string())), &lexicon),
        "vote outcome accepted Bob"
    );
    assert_eq!(show_vote_outcome(VoteOutcome::BlankVote(v()), &lexicon), "vote outcome blank accepted");
    assert_eq!(show_vote_outcome(VoteOutcome::InvalidVote(v()), &lexicon), "vote outcome invalid accepted");
    assert_eq!(show_vote_outcome(VoteOutcome::HasAlreadyVoted(v()), &lexicon), "voter has already vote outcome !");
}

#[test]
fn missing_voter_name_is_an_ordinary_identity() {
    let (mut controller, lexicon) = setup();
    let result = handle_ballot("\n", "Bob\n", &mut controller, &lexicon).unwrap();
    assert_eq!(result, "résultat de vote accepté Bob");
    let again = handle_ballot("", "Alice", &mut controller, &lexicon).unwrap();
    assert_eq!(again, "voteur a déjà résultat de vote !");
}

#[test]
fn scoreboard_lists_candidates_by_name() {
    let config = Configuration {
        candidates: vec!["Bob".to_string(), "Alice".to_string()],
        storage: StorageType::Memory,
        language: Language::Fr,
    };
    let controller = VotingController::new(Memory::new(create_voting_machine(&config)).unwrap());
    let result = text(handle_line("score", &controller, &Lexicon::french()).unwrap());
    assert_eq!(result, "tableau des scores :\n• Alice : 0\n• Bob : 0\n• blanc : 0\n• invalide : 0");
}
