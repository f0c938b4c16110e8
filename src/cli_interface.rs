use vstd::prelude::*;
use vstd::string::StringExecFns;
use crate::domain::{ascending, entries_view, AttendanceSheet, Outcome, Scoreboard, Tally, VoteOutcome};
use crate::lexicon::Lexicon;
use crate::storage::{Storage, StorageError};
use crate::use_cases::{answers, form_ballot, ControllerError, VoteForm, VotingController};

verus! {

/// The character of a decimal digit.
pub open spec fn digit_char(d: nat) -> char {
    if d == 0 {
        '0'
    } else if d == 1 {
        '1'
    } else if d == 2 {
        '2'
    } else if d == 3 {
        '3'
    } else if d == 4 {
        '4'
    } else if d == 5 {
        '5'
    } else if d == 6 {
        '6'
    } else if d == 7 {
        '7'
    } else if d == 8 {
        '8'
    } else {
        '9'
    }
}

/// A number written in decimal, most significant digit first.
pub open spec fn decimal_digits(n: nat) -> Seq<char>
    decreases n,
{
    if n < 10 {
        seq![digit_char(n)]
    } else {
        decimal_digits(n / 10).push(digit_char(n % 10))
    }
}

/// Relies on `usize`'s `Display`, through `to_string`: an unsigned number is
/// written as its decimal digits, with no sign and no padding.
#[verifier::external_body]
fn decimal(n: usize) -> (r: String)
    ensures
        r@ == decimal_digits(n as nat),
{
    n.to_string()
}

/// Whether a character has the Unicode property White_Space, as
/// `char::is_whitespace` tests it.
pub open spec fn is_white_space(c: char) -> bool {
    let u = c as int;
    ||| 0x09 <= u <= 0x0D
    ||| u == 0x20
    ||| u == 0x85
    ||| u == 0xA0
    ||| u == 0x1680
    ||| 0x2000 <= u <= 0x200A
    ||| u == 0x2028
    ||| u == 0x2029
    ||| u == 0x202F
    ||| u == 0x205F
    ||| u == 0x3000
}

/// A text without its leading white space.
pub open spec fn trim_start(s: Seq<char>) -> Seq<char>
    decreases s.len(),
{
    if s.len() > 0 && is_white_space(s[0]) {
        trim_start(s.drop_first())
    } else {
        s
    }
}

/// A text without its trailing white space.
pub open spec fn trim_end(s: Seq<char>) -> Seq<char>
    decreases s.len(),
{
    if s.len() > 0 && is_white_space(s.last()) {
        trim_end(s.drop_last())
    } else {
        s
    }
}

/// A text without its leading and trailing white space.
pub open spec fn trimmed(s: Seq<char>) -> Seq<char> {
    trim_end(trim_start(s))
}

/// Relies on `str::trim`: the text without its leading and trailing
/// characters that have the Unicode property White_Space.
#[verifier::external_body]
fn trim_line(s: &str) -> (r: &str)
    ensures
        r@ == trimmed(s@),
{
    s.trim()
}

/// Three words separated by spaces.
pub open spec fn words3(a: Seq<char>, b: Seq<char>, c: Seq<char>) -> Seq<char> {
    a + " "@ + b + " "@ + c
}

/// The message for an outcome.
pub open spec fn outcome_text(o: Outcome, lx: Lexicon) -> Seq<char> {
    match o {
        Outcome::Accepted(_, c) => words3(lx.voteoutcome@, lx.accepted@, c),
        Outcome::Blank(_) => words3(lx.voteoutcome@, lx.blank@, lx.accepted@),
        Outcome::Invalid(_) => words3(lx.voteoutcome@, lx.invalid@, lx.accepted@),
        Outcome::AlreadyVoted(_) => words3(lx.voter@, lx.hasalready@, lx.voteoutcome@) + " !"@,
    }
}

/// One line of the scoreboard, without its line break.
pub open spec fn count_line(label: Seq<char>, n: nat) -> Seq<char> {
    "• "@ + label + " : "@ + decimal_digits(n)
}

/// The candidates' lines of the scoreboard.
pub open spec fn score_lines(scores: Seq<(Seq<char>, nat)>) -> Seq<char>
    decreases scores.len(),
{
    if scores.len() == 0 {
        Seq::empty()
    } else {
        score_lines(scores.drop_last()) + count_line(scores.last().0, scores.last().1) + "\n"@
    }
}

/// The scoreboard as text: a title, a line per candidate in the order of
/// `t.scores` (ascending by name for every scoreboard), then the blank and the
/// invalid counts.
pub open spec fn scoreboard_text(t: Tally, lx: Lexicon) -> Seq<char> {
    lx.scoreboard@ + " :\n"@ + score_lines(t.scores) + count_line(lx.blank@, t.blank) + "\n"@
        + count_line(lx.invalid@, t.invalid)
}

/// The voters' lines of the attendance sheet.
pub open spec fn voter_lines(voters: Seq<Seq<char>>) -> Seq<char>
    decreases voters.len(),
{
    if voters.len() == 0 {
        Seq::empty()
    } else {
        voter_lines(voters.drop_last()) + "• "@ + voters.last() + "\n"@
    }
}

/// The attendance sheet as text: a title, then a line per voter.
pub open spec fn attendance_text(voters: Seq<Seq<char>>, lx: Lexicon) -> Seq<char> {
    lx.attendencesheet@ + " :\n"@ + voter_lines(voters)
}

/// The answer to a line that is no command.
pub open spec fn invalid_command_text(lx: Lexicon) -> Seq<char> {
    lx.invalid@ + " ! "@ + lx.ballotpaper@ + " : voter, votants ou score"@
}

/// The message for a vote's outcome.
pub fn show_vote_outcome(outcome: VoteOutcome, lexicon: &Lexicon) -> (r: String)
    ensures
        r@ == outcome_text(outcome@, *lexicon),
{
    let (first, second, third) = match &outcome {
        VoteOutcome::AcceptedVote(_, c) => (lexicon.voteoutcome, lexicon.accepted, c.0.as_str()),
        VoteOutcome::BlankVote(_) => (lexicon.voteoutcome, lexicon.blank, lexicon.accepted),
        VoteOutcome::InvalidVote(_) => (lexicon.voteoutcome, lexicon.invalid, lexicon.accepted),
        VoteOutcome::HasAlreadyVoted(_) => (lexicon.voter, lexicon.hasalready, lexicon.voteoutcome),
    };
    let mut r = String::from_str(first);
    r.append(" ");
    r.append(second);
    r.append(" ");
    r.append(third);
    if let VoteOutcome::HasAlreadyVoted(_) = outcome {
        r.append(" !");
    }
    r
}

/// One line of the scoreboard, without its line break.
fn show_count(label: &str, n: usize) -> (r: String)
    ensures
        r@ == count_line(label@, n as nat),
{
    let mut r = String::from_str("• ");
    r.append(label);
    r.append(" : ");
    let digits = decimal(n);
    r.append(digits.as_str());
    r
}

/// The scoreboard as text, its candidates in ascending order of name.
pub fn show_scoreboard(scoreboard: &Scoreboard, lexicon: &Lexicon) -> (r: String)
    ensures
        r@ == scoreboard_text(scoreboard@, *lexicon),
        ascending(scoreboard@.scores),
{
    let entries = scoreboard.scores();
    let ghost lines = entries_view(entries@);
    let mut r = String::from_str(lexicon.scoreboard);
    r.append(" :\n");
    let ghost head = r@;
    let mut i: usize = 0;
    while i < entries.len()
        invariant
            i <= entries.len(),
            lines == entries_view(entries@),
            r@ == head + score_lines(lines.take(i as int)),
        decreases entries.len() - i,
    {
        let entry = &entries[i];
        let line = show_count(entry.0.0.as_str(), entry.1.0);
        r.append(line.as_str());
        r.append("\n");
        assert(lines.take(i as int + 1).drop_last() =~= lines.take(i as int));
        i += 1;
    }
    assert(lines.take(i as int) =~= lines);
    let blank = show_count(lexicon.blank, scoreboard.blank_score().0);
    r.append(blank.as_str());
    r.append("\n");
    let invalid = show_count(lexicon.invalid, scoreboard.invalid_score().0);
    r.append(invalid.as_str());
    r
}

/// The attendance sheet as text.
pub fn show_attendance_sheet(attendance_sheet: &AttendanceSheet, lexicon: &Lexicon) -> (r: String)
    ensures
        r@ == attendance_text(attendance_sheet@, *lexicon),
{
    let ghost voters = attendance_sheet@;
    let mut r = String::from_str(lexicon.attendencesheet);
    r.append(" :\n");
    let ghost head = r@;
    let mut i: usize = 0;
    while i < attendance_sheet.0.len()
        invariant
            i <= attendance_sheet.0.len(),
            voters == attendance_sheet@,
            r@ == head + voter_lines(voters.take(i as int)),
        decreases attendance_sheet.0.len() - i,
    {
        r.append("• ");
        r.append(attendance_sheet.0[i].0.as_str());
        r.append("\n");
        assert(voters.take(i as int + 1).drop_last() =~= voters.take(i as int));
        i += 1;
    }
    assert(voters.take(i as int) =~= voters);
    r
}

/// The answer to a line that is no command.
pub fn show_invalid_command(lexicon: &Lexicon) -> (r: String)
    ensures
        r@ == invalid_command_text(*lexicon),
{
    let mut r = String::from_str(lexicon.invalid);
    r.append(" ! ");
    r.append(lexicon.ballotpaper);
    r.append(" : voter, votants ou score");
    r
}

/// What a line of the front end asks for.
#[derive(Debug, Clone, Copy, PartialEq, Eq, Structural)]
pub enum Command {
    /// Cast a vote: the voter's name and the candidate's name follow.
    Vote,
    /// Show the attendance sheet.
    Voters,
    /// Show the scoreboard.
    Scores,
    /// Anything else.
    Unknown,
}

/// The command a word names.
pub open spec fn command_named(word: Seq<char>) -> Command {
    if word == "voter"@ {
        Command::Vote
    } else if word == "votants"@ {
        Command::Voters
    } else if word == "score"@ {
        Command::Scores
    } else {
        Command::Unknown
    }
}

/// The command a word names.
pub fn command_of_word(word: &str) -> (r: Command)
    ensures
        r == command_named(word@),
{
    let word = String::from_str(word);
    if word == String::from_str("voter") {
        Command::Vote
    } else if word == String::from_str("votants") {
        Command::Voters
    } else if word == String::from_str("score") {
        Command::Scores
    } else {
        Command::Unknown
    }
}

/// The command a line names, once trimmed.
pub fn parse_command(line: &str) -> (r: Command)
    ensures
        r == command_named(trimmed(line@)),
{
    command_of_word(trim_line(line))
}

/// The answer to a line: a text to show, or the two questions that ask for a
/// ballot.
#[derive(Debug)]
pub enum Reply {
    Text(String),
    AskBallot { voter_prompt: String, candidate_prompt: String },
}

/// The question that asks for the voter's name.
pub open spec fn voter_prompt_text(lx: Lexicon) -> Seq<char> {
    lx.voter@ + " ?"@
}

/// The question that asks for the candidate's name.
pub open spec fn candidate_prompt_text(lx: Lexicon) -> Seq<char> {
    lx.candidate@ + " ? ("@ + lx.blank@ + ")"@
}

/// Answers one line of the front end. A vote asks for a ballot, which
/// `handle_ballot` then casts; the sheet and the scoreboard are read from the
/// store; anything else gets the list of commands.
pub fn handle_line<Store: Storage>(
    input: &str,
    controller: &VotingController<Store>,
    lexicon: &Lexicon,
) -> (r: Result<Reply, StorageError>)
    ensures
        command_named(trimmed(input@)) == Command::Vote ==> (r matches Ok(
            Reply::AskBallot { voter_prompt, candidate_prompt },
        ) && voter_prompt@ == voter_prompt_text(*lexicon) && candidate_prompt@
            == candidate_prompt_text(*lexicon)),
        command_named(trimmed(input@)) == Command::Voters ==> (controller.held() matches Some(t)
            ==> (r matches Ok(Reply::Text(s)) && s@ == attendance_text(t.voters, *lexicon))),
        command_named(trimmed(input@)) == Command::Scores ==> (controller.held() matches Some(t)
            ==> (r matches Ok(Reply::Text(s)) && s@ == scoreboard_text(t, *lexicon))),
        command_named(trimmed(input@)) == Command::Unknown ==> (r matches Ok(Reply::Text(s)) && s@
            == invalid_command_text(*lexicon)),
{
    match parse_command(input) {
        Command::Vote => {
            let mut voter_prompt = String::from_str(lexicon.voter);
            voter_prompt.append(" ?");
            let mut candidate_prompt = String::from_str(lexicon.candidate);
            candidate_prompt.append(" ? (");
            candidate_prompt.append(lexicon.blank);
            candidate_prompt.append(")");
            Ok(Reply::AskBallot { voter_prompt, candidate_prompt })
        },
        Command::Voters => {
            let voting_machine = controller.get_voting_machine()?;
            Ok(Reply::Text(show_attendance_sheet(voting_machine.get_voters(), lexicon)))
        },
        Command::Scores => {
            let voting_machine = controller.get_voting_machine()?;
            Ok(Reply::Text(show_scoreboard(voting_machine.get_scoreboard(), lexicon)))
        },
        Command::Unknown => Ok(Reply::Text(show_invalid_command(lexicon))),
    }
}

/// Casts the ballot given by the two lines that answer the questions of a
/// vote, each trimmed, and answers with the outcome's message.
pub fn handle_ballot<Store: Storage>(
    voter_line: &str,
    candidate_line: &str,
    controller: &mut VotingController<Store>,
    lexicon: &Lexicon,
) -> (r: Result<String, ControllerError>)
    ensures
        r matches Ok(s) ==> exists|o: Outcome|
            answers(o, form_ballot(trimmed(voter_line@), trimmed(candidate_line@)))
                && s@ == outcome_text(o, *lexicon),
        old(controller).held() is None ==> final(controller).held() is None,
        old(controller).held() matches Some(t) ==> {
            let b = form_ballot(trimmed(voter_line@), trimmed(candidate_line@));
            if t.can_record(b) {
                &&& r matches Ok(s) && s@ == outcome_text(t.outcome(b), *lexicon)
                &&& final(controller).held() == Some(t.record(b))
            } else {
                &&& r == Err::<String, ControllerError>(ControllerError::CountLimitReached)
                &&& final(controller).held() == old(controller).held()
            }
        },
{
    let vote_form = VoteForm {
        voter: String::from_str(trim_line(voter_line)),
        candidate: String::from_str(trim_line(candidate_line)),
    };
    let outcome = controller.vote(vote_form)?;
    Ok(show_vote_outcome(outcome, lexicon))
}

} // verus!
