use wordle::GameState;
use wordle::GuessError;
use wordle::Mark;
use wordle::Wordle;

const THREE_WORDS: &str = "crane\nslate\ntrain";
const SEVEN_WORDS: &str = "crane\nslate\ntrain\nbrick\nmound\nvivid\nquery";

#[test]
fn game_is_not_over_while_history_is_empty() {
    let game = Wordle::start_with_index(THREE_WORDS, 0).unwrap();
    assert!(!game.is_game_over());
    assert_eq!(game.state(), GameState::AwaitingGuess);
    assert_eq!(game.guess_count(), 0);
}

#[test]
fn start_with_index_picks_that_entry() {
    let game = Wordle::start_with_index(THREE_WORDS, 1).unwrap();
    assert_eq!(game.target_word().as_str(), "SLATE");
    assert!(Wordle::start_with_index(THREE_WORDS, 3).is_none());
}

#[test]
fn new_draws_a_dictionary_word() {
    let game = Wordle::new("crane").unwrap();
    assert_eq!(game.target_word().as_str(), "CRANE");
    let game = Wordle::new(SEVEN_WORDS).unwrap();
    let dict = wordle::parse_dictionary(SEVEN_WORDS);
    assert!(dict.contains(game.target_word()));
}

#[test]
fn new_fails_on_an_empty_dictionary() {
    assert!(Wordle::new("").is_none());
    assert!(Wordle::new("ab\ncd\ntoolong").is_none());
}

#[test]
fn winning_scenario_in_three_guesses() {
    let mut game = Wordle::start_with_index(THREE_WORDS, 0).unwrap();
    assert_eq!(game.target_word().as_str(), "CRANE");

    assert_eq!(game.try_guess("slate"), Ok("SLATE".to_string()));
    assert!(!game.is_game_over());
    assert_eq!(game.try_guess("train"), Ok("TRAIN".to_string()));
    assert!(!game.is_game_over());
    assert_eq!(game.try_guess("crane"), Ok("CRANE".to_string()));

    assert!(game.is_game_over());
    assert_eq!(game.state(), GameState::Won);
    assert_eq!(game.guess_count(), 3);
}

#[test]
fn losing_scenario_reveals_the_target() {
    let mut game = Wordle::start_with_index(SEVEN_WORDS, 0).unwrap();
    for guess in ["slate", "train", "brick", "mound", "vivid", "query"] {
        assert!(!game.is_game_over());
        assert!(game.try_guess(guess).is_ok());
    }
    assert!(game.is_game_over());
    assert_eq!(game.state(), GameState::Lost);
    assert_eq!(game.guess_count(), 6);
    assert_eq!(game.target_word().as_str(), "CRANE");
}

#[test]
fn sixth_matching_guess_still_wins() {
    let mut game = Wordle::start_with_index(SEVEN_WORDS, 0).unwrap();
    for guess in ["slate", "train", "brick", "mound", "vivid"] {
        assert!(game.try_guess(guess).is_ok());
    }
    assert!(!game.is_game_over());
    assert_eq!(game.try_guess("crane"), Ok("CRANE".to_string()));
    assert!(game.is_game_over());
    assert_eq!(game.state(), GameState::Won);
}

#[test]
fn wrong_length_input_is_rejected_and_nothing_changes() {
    let mut game = Wordle::start_with_index(THREE_WORDS, 0).unwrap();
    assert_eq!(game.try_guess("abc"), Err(GuessError::WrongLength));
    assert_eq!(game.try_guess("toolong"), Err(GuessError::WrongLength));
    assert_eq!(game.guess_count(), 0);
    assert!(!game.is_game_over());
}

#[test]
fn normalized_input_is_accepted_when_in_dictionary() {
    let mut game = Wordle::start_with_index(THREE_WORDS, 0).unwrap();
    assert_eq!(game.try_guess("cr4ane!"), Ok("CRANE".to_string()));
    assert_eq!(game.guess_count(), 1);
    assert_eq!(game.state(), GameState::Won);
}

#[test]
fn five_letter_word_outside_dictionary_is_rejected() {
    let mut game = Wordle::start_with_index(THREE_WORDS, 0).unwrap();
    assert_eq!(game.try_guess("query"), Err(GuessError::NotInDictionary));
    assert_eq!(game.guess_count(), 0);
}

#[test]
fn feedback_scores_every_guess_and_records_absent_letters() {
    let mut game = Wordle::start_with_index(THREE_WORDS, 0).unwrap();
    game.try_guess("slate").unwrap();
    let rows = game.guess_feedback();
    assert_eq!(rows.len(), 1);
    // SLATE against CRANE: S, L, T absent; A and E exact.
    assert_eq!(
        rows[0],
        vec![
            Mark::Absent,
            Mark::Absent,
            Mark::Exact,
            Mark::Absent,
            Mark::Exact
        ]
    );
    let invalid = game.invalid_letter_list().clone();
    assert_eq!(invalid, vec!['S', 'L', 'T']);

    game.try_guess("train").unwrap();
    let rows = game.guess_feedback();
    assert_eq!(rows.len(), 2);
    // TRAIN against CRANE: T absent, R exact, A exact, I absent, N present.
    assert_eq!(
        rows[1],
        vec![
            Mark::Absent,
            Mark::Exact,
            Mark::Exact,
            Mark::Absent,
            Mark::Present
        ]
    );
    let invalid = game.invalid_letter_list().clone();
    assert_eq!(invalid, vec!['S', 'L', 'T', 'I']);
}

#[test]
fn accepted_guesses_are_kept_in_order() {
    let mut game = Wordle::start_with_index(SEVEN_WORDS, 0).unwrap();
    game.try_guess("slate").unwrap();
    game.try_guess("train").unwrap();
    assert_eq!(game.guess_words(), &vec!["SLATE".to_string(), "TRAIN".to_string()]);
}
