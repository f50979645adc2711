//! A verified core for a terminal word-guessing game: a hidden five-letter
//! target word is drawn from a dictionary, and the player submits guesses
//! that are normalized, validated, scored letter by letter, and recorded
//! until the word is found or the attempts run out.
pub mod game;
pub mod score;
pub mod words;

pub use game::GameState;
pub use game::GuessError;
pub use game::Wordle;
pub use game::MAX_TRIES;
pub use score::score_words;
pub use score::Mark;
pub use words::normalize;
pub use words::parse_dictionary;
pub use words::WORD_LEN;
