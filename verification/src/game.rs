//! The game session: the dictionary, the hidden target word, the history
//! of accepted guesses, and the letters known to be absent from the target.
use vstd::prelude::*;
use crate::score::mark_of;
use crate::score::score_words;
use crate::score::score_spec;
use crate::score::Mark;
use crate::words::dictionary_spec;
use crate::words::is_normal;
use crate::words::normalize;
use crate::words::normalize_spec;
use crate::words::parse_dictionary;
use crate::words::WORD_LEN;

verus! {

/// A game is lost after this many guesses without a win.
pub const MAX_TRIES: usize = 6;

/// Why a submitted guess was rejected.
#[derive(Clone, Copy, PartialEq, Eq, Debug, Structural)]
pub enum GuessError {
    /// The normalized input does not have exactly five letters.
    WrongLength,
    /// The normalized input is five letters but not a dictionary word.
    NotInDictionary,
}

/// The three states of a session. `Won` and `Lost` are terminal.
#[derive(Clone, Copy, PartialEq, Eq, Debug, Structural)]
pub enum GameState {
    /// The game is still open for guesses.
    AwaitingGuess,
    /// The last accepted guess equals the target word.
    Won,
    /// All tries are used up without finding the target.
    Lost,
}

#[verifier::external_type_specification]
#[verifier::external_body]
pub struct ExRandomNumberGenerator(bracket_random::prelude::RandomNumberGenerator);

pub assume_specification[ bracket_random::prelude::RandomNumberGenerator::new ]() -> (rng:
    bracket_random::prelude::RandomNumberGenerator)
;

/// Relies on `RandomNumberGenerator::random_slice_index`: it answers `None`
/// exactly on an empty slice and otherwise some index into the slice. The
/// slice length is bounded because the generator works through `i32` dice
/// rolls internally.
pub assume_specification<T>[ bracket_random::prelude::RandomNumberGenerator::random_slice_index ](
    rng: &mut bracket_random::prelude::RandomNumberGenerator,
    slice: &[T],
) -> (r: Option<usize>)
    requires
        slice@.len() < 0x7fff_ffff,
    ensures
        (r is Some) == (slice@.len() > 0),
        r matches Some(i) ==> i < slice@.len(),
;

/// One session of the word-guessing game.
pub struct Wordle {
    /// The playable words: five uppercase ASCII letters each.
    pub dictionary: Vec<String>,
    /// The hidden target word, an entry of the dictionary.
    pub word: String,
    /// Letters confirmed absent from the target, without duplicates.
    pub invalid_letters: Vec<char>,
    /// The accepted guesses, in order of submission.
    pub guesses: Vec<String>,
}

impl Wordle {
    /// The dictionary as a sequence of character sequences.
    pub open spec fn dict(self) -> Seq<Seq<char>> {
        self.dictionary.deep_view()
    }

    /// The hidden target word.
    pub open spec fn target(self) -> Seq<char> {
        self.word@
    }

    /// The accepted guesses, in order.
    pub open spec fn history(self) -> Seq<Seq<char>> {
        self.guesses.deep_view()
    }

    /// `c` occurs in one of the first `k` guesses and nowhere in the target.
    pub open spec fn absent_upto(self, k: int, c: char) -> bool {
        !self.target().contains(c) && exists|i: int|
            0 <= i < k && (#[trigger] self.history()[i]).contains(c)
    }

    /// `c` occurs in an accepted guess and nowhere in the target.
    pub open spec fn absent_letter(self, c: char) -> bool {
        self.absent_upto(self.history().len() as int, c)
    }

    /// Well-formedness: dictionary entries are five-letter words in normal
    /// form, the target is a dictionary entry, every accepted guess is a
    /// dictionary entry, no more guesses are held than the game allows, and
    /// the recorded invalid letters are distinct letters of guesses that do
    /// not occur in the target.
    pub open spec fn wf(self) -> bool {
        &&& forall|i: int|
            0 <= i < self.dict().len() ==> (#[trigger] self.dict()[i]).len() == WORD_LEN
                && is_normal(self.dict()[i])
        &&& self.dict().contains(self.target())
        &&& self.history().len() <= MAX_TRIES
        &&& forall|i: int|
            0 <= i < self.history().len() ==> self.dict().contains(#[trigger] self.history()[i])
        &&& forall|i: int, j: int|
            0 <= i < j < self.invalid_letters@.len() ==> self.invalid_letters@[i]
                != self.invalid_letters@[j]
        &&& forall|i: int|
            0 <= i < self.invalid_letters@.len() ==> self.absent_letter(
                #[trigger] self.invalid_letters@[i],
            )
    }

    /// The last accepted guess equals the target.
    pub open spec fn won(self) -> bool {
        self.history().len() > 0 && self.history().last() == self.target()
    }

    /// The game has ended: the target was found, or all tries are used up.
    pub open spec fn game_over(self) -> bool {
        self.history().len() > 0 && (self.history().last() == self.target()
            || self.history().len() >= MAX_TRIES)
    }

    /// The state the session is in.
    pub open spec fn state_spec(self) -> GameState {
        if self.won() {
            GameState::Won
        } else if self.history().len() >= MAX_TRIES {
            GameState::Lost
        } else {
            GameState::AwaitingGuess
        }
    }

    /// Start a session over the word list in `words_text`, with the
    /// dictionary entry at `target_index` as the target word. Answers
    /// `None` exactly when the index does not name a dictionary entry.
    pub fn start_with_index(words_text: &str, target_index: usize) -> (r: Option<Wordle>)
        ensures
            (r is Some) == (target_index < dictionary_spec(words_text@).len()),
            r matches Some(game) ==> {
                &&& game.wf()
                &&& game.dict() == dictionary_spec(words_text@)
                &&& game.target() == dictionary_spec(words_text@)[target_index as int]
                &&& game.history().len() == 0
                &&& game.invalid_letters@.len() == 0
            },
    {
        let dictionary = parse_dictionary(words_text);
        if target_index < dictionary.len() {
            let word = dictionary[target_index].clone();
            let game = Wordle {
                dictionary,
                word,
                invalid_letters: Vec::new(),
                guesses: Vec::new(),
            };
            proof {
                assert(game.dict()[target_index as int] == game.target());
            }
            Some(game)
        } else {
            None
        }
    }

    /// Start a session over the word list in `words_text`, with a target
    /// word drawn from the dictionary by the random number generator.
    /// Answers `None` exactly when the text yields an empty dictionary.
    pub fn new(words_text: &str) -> (r: Option<Wordle>)
        requires
            words_text@.len() < 0x7fff_0000,
        ensures
            (r is Some) == (dictionary_spec(words_text@).len() > 0),
            r matches Some(game) ==> {
                &&& game.wf()
                &&& game.dict() == dictionary_spec(words_text@)
                &&& dictionary_spec(words_text@).contains(game.target())
                &&& game.history().len() == 0
                &&& game.invalid_letters@.len() == 0
            },
    {
        let dictionary = parse_dictionary(words_text);
        let mut rng = bracket_random::prelude::RandomNumberGenerator::new();
        match rng.random_slice_index(dictionary.as_slice()) {
            Some(target_index) => {
                let word = dictionary[target_index].clone();
                let game = Wordle {
                    dictionary,
                    word,
                    invalid_letters: Vec::new(),
                    guesses: Vec::new(),
                };
                proof {
                    assert(game.dict()[target_index as int] == game.target());
                }
                Some(game)
            },
            None => None,
        }
    }

    /// Normalize `raw` and accept it as the next guess when it has exactly
    /// five letters and is a dictionary word; otherwise reject it with the
    /// reason and leave the session unchanged. An accepted guess is
    /// appended to the history and handed back.
    pub fn try_guess(&mut self, raw: &str) -> (r: Result<String, GuessError>)
        requires
            old(self).wf(),
            !old(self).game_over(),
        ensures
            final(self).wf(),
            final(self).dictionary == old(self).dictionary,
            final(self).word == old(self).word,
            final(self).invalid_letters == old(self).invalid_letters,
            (r is Ok) == (normalize_spec(raw@).len() == WORD_LEN && old(self).dict().contains(
                normalize_spec(raw@),
            )),
            match r {
                Ok(accepted) => {
                    &&& accepted@ == normalize_spec(raw@)
                    &&& accepted@.len() == WORD_LEN
                    &&& old(self).dict().contains(accepted@)
                    &&& final(self).history() == old(self).history().push(accepted@)
                },
                Err(reason) => {
                    &&& *final(self) == *old(self)
                    &&& (reason == GuessError::WrongLength) == (normalize_spec(raw@).len()
                        != WORD_LEN)
                    &&& (reason == GuessError::NotInDictionary) == (normalize_spec(raw@).len()
                        == WORD_LEN && !old(self).dict().contains(normalize_spec(raw@)))
                },
            },
    {
        let guess = normalize(raw);
        if guess.as_str().unicode_len() != WORD_LEN {
            Err(GuessError::WrongLength)
        } else if !dict_contains(&self.dictionary, &guess) {
            Err(GuessError::NotInDictionary)
        } else {
            let accepted = guess.clone();
            self.guesses.push(guess);
            proof {
                assert(self.history() =~= old(self).history().push(accepted@));
                assert forall|i: int|
                    0 <= i < self.invalid_letters@.len() implies self.absent_letter(
                    #[trigger] self.invalid_letters@[i],
                ) by {
                    let c = self.invalid_letters@[i];
                    assert(old(self).absent_letter(c));
                    let j = choose|j: int|
                        0 <= j < old(self).history().len() && (#[trigger] old(self).history()[j]).contains(c);
                    assert(self.history()[j].contains(c));
                }
            }
            Ok(accepted)
        }
    }

    /// Score a five-letter guess against the hidden target word.
    pub fn score_guess(&self, guess: &str) -> (marks: Vec<Mark>)
        requires
            self.wf(),
            guess@.len() == WORD_LEN,
        ensures
            marks@ == score_spec(guess@, self.target()),
    {
        proof {
            assert(self.dict().contains(self.target()));
            let i = choose|i: int| 0 <= i < self.dict().len() && self.dict()[i] == self.target();
            assert(self.dict()[i].len() == WORD_LEN);
        }
        score_words(guess, self.word.as_str())
    }

    /// Whether the game has ended: true exactly when the last accepted
    /// guess equals the target or the history holds all six tries, and in
    /// particular false while the history is empty.
    pub fn is_game_over(&self) -> (r: bool)
        ensures
            r == self.game_over(),
            self.history().len() == 0 ==> r == false,
            r == (self.state_spec() != GameState::AwaitingGuess),
    {
        let n = self.guesses.len();
        if n == 0 {
            false
        } else {
            let last = &self.guesses[n - 1];
            if *last == self.word {
                true
            } else {
                n >= MAX_TRIES
            }
        }
    }

    /// The state the session is in: `Won`, `Lost`, or still awaiting a guess.
    pub fn state(&self) -> (s: GameState)
        ensures
            s == self.state_spec(),
    {
        let n = self.guesses.len();
        if n == 0 {
            GameState::AwaitingGuess
        } else {
            let last = &self.guesses[n - 1];
            if *last == self.word {
                GameState::Won
            } else if n >= MAX_TRIES {
                GameState::Lost
            } else {
                GameState::AwaitingGuess
            }
        }
    }

    /// Score every accepted guess against the target, in order, and record
    /// every letter that earned an `Absent` mark. After the call the
    /// invalid letters are exactly the letters recorded before plus the
    /// letters of accepted guesses that occur nowhere in the target.
    pub fn guess_feedback(&mut self) -> (rows: Vec<Vec<Mark>>)
        requires
            old(self).wf(),
        ensures
            final(self).wf(),
            final(self).dictionary == old(self).dictionary,
            final(self).word == old(self).word,
            final(self).guesses == old(self).guesses,
            rows@.len() == old(self).history().len(),
            forall|i: int|
                0 <= i < rows@.len() ==> (#[trigger] rows@[i])@ == score_spec(
                    old(self).history()[i],
                    old(self).target(),
                ),
            forall|c: char|
                #[trigger] final(self).invalid_letters@.contains(c) <==> old(
                    self,
                ).invalid_letters@.contains(c) || old(self).absent_letter(c),
    {
        let m = self.guesses.len();
        let mut rows: Vec<Vec<Mark>> = Vec::new();
        let mut idx: usize = 0;
        while idx < m
            invariant
                self.wf(),
                m == self.guesses@.len(),
                idx <= m,
                self.dictionary == old(self).dictionary,
                self.word == old(self).word,
                self.guesses == old(self).guesses,
                rows@.len() == idx,
                forall|i: int|
                    0 <= i < idx ==> (#[trigger] rows@[i])@ == score_spec(
                        self.history()[i],
                        self.target(),
                    ),
                forall|c: char|
                    #[trigger] self.invalid_letters@.contains(c) <==> old(
                        self,
                    ).invalid_letters@.contains(c) || self.absent_upto(idx as int, c),
            decreases m - idx,
        {
            let ghost inv_before = self.invalid_letters@;
            let g = self.guesses[idx].clone();
            proof {
                assert(g@ == self.history()[idx as int]);
                assert(self.dict().contains(self.history()[idx as int]));
                let j = choose|j: int|
                    0 <= j < self.dict().len() && self.dict()[j] == self.history()[idx as int];
                assert(self.dict()[j].len() == WORD_LEN);
                assert(self.dict().contains(self.target()));
                let k = choose|k: int|
                    0 <= k < self.dict().len() && self.dict()[k] == self.target();
                assert(self.dict()[k].len() == WORD_LEN);
            }
            let marks = score_words(g.as_str(), self.word.as_str());
            let mut p: usize = 0;
            while p < WORD_LEN
                invariant
                    self.wf(),
                    m == self.guesses@.len(),
                    idx < m,
                    g@ == self.history()[idx as int],
                    g@.len() == WORD_LEN,
                    self.word@.len() == WORD_LEN,
                    marks@ == score_spec(g@, self.word@),
                    p <= WORD_LEN,
                    self.dictionary == old(self).dictionary,
                    self.word == old(self).word,
                    self.guesses == old(self).guesses,
                    forall|c: char|
                        #[trigger] self.invalid_letters@.contains(c) <==> inv_before.contains(c)
                            || (!self.target().contains(c) && exists|q: int|
                            0 <= q < p && g@[q] == c),
                decreases WORD_LEN - p,
            {
                let c = g.as_str().get_char(p);
                if marks[p] == Mark::Absent {
                    proof {
                        assert(marks@[p as int] == mark_of(g@, self.word@, p as int));
                        assert(!self.target().contains(c));
                    }
                    let ghost inv_at_p = self.invalid_letters@;
                    if !char_vec_contains(&self.invalid_letters, c) {
                        self.invalid_letters.push(c);
                        proof {
                            assert forall|x: char| #[trigger]
                                self.invalid_letters@.contains(x) implies inv_at_p.contains(x) || x
                                == c by {
                                let w = choose|w: int|
                                    0 <= w < self.invalid_letters@.len()
                                        && self.invalid_letters@[w] == x;
                                if w < inv_at_p.len() {
                                    assert(inv_at_p[w] == x);
                                }
                            }
                            assert(self.invalid_letters@[self.invalid_letters@.len() - 1] == c);
                            assert(self.invalid_letters@.contains(c));
                            assert forall|x: char| inv_at_p.contains(x) implies #[trigger]
                                self.invalid_letters@.contains(x) by {
                                let w = choose|w: int|
                                    0 <= w < inv_at_p.len() && inv_at_p[w] == x;
                                assert(self.invalid_letters@[w] == x);
                            }
                            assert forall|i: int, j: int|
                                0 <= i < j < self.invalid_letters@.len() implies
                                self.invalid_letters@[i] != self.invalid_letters@[j] by {
                                if j == self.invalid_letters@.len() - 1 {
                                    assert(inv_at_p[i] == self.invalid_letters@[i]);
                                    assert(inv_at_p.contains(self.invalid_letters@[i]));
                                }
                            }
                            assert(self.absent_letter(c)) by {
                                assert(self.history()[idx as int].contains(c)) by {
                                    assert(self.history()[idx as int][p as int] == c);
                                }
                            }
                        }
                    }
                }
                proof {
                    let t = self.target();
                    assert forall|x: char| #[trigger]
                        self.invalid_letters@.contains(x) implies inv_before.contains(x) || (
                    !t.contains(x) && exists|q: int| 0 <= q < p + 1 && g@[q] == x) by {
                        if !inv_before.contains(x) && !(exists|q: int|
                            0 <= q < p && g@[q] == x && !t.contains(x))
                            && !t.contains(x) {
                            assert(x == c);
                            assert(g@[p as int] == x);
                        }
                    }
                    assert forall|x: char|
                        inv_before.contains(x) || (!t.contains(x) && exists|q: int|
                            0 <= q < p + 1 && g@[q] == x) implies #[trigger]
                        self.invalid_letters@.contains(x) by {
                        if !inv_before.contains(x) && !t.contains(x) {
                            let q = choose|q: int| 0 <= q < p + 1 && g@[q] == x;
                            if q == p {
                                assert(x == c);
                                assert(marks@[p as int] == mark_of(g@, self.word@, p as int));
                                assert(marks@[p as int] == Mark::Absent);
                                assert(self.invalid_letters@.contains(c));
                            }
                        }
                    }
                }
                p += 1;
            }
            rows.push(marks);
            proof {
                assert forall|c: char| #[trigger]
                    self.invalid_letters@.contains(c) <==> old(self).invalid_letters@.contains(c)
                    || self.absent_upto(idx + 1, c) by {
                    let t = self.target();
                    if self.invalid_letters@.contains(c) {
                        if !inv_before.contains(c) {
                            assert(!t.contains(c));
                            let q = choose|q: int| 0 <= q < WORD_LEN && g@[q] == c;
                            assert(self.history()[idx as int].contains(c));
                            assert(self.absent_upto(idx + 1, c));
                        } else {
                            if !old(self).invalid_letters@.contains(c) {
                                assert(self.absent_upto(idx as int, c));
                                let i = choose|i: int|
                                    0 <= i < idx && (#[trigger] self.history()[i]).contains(c);
                                assert(self.absent_upto(idx + 1, c));
                            }
                        }
                    } else {
                        assert(!inv_before.contains(c));
                        if self.absent_upto(idx + 1, c) {
                            let i = choose|i: int|
                                0 <= i < idx + 1 && (#[trigger] self.history()[i]).contains(c);
                            if i < idx {
                                assert(self.absent_upto(idx as int, c));
                            } else {
                                let q = choose|q: int|
                                    0 <= q < g@.len() && g@[q] == c;
                                assert(exists|q: int| 0 <= q < WORD_LEN && g@[q] == c);
                            }
                            assert(false);
                        }
                    }
                }
            }
            idx += 1;
        }
        proof {
            assert forall|c: char| #[trigger] self.invalid_letters@.contains(c) <==> old(
                self,
            ).invalid_letters@.contains(c) || old(self).absent_letter(c) by {
                assert(self.absent_upto(m as int, c) == old(self).absent_letter(c));
            }
        }
        rows
    }

    /// The hidden target word, for the end-of-game summary.
    pub fn target_word(&self) -> (w: &String)
        ensures
            w@ == self.target(),
    {
        &self.word
    }

    /// How many guesses were accepted so far.
    pub fn guess_count(&self) -> (n: usize)
        ensures
            n == self.history().len(),
    {
        self.guesses.len()
    }

    /// The accepted guesses, in order of submission.
    pub fn guess_words(&self) -> (g: &Vec<String>)
        ensures
            g.deep_view() == self.history(),
    {
        &self.guesses
    }

    /// The letters confirmed absent from the target so far.
    pub fn invalid_letter_list(&self) -> (l: &Vec<char>)
        ensures
            l@ == self.invalid_letters@,
    {
        &self.invalid_letters
    }
}

/// Whether the character `c` is among those recorded in `letters`.
fn char_vec_contains(letters: &Vec<char>, c: char) -> (r: bool)
    ensures
        r == letters@.contains(c),
{
    let n = letters.len();
    let mut j: usize = 0;
    while j < n
        invariant
            n == letters@.len(),
            j <= n,
            forall|k: int| 0 <= k < j ==> letters@[k] != c,
        decreases n - j,
    {
        if letters[j] == c {
            proof {
                assert(letters@[j as int] == c);
            }
            return true;
        }
        j += 1;
    }
    false
}

/// Whether `word` is an entry of the dictionary, by exact string equality.
fn dict_contains(dictionary: &Vec<String>, word: &String) -> (r: bool)
    ensures
        r == dictionary.deep_view().contains(word@),
{
    let n = dictionary.len();
    let mut j: usize = 0;
    while j < n
        invariant
            n == dictionary@.len(),
            j <= n,
            forall|k: int| 0 <= k < j ==> dictionary.deep_view()[k] != word@,
        decreases n - j,
    {
        if dictionary[j] == *word {
            proof {
                assert(dictionary.deep_view()[j as int] == word@);
            }
            return true;
        }
        j += 1;
    }
    false
}

} // verus!
