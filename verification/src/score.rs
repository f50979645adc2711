//! Letter-by-letter scoring of a guess against the target word.
//!
//! The scoring is containment-based, not frequency-aware: a letter that
//! appears once in the target but twice in the guess is marked `Present`
//! both times. This is the intended behaviour, not an oversight.
use vstd::prelude::*;
use crate::words::is_ascii_alpha;
use crate::words::WORD_LEN;

verus! {

/// The feedback for one position of a guess.
#[derive(Clone, Copy, PartialEq, Eq, Debug, Structural)]
pub enum Mark {
    /// The letter is correct and in the correct position.
    Exact,
    /// The letter exists in the target, but in another position.
    Present,
    /// The letter does not exist in the target at all.
    Absent,
}

/// The mark position `i` of `guess` earns against `target`.
pub open spec fn mark_of(guess: Seq<char>, target: Seq<char>, i: int) -> Mark {
    if guess[i] == target[i] {
        Mark::Exact
    } else if target.contains(guess[i]) {
        Mark::Present
    } else {
        Mark::Absent
    }
}

/// The whole row of marks for a guess.
pub open spec fn score_spec(guess: Seq<char>, target: Seq<char>) -> Seq<Mark> {
    Seq::new(guess.len(), |i: int| mark_of(guess, target, i))
}

/// Whether `s` holds the character `c` anywhere.
fn contains_char(s: &str, c: char) -> (r: bool)
    ensures
        r == s@.contains(c),
{
    let n = s.unicode_len();
    let mut j: usize = 0;
    while j < n
        invariant
            n == s@.len(),
            j <= n,
            forall|k: int| 0 <= k < j ==> s@[k] != c,
        decreases n - j,
    {
        if s.get_char(j) == c {
            proof {
                assert(s@[j as int] == c);
            }
            return true;
        }
        j += 1;
    }
    false
}

/// Score `guess` against `target`: `Exact` where the letters agree,
/// `Present` where the guessed letter occurs elsewhere in the target,
/// `Absent` where it occurs nowhere in it.
pub fn score_words(guess: &str, target: &str) -> (marks: Vec<Mark>)
    requires
        guess@.len() == WORD_LEN,
        target@.len() == WORD_LEN,
    ensures
        marks@ == score_spec(guess@, target@),
{
    let mut marks: Vec<Mark> = Vec::new();
    let mut i: usize = 0;
    while i < WORD_LEN
        invariant
            guess@.len() == WORD_LEN,
            target@.len() == WORD_LEN,
            i <= WORD_LEN,
            marks@.len() == i,
            forall|k: int| 0 <= k < i ==> marks@[k] == mark_of(guess@, target@, k),
        decreases WORD_LEN - i,
    {
        let gc = guess.get_char(i);
        let m = if gc == target.get_char(i) {
            Mark::Exact
        } else if contains_char(target, gc) {
            Mark::Present
        } else {
            Mark::Absent
        };
        marks.push(m);
        i += 1;
    }
    proof {
        assert(marks@ =~= score_spec(guess@, target@));
    }
    marks
}

/// Law: scoring any five-letter alphabetic word against itself yields an
/// `Exact` mark at every position.
pub proof fn lemma_score_self_exact(w: Seq<char>)
    requires
        w.len() == WORD_LEN,
        forall|i: int| 0 <= i < w.len() ==> is_ascii_alpha(w[i]),
    ensures
        score_spec(w, w).len() == WORD_LEN,
        forall|i: int| 0 <= i < WORD_LEN ==> score_spec(w, w)[i] == Mark::Exact,
{
}

} // verus!
