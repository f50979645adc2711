//! Normalization of raw input into candidate words, and parsing of a
//! newline-delimited word list into the playable dictionary.
use vstd::prelude::*;

verus! {

/// Every playable word has exactly this many letters.
pub const WORD_LEN: usize = 5;

pub open spec fn is_upper_alpha(c: char) -> bool {
    'A' <= c && c <= 'Z'
}

pub open spec fn is_lower_alpha(c: char) -> bool {
    'a' <= c && c <= 'z'
}

pub open spec fn is_ascii_alpha(c: char) -> bool {
    is_upper_alpha(c) || is_lower_alpha(c)
}

/// A word is in normal form when every character is an uppercase ASCII letter.
pub open spec fn is_normal(s: Seq<char>) -> bool {
    forall|i: int| 0 <= i < s.len() ==> is_upper_alpha(s[i])
}

/// The characters that `str::trim` leaves of a string.
pub uninterp spec fn trim_of(s: Seq<char>) -> Seq<char>;

/// The characters that `str::to_uppercase` returns for a string.
pub uninterp spec fn upper_of(s: Seq<char>) -> Seq<char>;

/// The subsequence of ASCII letters of `s`, in order.
pub open spec fn alpha_only(s: Seq<char>) -> Seq<char> {
    s.filter(|c: char| is_ascii_alpha(c))
}

/// Normalization of raw input: trim surrounding whitespace, uppercase,
/// then keep only the ASCII letters.
pub open spec fn normalize_spec(s: Seq<char>) -> Seq<char> {
    alpha_only(upper_of(trim_of(s)))
}

/// Relies on `str::trim`: it removes leading and trailing whitespace and
/// nothing else, so a string made of uppercase ASCII letters comes back
/// unchanged.
pub assume_specification[ str::trim ](s: &str) -> (r: &str)
    ensures
        r@ == trim_of(s@),
        is_normal(s@) ==> r@ == s@,
;

/// Relies on `str::to_uppercase`: the result is the Unicode uppercase
/// mapping of the input, which depends on the characters alone; characters
/// that are already uppercase are unchanged, and no character maps to a
/// lowercase ASCII letter.
pub assume_specification[ str::to_uppercase ](s: &str) -> (r: String)
    ensures
        r@ == upper_of(s@),
        is_normal(s@) ==> r@ == s@,
        forall|i: int| 0 <= i < r@.len() ==> !is_lower_alpha(r@[i]),
;

/// Relies on `String`'s `FromIterator<char>`: collecting characters yields
/// the string of exactly those characters, in order.
#[verifier::external_body]
fn chars_to_string(chars: &Vec<char>) -> (r: String)
    ensures
        r@ == chars@,
{
    chars.iter().collect()
}

/// Normalize one line of raw input: trim whitespace, uppercase, and strip
/// everything but ASCII letters. Normalization is idempotent: a word that
/// is already in normal form comes back unchanged.
pub fn normalize(raw: &str) -> (r: String)
    ensures
        r@ == normalize_spec(raw@),
        is_normal(r@),
        is_normal(raw@) ==> r@ == raw@,
{
    let trimmed = raw.trim();
    let upper = trimmed.to_uppercase();
    let u = upper.as_str();
    let n = u.unicode_len();
    let mut kept: Vec<char> = Vec::new();
    let mut i: usize = 0;
    while i < n
        invariant
            n == u@.len(),
            u@ == upper_of(trim_of(raw@)),
            forall|k: int| 0 <= k < u@.len() ==> !is_lower_alpha(u@[k]),
            i <= n,
            kept@ == alpha_only(u@.subrange(0, i as int)),
            is_normal(kept@),
            is_normal(raw@) ==> u@ == raw@ && kept@ == u@.subrange(0, i as int),
        decreases n - i,
    {
        let c = u.get_char(i);
        proof {
            broadcast use vstd::prelude::Seq::lemma_filter_push;

            assert(u@.subrange(0, i + 1).drop_last() =~= u@.subrange(0, i as int));
            assert(u@.subrange(0, i + 1) =~= u@.subrange(0, i as int).push(c));
        }
        if ('A' <= c && c <= 'Z') || ('a' <= c && c <= 'z') {
            kept.push(c);
        }
        i += 1;
    }
    proof {
        assert(u@.subrange(0, n as int) =~= u@);
    }
    let r = chars_to_string(&kept);
    r
}

/// The lines of a text, split at every `'\n'`: one more line than there are
/// newline characters, the newline itself belonging to no line.
pub open spec fn split_lines_spec(text: Seq<char>) -> Seq<Seq<char>>
    decreases text.len(),
{
    if text.len() == 0 {
        seq![Seq::<char>::empty()]
    } else if text.last() == '\n' {
        split_lines_spec(text.drop_last()).push(Seq::<char>::empty())
    } else {
        let prev = split_lines_spec(text.drop_last());
        prev.update(prev.len() - 1, prev.last().push(text.last()))
    }
}

pub proof fn lemma_split_lines_len(text: Seq<char>)
    ensures
        1 <= split_lines_spec(text).len() <= text.len() + 1,
    decreases text.len(),
{
    if text.len() > 0 {
        lemma_split_lines_len(text.drop_last());
    }
}

/// Every line of the split, once normalized, that has exactly `WORD_LEN`
/// letters, in the order the lines stand in the text.
pub open spec fn normalize_lines(lines: Seq<Seq<char>>) -> Seq<Seq<char>> {
    lines.map_values(|line: Seq<char>| normalize_spec(line))
}

pub open spec fn keep_word_len(words: Seq<Seq<char>>) -> Seq<Seq<char>> {
    words.filter(|w: Seq<char>| w.len() == WORD_LEN)
}

/// The dictionary a word-list text yields: each line normalized, and only
/// the five-letter results retained.
pub open spec fn dictionary_spec(text: Seq<char>) -> Seq<Seq<char>> {
    keep_word_len(normalize_lines(split_lines_spec(text)))
}

proof fn lemma_normalize_lines_push(lines: Seq<Seq<char>>, line: Seq<char>)
    ensures
        normalize_lines(lines.push(line)) == normalize_lines(lines).push(normalize_spec(line)),
{
    assert(normalize_lines(lines.push(line)) =~= normalize_lines(lines).push(
        normalize_spec(line),
    ));
}

/// Parse a newline-delimited word list: normalize each line and keep
/// exactly the lines that normalize to five letters. Every entry of the
/// result is a five-letter word in normal form.
pub fn parse_dictionary(text: &str) -> (dict: Vec<String>)
    ensures
        dict.deep_view() == dictionary_spec(text@),
        forall|i: int|
            0 <= i < dict@.len() ==> (#[trigger] dict.deep_view()[i]).len() == WORD_LEN
                && is_normal(dict.deep_view()[i]),
        dict@.len() <= text@.len() + 1,
{
    let n = text.unicode_len();
    let mut dict: Vec<String> = Vec::new();
    let mut cur: Vec<char> = Vec::new();
    let mut i: usize = 0;
    while i < n
        invariant
            n == text@.len(),
            i <= n,
            split_lines_spec(text@.subrange(0, i as int)).last() == cur@,
            dict.deep_view() == keep_word_len(
                normalize_lines(split_lines_spec(text@.subrange(0, i as int)).drop_last()),
            ),
            forall|k: int|
                0 <= k < dict@.len() ==> (#[trigger] dict.deep_view()[k]).len() == WORD_LEN
                    && is_normal(dict.deep_view()[k]),
            dict@.len() <= i,
        decreases n - i,
    {
        let ghost prefix = text@.subrange(0, i as int);
        let c = text.get_char(i);
        proof {
            lemma_split_lines_len(prefix);
            assert(text@.subrange(0, i + 1).drop_last() =~= prefix);
            assert(text@.subrange(0, i + 1) =~= prefix.push(c));
        }
        if c == '\n' {
            let line = chars_to_string(&cur);
            let w = normalize(line.as_str());
            proof {
                broadcast use vstd::prelude::Seq::lemma_filter_push;

                let lines = split_lines_spec(prefix);
                lemma_normalize_lines_push(lines.drop_last(), lines.last());
                assert(lines.drop_last().push(lines.last()) =~= lines);
                assert(split_lines_spec(prefix.push('\n')).drop_last() =~= lines);
            }
            if w.unicode_len() == WORD_LEN {
                dict.push(w);
                proof {
                    assert(dict.deep_view() =~= keep_word_len(
                        normalize_lines(
                            split_lines_spec(text@.subrange(0, i + 1)).drop_last(),
                        ),
                    ));
                }
            }
            cur = Vec::new();
        } else {
            cur.push(c);
            proof {
                let lines = split_lines_spec(prefix);
                let lines2 = split_lines_spec(prefix.push(c));
                assert(lines2 == lines.update(lines.len() - 1, lines.last().push(c)));
                assert(lines2.drop_last() =~= lines.drop_last());
            }
        }
        i += 1;
    }
    proof {
        assert(text@.subrange(0, n as int) =~= text@);
        lemma_split_lines_len(text@);
    }
    let line = chars_to_string(&cur);
    let w = normalize(line.as_str());
    proof {
        broadcast use vstd::prelude::Seq::lemma_filter_push;

        let lines = split_lines_spec(text@);
        lemma_normalize_lines_push(lines.drop_last(), lines.last());
        assert(lines.drop_last().push(lines.last()) =~= lines);
    }
    if w.unicode_len() == WORD_LEN {
        dict.push(w);
        proof {
            assert(dict.deep_view() =~= dictionary_spec(text@));
        }
    }
    dict
}

} // verus!
