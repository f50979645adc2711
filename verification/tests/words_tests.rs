use wordle::normalize;
use wordle::parse_dictionary;
use wordle::score_words;
use wordle::Mark;

#[test]
fn normalize_strips_and_uppercases() {
    assert_eq!(normalize("cr4ane!"), "CRANE");
    assert_eq!(normalize("cr4ne!"), "CRNE");
    assert_eq!(normalize(" slate "), "SLATE");
    assert_eq!(normalize("abc"), "ABC");
    assert_eq!(normalize("\ttrain\r"), "TRAIN");
    assert_eq!(normalize(""), "");
}

#[test]
fn normalize_is_idempotent() {
    assert_eq!(normalize("CRANE"), "CRANE");
    let once = normalize("  c r 4 a n e  ");
    let twice = normalize(&once);
    assert_eq!(once, twice);
}

#[test]
fn parse_dictionary_keeps_five_letter_lines() {
    let dict = parse_dictionary("crane\nxy\nslate\n\ntrain");
    assert_eq!(dict, vec!["CRANE", "SLATE", "TRAIN"]);
}

#[test]
fn parse_dictionary_normalizes_lines() {
    let dict = parse_dictionary(" crane \ncr4ane!\ntoolong\n");
    assert_eq!(dict, vec!["CRANE", "CRANE"]);
}

#[test]
fn parse_dictionary_of_empty_text_is_empty() {
    let dict = parse_dictionary("");
    assert!(dict.is_empty());
}

#[test]
fn score_word_against_itself_is_all_exact() {
    let marks = score_words("CRANE", "CRANE");
    assert_eq!(marks, vec![Mark::Exact; 5]);
}

#[test]
fn score_crate_against_crane() {
    let marks = score_words("CRATE", "CRANE");
    assert_eq!(
        marks,
        vec![Mark::Exact, Mark::Exact, Mark::Exact, Mark::Absent, Mark::Exact]
    );
}

#[test]
fn score_is_containment_based_for_repeated_letters() {
    // 'E' occurs once in the target but is marked for every occurrence in
    // the guess: the scoring is not frequency-aware.
    let marks = score_words("EERIE", "CRANE");
    assert_eq!(
        marks,
        vec![
            Mark::Present,
            Mark::Present,
            Mark::Present,
            Mark::Absent,
            Mark::Exact
        ]
    );
}
