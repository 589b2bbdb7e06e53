use hangman::chars::{lex_cmp, to_upper, word_chars_upper, ENGLISH_ALPHABET};

#[test]
fn the_alphabet_is_the_26_upper_case_letters() {
    assert_eq!(ENGLISH_ALPHABET.len(), 26);
    assert_eq!(ENGLISH_ALPHABET.chars().next(), Some('A'));
    assert_eq!(ENGLISH_ALPHABET.chars().last(), Some('Z'));
}

#[test]
fn upper_casing_touches_only_lower_case_letters() {
    assert_eq!(to_upper('a'), 'A');
    assert_eq!(to_upper('z'), 'Z');
    assert_eq!(to_upper('M'), 'M');
    assert_eq!(to_upper('_'), '_');
    assert_eq!(to_upper('4'), '4');
}

#[test]
fn a_word_is_upper_cased_character_by_character() {
    assert_eq!(
        word_chars_upper("hAngMan"),
        vec!['H', 'A', 'N', 'G', 'M', 'A', 'N']
    );
    assert_eq!(word_chars_upper(""), Vec::<char>::new());
}

#[test]
fn words_compare_lexicographically() {
    let ant: Vec<char> = "ANT".chars().collect();
    let bee: Vec<char> = "BEE".chars().collect();
    let pe: Vec<char> = "PE".chars().collect();
    let pear: Vec<char> = "PEAR".chars().collect();
    assert_eq!(lex_cmp(&ant, &bee), -1);
    assert_eq!(lex_cmp(&bee, &ant), 1);
    assert_eq!(lex_cmp(&ant, &ant.clone()), 0);
    // a proper prefix is ordered before its extensions
    assert_eq!(lex_cmp(&pe, &pear), -1);
    assert_eq!(lex_cmp(&pear, &pe), 1);
}
