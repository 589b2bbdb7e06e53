use hangman::dictionary::{is_word_in_dictionary, Dictionary};

fn words(list: &[&str]) -> Vec<String> {
    list.iter().map(|w| w.to_string()).collect()
}

#[test]
fn sorted_word_list_is_accepted() {
    let dict = Dictionary::from_words(&words(&["ANT", "BEE", "CAT"])).unwrap();
    assert!(dict.contains_word(&"BEE".chars().collect()));
    assert!(!dict.contains_word(&"WASP".chars().collect()));
}

#[test]
fn unsorted_word_list_is_refused() {
    assert!(Dictionary::from_words(&words(&["BEE", "ANT"])).is_none());
}

#[test]
fn duplicated_words_are_refused() {
    assert!(Dictionary::from_words(&words(&["ANT", "ANT", "BEE"])).is_none());
}

#[test]
fn membership_is_checked_upper_cased() {
    let dict = Dictionary::from_words(&words(&["CAT", "DOG"])).unwrap();
    assert!(is_word_in_dictionary("cat", &dict));
    assert!(is_word_in_dictionary("Dog", &dict));
    assert!(!is_word_in_dictionary("cow", &dict));
    assert!(!is_word_in_dictionary("", &dict));
}

#[test]
fn membership_over_a_larger_sorted_list() {
    let list = [
        "APPLE", "BERRY", "CHERRY", "DATE", "ELDER", "FIG", "GRAPE", "KIWI", "LEMON", "LIME",
        "MANGO", "MELON", "OLIVE", "PEACH", "PEAR", "PLUM", "QUINCE",
    ];
    let dict = Dictionary::from_words(&words(&list)).unwrap();
    for w in list {
        assert!(is_word_in_dictionary(w, &dict));
    }
    assert!(!is_word_in_dictionary("AARDVARK", &dict));
    assert!(!is_word_in_dictionary("ZEBRA", &dict));
    assert!(!is_word_in_dictionary("PE", &dict));
    assert!(!is_word_in_dictionary("PEARL", &dict));
}

#[test]
fn compressed_word_list_round_trips() {
    let text = "ANT\nBEE\nCAT\n";
    let compressed = zstd::stream::encode_all(text.as_bytes(), 0).unwrap();
    let dict = Dictionary::from_compressed(&compressed).expect("sorted list decodes");
    assert!(dict.contains_word(&"ANT".chars().collect()));
    assert!(dict.contains_word(&"CAT".chars().collect()));
    assert!(!dict.contains_word(&"DOG".chars().collect()));
}

#[test]
fn compressed_list_with_carriage_returns_is_read_like_lines() {
    let text = "ANT\r\nBEE\r\nCAT";
    let compressed = zstd::stream::encode_all(text.as_bytes(), 0).unwrap();
    let dict = Dictionary::from_compressed(&compressed).expect("sorted list decodes");
    assert!(dict.contains_word(&"ANT".chars().collect()));
    assert!(dict.contains_word(&"BEE".chars().collect()));
    assert!(dict.contains_word(&"CAT".chars().collect()));
}

#[test]
fn unsorted_compressed_list_is_refused() {
    let text = "BEE\nANT\n";
    let compressed = zstd::stream::encode_all(text.as_bytes(), 0).unwrap();
    assert!(Dictionary::from_compressed(&compressed).is_none());
}

#[test]
fn malformed_compressed_bytes_are_refused() {
    assert!(Dictionary::from_compressed(&[1, 2, 3, 4]).is_none());
}
