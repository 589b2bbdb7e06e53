use hangman::dictionary::Dictionary;
use hangman::difficulty::DifficultyLevel;
use hangman::game::{AppState, Game, GuessableChar, ValidationError};
use hangman::game::drawing_elements_to_show;

fn test_dictionary() -> Dictionary {
    let words: Vec<String> = vec![
        "CAT".to_string(),
        "DOG".to_string(),
        "HANGMAN".to_string(),
        "LLAMA".to_string(),
    ];
    Dictionary::from_words(&words).expect("the word list is sorted")
}

fn progress(game: &Game) -> String {
    game.in_progress_word.iter().collect::<String>()
}

#[test]
fn new_game_with_valid_word_starts_blank() {
    let dict = test_dictionary();
    let game = Game::new("CAT".to_string(), DifficultyLevel::get_hard(), &dict).unwrap();
    assert_eq!(game.word.iter().collect::<String>(), "CAT");
    assert_eq!(progress(&game), "___");
    assert_eq!(game.guess_count, 0);
    assert_eq!(game.guessable_characters.len(), 26);
    assert!(game.guessable_characters.iter().all(|gc| !gc.1));
}

#[test]
fn new_game_upper_cases_the_word() {
    let dict = test_dictionary();
    let game = Game::new("hangman".to_string(), DifficultyLevel::get_normal(), &dict).unwrap();
    assert_eq!(game.word.iter().collect::<String>(), "HANGMAN");
    assert_eq!(progress(&game), "_______");
}

#[test]
fn empty_word_is_rejected() {
    let dict = test_dictionary();
    let r = Game::new("".to_string(), DifficultyLevel::get_hard(), &dict);
    assert_eq!(r.unwrap_err(), ValidationError::EmptyWord);
}

#[test]
fn non_alphabetic_word_is_rejected() {
    let dict = test_dictionary();
    let r = Game::new("C4T".to_string(), DifficultyLevel::get_hard(), &dict);
    assert_eq!(r.unwrap_err(), ValidationError::NonAlphabeticChar);
    let r = Game::new("DOG!".to_string(), DifficultyLevel::get_hard(), &dict);
    assert_eq!(r.unwrap_err(), ValidationError::NonAlphabeticChar);
}

#[test]
fn word_outside_dictionary_is_rejected() {
    let dict = test_dictionary();
    let r = Game::new("ZEBRA".to_string(), DifficultyLevel::get_hard(), &dict);
    assert_eq!(r.unwrap_err(), ValidationError::NotInDictionary);
}

#[test]
fn hit_reveals_every_occurrence_at_once() {
    let dict = test_dictionary();
    let mut game = Game::new("LLAMA".to_string(), DifficultyLevel::get_hard(), &dict).unwrap();
    assert_eq!(game.guess('L'), Some(true));
    assert_eq!(progress(&game), "LL___");
    assert_eq!(game.guess_count, 0);
    assert_eq!(game.guess('A'), Some(true));
    assert_eq!(progress(&game), "LLA_A");
    assert_eq!(game.guess_count, 0);
}

#[test]
fn miss_increments_guess_count_by_one() {
    let dict = test_dictionary();
    let mut game = Game::new("CAT".to_string(), DifficultyLevel::get_hard(), &dict).unwrap();
    assert_eq!(game.guess('Z'), Some(false));
    assert_eq!(game.guess_count, 1);
    assert_eq!(progress(&game), "___");
    assert_eq!(game.guess('Q'), Some(false));
    assert_eq!(game.guess_count, 2);
}

#[test]
fn repeated_guess_changes_nothing() {
    let dict = test_dictionary();
    let mut game = Game::new("CAT".to_string(), DifficultyLevel::get_hard(), &dict).unwrap();
    assert_eq!(game.guess('C'), Some(true));
    assert_eq!(game.guess('Z'), Some(false));
    // repeat a hit
    assert_eq!(game.guess('C'), None);
    assert_eq!(progress(&game), "C__");
    assert_eq!(game.guess_count, 1);
    // repeat a miss
    assert_eq!(game.guess('Z'), None);
    assert_eq!(progress(&game), "C__");
    assert_eq!(game.guess_count, 1);
}

#[test]
fn state_is_none_until_the_round_ends() {
    let dict = test_dictionary();
    let mut game = Game::new("DOG".to_string(), DifficultyLevel::get_hard(), &dict).unwrap();
    assert_eq!(game.get_game_state(), None);
    game.guess('D');
    assert_eq!(game.get_game_state(), None);
    game.guess('O');
    assert_eq!(game.get_game_state(), None);
    game.guess('G');
    assert_eq!(game.get_game_state(), Some(true));
    // the terminal state survives further guesses
    game.guess('X');
    assert_eq!(game.get_game_state(), Some(true));
}

#[test]
fn scenario_cat_hard_is_won() {
    let dict = test_dictionary();
    let mut game = Game::new("CAT".to_string(), DifficultyLevel::get_hard(), &dict).unwrap();
    assert_eq!(game.difficulty.0.len(), 10);
    assert_eq!(game.guess('C'), Some(true));
    assert_eq!(progress(&game), "C__");
    assert_eq!(game.guess_count, 0);
    assert_eq!(game.get_game_state(), None);
    assert_eq!(game.guess('Z'), Some(false));
    assert_eq!(game.guess_count, 1);
    assert_eq!(game.guess('A'), Some(true));
    assert_eq!(progress(&game), "CA_");
    assert_eq!(game.guess_count, 1);
    assert_eq!(game.guess('T'), Some(true));
    assert_eq!(progress(&game), "CAT");
    assert_eq!(game.guess_count, 1);
    assert_eq!(game.get_game_state(), Some(true));
}

#[test]
fn scenario_dog_hardest_is_lost_after_nine_misses() {
    let dict = test_dictionary();
    let mut game = Game::new("DOG".to_string(), DifficultyLevel::get_hardest(), &dict).unwrap();
    assert_eq!(game.difficulty.0.len(), 9);
    let wrong = ['A', 'B', 'C', 'E', 'F', 'H', 'I', 'J', 'K'];
    for (count, letter) in wrong.iter().enumerate() {
        assert_eq!(game.get_game_state(), None);
        assert_eq!(game.guess(*letter), Some(false));
        assert_eq!(game.guess_count, count as i32 + 1);
    }
    assert_eq!(game.get_game_state(), Some(false));
    assert_eq!(progress(&game), "___");
}

#[test]
fn from_game_keeps_the_difficulty() {
    let dict = test_dictionary();
    let first = Game::new("CAT".to_string(), DifficultyLevel::get_hardest(), &dict).unwrap();
    let second = Game::from_game(&first, "dog".to_string(), &dict).unwrap();
    assert_eq!(second.word.iter().collect::<String>(), "DOG");
    assert_eq!(second.difficulty.0, first.difficulty.0);
    assert_eq!(second.difficulty.1, "Hardest");
    assert_eq!(second.guess_count, 0);
    let rejected = Game::from_game(&first, "zebra".to_string(), &dict);
    assert_eq!(rejected.unwrap_err(), ValidationError::NotInDictionary);
}

#[test]
fn default_game_is_idle_with_easiest_preset() {
    let game = Game::default();
    assert_eq!(game.word.len(), 0);
    assert_eq!(game.in_progress_word.len(), 0);
    assert_eq!(game.guess_count, 0);
    assert_eq!(game.difficulty.1, "Easiest");
    assert_eq!(game.difficulty.0.len(), 14);
}

#[test]
fn new_set_pairs_each_character_with_unguessed() {
    let set = GuessableChar::new_set("ABC");
    assert_eq!(set.len(), 3);
    assert_eq!(set[0].0, 'A');
    assert_eq!(set[1].0, 'B');
    assert_eq!(set[2].0, 'C');
    assert!(set.iter().all(|gc| !gc.1));
}

#[test]
fn drawing_count_follows_wrong_guesses_while_guessing() {
    let dict = test_dictionary();
    let mut game = Game::new("CAT".to_string(), DifficultyLevel::get_hardest(), &dict).unwrap();
    assert_eq!(drawing_elements_to_show(&AppState::Guessing, &game), 0);
    game.guess('X');
    game.guess('Y');
    assert_eq!(drawing_elements_to_show(&AppState::Guessing, &game), 2);
    assert_eq!(drawing_elements_to_show(&AppState::Selecting, &game), 9);
    assert_eq!(drawing_elements_to_show(&AppState::GameOver(false), &game), 9);
}

#[test]
fn drawing_count_is_capped_at_the_budget() {
    let dict = test_dictionary();
    let mut game = Game::new("DOG".to_string(), DifficultyLevel::get_hardest(), &dict).unwrap();
    for letter in ['A', 'B', 'C', 'E', 'F', 'H', 'I', 'J', 'K', 'L'] {
        game.guess(letter);
    }
    assert_eq!(game.guess_count, 10);
    assert_eq!(drawing_elements_to_show(&AppState::Guessing, &game), 9);
}
