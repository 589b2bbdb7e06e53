//! The game engine: round state, word validation, guess resolution and
//! terminal-state detection.

use vstd::prelude::*;

use crate::chars::{
    alphabet, is_upper_alpha, lemma_alphabet_literal, spec_to_upper, upper_seq, word_chars_upper,
    ENGLISH_ALPHABET,
};
use crate::dictionary::Dictionary;
use crate::difficulty::DifficultyLevel;

verus! {

/// What the host application is doing: choosing a word, playing a round,
/// or showing the outcome. Drives which inputs it forwards to the game
/// and how much of the figure is drawn.
#[derive(Debug, PartialEq, Eq, Structural)]
pub enum AppState {
    Selecting,
    Guessing,
    GameOver(bool),
}

/// One selectable letter, paired with whether it has been guessed.
#[derive(Debug, Clone, Copy, PartialEq, Eq, Structural)]
pub struct GuessableChar(pub char, pub bool);

impl GuessableChar {
    /// A fresh, unguessed entry for every character of the set.
    pub fn new_set(character_set: &str) -> (r: Vec<GuessableChar>)
        ensures
            r@.len() == character_set@.len(),
            forall|i: int|
                0 <= i < r@.len() ==> r@[i] == GuessableChar(character_set@[i], false),
    {
        let len = character_set.unicode_len();
        let mut r: Vec<GuessableChar> = Vec::new();
        let mut i: usize = 0;
        while i < len
            invariant
                len == character_set@.len(),
                i <= len,
                r@.len() == i,
                forall|k: int|
                    0 <= k < i ==> r@[k] == GuessableChar(character_set@[k], false),
            decreases len - i,
        {
            r.push(GuessableChar(character_set.get_char(i), false));
            i += 1;
        }
        r
    }
}

/// Why a word was rejected at round construction.
#[derive(Debug, Clone, Copy, PartialEq, Eq, Structural)]
pub enum ValidationError {
    /// the word is empty
    EmptyWord,
    /// the word holds a character outside the alphabet, even upper-cased
    NonAlphabeticChar,
    /// the upper-cased word is not in the dictionary
    NotInDictionary,
}

/// Position of an upper-case letter in the alphabet.
pub open spec fn alpha_index(c: char) -> int {
    c as int - 'A' as int
}

/// The alphabet holds each upper-case letter at its own position.
pub proof fn lemma_alpha_index(c: char)
    requires
        is_upper_alpha(c),
    ensures
        0 <= alpha_index(c) < 26,
        alphabet()[alpha_index(c)] == c,
{
    assert(alphabet()[alpha_index(c)] == c);
}

/// How many entries of a guess table are marked guessed.
pub open spec fn count_guessed(s: Seq<GuessableChar>) -> int
    decreases s.len(),
{
    if s.len() == 0 {
        0
    } else {
        count_guessed(s.drop_last()) + if s.last().1 {
            1int
        } else {
            0int
        }
    }
}

proof fn lemma_count_guessed_bounds(s: Seq<GuessableChar>)
    ensures
        0 <= count_guessed(s) <= s.len(),
    decreases s.len(),
{
    if s.len() > 0 {
        lemma_count_guessed_bounds(s.drop_last());
    }
}

proof fn lemma_count_guessed_update(s: Seq<GuessableChar>, i: int, x: GuessableChar)
    requires
        0 <= i < s.len(),
    ensures
        count_guessed(s.update(i, x)) == count_guessed(s) - (if s[i].1 {
            1int
        } else {
            0int
        }) + (if x.1 {
            1int
        } else {
            0int
        }),
    decreases s.len(),
{
    let t = s.update(i, x);
    if i == s.len() - 1 {
        assert(t.drop_last() =~= s.drop_last());
    } else {
        assert(t.drop_last() =~= s.drop_last().update(i, x));
        lemma_count_guessed_update(s.drop_last(), i, x);
        assert(s.drop_last()[i] == s[i]);
    }
}

/// The word has at least one occurrence of the letter.
pub open spec fn word_has_letter(word: Seq<char>, letter: char) -> bool {
    exists|i: int| 0 <= i < word.len() && word[i] == letter
}

/// The progress word after guessing a letter: every position where the
/// secret word holds that letter is revealed, the rest is untouched.
pub open spec fn revealed_after(word: Seq<char>, progress: Seq<char>, letter: char) -> Seq<char> {
    Seq::new(progress.len(), |i: int| if word[i] == letter {
        letter
    } else {
        progress[i]
    })
}

/// A word is accepted for a new round when it is non-empty, upper-cases
/// to alphabet letters only, and its upper-cased form is in the
/// dictionary.
pub open spec fn spec_word_valid(word: Seq<char>, dict: Seq<Seq<char>>) -> bool {
    &&& word.len() > 0
    &&& (forall|i: int| 0 <= i < word.len() ==> is_upper_alpha(#[trigger] upper_seq(word)[i]))
    &&& dict.contains(upper_seq(word))
}

/// The authoritative state of one round.
#[derive(Debug)]
pub struct Game {
    /// the word to be guessed, upper-cased
    pub word: Vec<char>,
    /// the current progress of the word, with '_' for each missing letter
    pub in_progress_word: Vec<char>,
    /// the guessable characters and whether each has been guessed
    pub guessable_characters: Vec<GuessableChar>,
    /// number of wrong guesses made
    pub guess_count: i32,
    /// the difficulty level: number and order of the figure's elements
    pub difficulty: DifficultyLevel,
}

impl Game {
    /// Whether a letter's entry in the guess table is marked guessed.
    pub open spec fn letter_guessed(self, c: char) -> bool {
        self.guessable_characters@[alpha_index(c)].1
    }

    /// The round's invariant: the guess table is the alphabet in order,
    /// the word is upper-case, the progress word reveals exactly the
    /// positions of the guessed letters, and the wrong-guess count never
    /// exceeds the number of guessed letters.
    pub open spec fn wf(self) -> bool {
        &&& self.guessable_characters@.len() == 26
        &&& (forall|i: int|
            0 <= i < 26 ==> (#[trigger] self.guessable_characters@[i]).0 == alphabet()[i])
        &&& self.in_progress_word@.len() == self.word@.len()
        &&& (forall|i: int| 0 <= i < self.word@.len() ==> is_upper_alpha(#[trigger] self.word@[i]))
        &&& (forall|i: int|
            0 <= i < self.word@.len() ==> #[trigger] self.in_progress_word@[i] == (
            if self.letter_guessed(self.word@[i]) {
                self.word@[i]
            } else {
                '_'
            }))
        &&& 0 <= self.guess_count <= count_guessed(self.guessable_characters@)
    }

    /// A game as construction leaves it: the given word upper-cased, no
    /// progress, no guesses.
    pub open spec fn is_fresh_game(self, word: Seq<char>) -> bool {
        &&& self.word@ == upper_seq(word)
        &&& self.in_progress_word@ == Seq::new(word.len(), |i: int| '_')
        &&& self.guess_count == 0
        &&& self.guessable_characters@.len() == 26
        &&& (forall|i: int|
            0 <= i < 26 ==> #[trigger] self.guessable_characters@[i] == GuessableChar(
                alphabet()[i],
                false,
            ))
    }

    /// Creates a new round from the player's word, validating it against
    /// the alphabet and the dictionary.
    pub fn new(word: String, difficulty: DifficultyLevel, dictionary: &Dictionary) -> (r: Result<
        Game,
        ValidationError,
    >)
        requires
            dictionary.wf(),
        ensures
            r is Ok <==> spec_word_valid(word@, dictionary@),
            r matches Ok(g) ==> g.wf() && g.is_fresh_game(word@) && g.difficulty.0@
                == difficulty.0@ && g.difficulty.1 == difficulty.1,
            r == Result::<Game, ValidationError>::Err(ValidationError::EmptyWord) <==> word@.len()
                == 0,
            r == Result::<Game, ValidationError>::Err(ValidationError::NonAlphabeticChar) <==> (
            word@.len() > 0 && !(forall|i: int|
                0 <= i < word@.len() ==> is_upper_alpha(#[trigger] upper_seq(word@)[i]))),
            r == Result::<Game, ValidationError>::Err(ValidationError::NotInDictionary) <==> (
            word@.len() > 0 && (forall|i: int|
                0 <= i < word@.len() ==> is_upper_alpha(#[trigger] upper_seq(word@)[i]))
                && !dictionary@.contains(upper_seq(word@))),
    {
        let word_str = word.as_str();
        if word_str.unicode_len() == 0 {
            return Err(ValidationError::EmptyWord);
        }
        let up = word_chars_upper(word_str);
        let mut i: usize = 0;
        while i < up.len()
            invariant
                up@ == upper_seq(word@),
                i <= up@.len(),
                forall|k: int| 0 <= k < i ==> is_upper_alpha(#[trigger] up@[k]),
            decreases up@.len() - i,
        {
            let c = up[i];
            if !('A' <= c && c <= 'Z') {
                return Err(ValidationError::NonAlphabeticChar);
            }
            i += 1;
        }
        if !dictionary.contains_word(&up) {
            return Err(ValidationError::NotInDictionary);
        }
        let guessable_characters = GuessableChar::new_set(ENGLISH_ALPHABET);
        proof {
            lemma_alphabet_literal();
        }
        let mut in_progress_word: Vec<char> = Vec::new();
        let mut j: usize = 0;
        let target = up.len();
        while j < target
            invariant
                target == word@.len(),
                j <= target,
                in_progress_word@ =~= Seq::new(j as nat, |k: int| '_'),
            decreases target - j,
        {
            in_progress_word.push('_');
            proof {
                assert(in_progress_word@ =~= Seq::new((j + 1) as nat, |k: int| '_'));
            }
            j += 1;
        }
        let game = Game {
            word: up,
            in_progress_word,
            guessable_characters,
            guess_count: 0,
            difficulty,
        };
        proof {
            lemma_count_guessed_bounds(game.guessable_characters@);
            assert forall|i2: int| 0 <= i2 < game.word@.len() implies #[trigger] game
                .in_progress_word@[i2] == (if game.letter_guessed(game.word@[i2]) {
                game.word@[i2]
            } else {
                '_'
            }) by {
                lemma_alpha_index(game.word@[i2]);
            }
        }
        Ok(game)
    }

    /// Creates a new round for a fresh word, keeping the difficulty of an
    /// existing game.
    pub fn from_game(game: &Game, word: String, dictionary: &Dictionary) -> (r: Result<
        Game,
        ValidationError,
    >)
        requires
            dictionary.wf(),
        ensures
            r is Ok <==> spec_word_valid(word@, dictionary@),
            r matches Ok(g) ==> g.wf() && g.is_fresh_game(word@) && g.difficulty.0@
                == game.difficulty.0@ && g.difficulty.1 == game.difficulty.1,
            r == Result::<Game, ValidationError>::Err(ValidationError::EmptyWord) <==> word@.len()
                == 0,
            r == Result::<Game, ValidationError>::Err(ValidationError::NonAlphabeticChar) <==> (
            word@.len() > 0 && !(forall|i: int|
                0 <= i < word@.len() ==> is_upper_alpha(#[trigger] upper_seq(word@)[i]))),
            r == Result::<Game, ValidationError>::Err(ValidationError::NotInDictionary) <==> (
            word@.len() > 0 && (forall|i: int|
                0 <= i < word@.len() ==> is_upper_alpha(#[trigger] upper_seq(word@)[i]))
                && !dictionary@.contains(upper_seq(word@))),
    {
        Game::new(word, game.difficulty.clone(), dictionary)
    }

    /// Resolves one guess: how it changes the round and what it reports.
    ///
    /// Re-guessing an already guessed letter changes nothing and reports
    /// nothing. A first-time guess marks the letter guessed; if the word
    /// holds it, every occurrence is revealed at once and the wrong-guess
    /// count is untouched, else the count rises by exactly one.
    pub open spec fn guess_transition(
        pre: Game,
        post: Game,
        letter: char,
        r: Option<bool>,
    ) -> bool {
        &&& post.word == pre.word
        &&& post.difficulty == pre.difficulty
        &&& if pre.letter_guessed(letter) {
            r is None && post == pre
        } else {
            &&& post.guessable_characters@ == pre.guessable_characters@.update(
                alpha_index(letter),
                GuessableChar(letter, true),
            )
            &&& post.in_progress_word@ == revealed_after(
                pre.word@,
                pre.in_progress_word@,
                letter,
            )
            &&& if word_has_letter(pre.word@, letter) {
                r == Some(true) && post.guess_count == pre.guess_count
            } else {
                r == Some(false) && post.guess_count == pre.guess_count + 1
            }
        }
    }

    /// Checks whether the letter is in the word and fills it in; reports
    /// whether it was, or nothing for a repeated guess.
    pub fn guess(&mut self, letter: char) -> (r: Option<bool>)
        requires
            old(self).wf(),
            is_upper_alpha(letter),
        ensures
            final(self).wf(),
            Game::guess_transition(*old(self), *final(self), letter, r),
    {
        proof {
            lemma_alpha_index(letter);
        }
        let idx = (letter as u8 - 65) as usize;
        if self.guessable_characters[idx].1 {
            return None;
        }
        let mut out = false;
        let mut i: usize = 0;
        let len = self.word.len();
        while i < len
            invariant
                len == self.word@.len(),
                i <= len,
                self.word == old(self).word,
                self.guessable_characters == old(self).guessable_characters,
                self.guess_count == old(self).guess_count,
                self.difficulty == old(self).difficulty,
                self.in_progress_word@.len() == len,
                forall|k: int|
                    0 <= k < len ==> #[trigger] self.in_progress_word@[k] == (if k < i
                        && old(self).word@[k] == letter {
                        letter
                    } else {
                        old(self).in_progress_word@[k]
                    }),
                out <==> exists|k: int| 0 <= k < i && old(self).word@[k] == letter,
            decreases len - i,
        {
            if self.word[i] == letter {
                self.in_progress_word.set(i, letter);
                out = true;
            }
            i += 1;
        }
        proof {
            assert(self.in_progress_word@ =~= revealed_after(
                old(self).word@,
                old(self).in_progress_word@,
                letter,
            ));
        }
        self.guessable_characters.set(idx, GuessableChar(letter, true));
        proof {
            lemma_count_guessed_update(
                old(self).guessable_characters@,
                idx as int,
                GuessableChar(letter, true),
            );
            lemma_count_guessed_bounds(old(self).guessable_characters@);
        }
        if !out {
            self.guess_count = self.guess_count + 1;
        }
        proof {
            assert forall|i2: int| 0 <= i2 < self.word@.len() implies #[trigger] self
                .in_progress_word@[i2] == (if self.letter_guessed(self.word@[i2]) {
                self.word@[i2]
            } else {
                '_'
            }) by {
                lemma_alpha_index(self.word@[i2]);
                lemma_alpha_index(letter);
            }
        }
        Some(out)
    }

    /// The terminal state the round has reached, if any: the round is
    /// lost once the wrong guesses use up the difficulty's element
    /// budget, and won once the whole word is revealed.
    pub open spec fn spec_game_state(self) -> Option<bool> {
        if self.guess_count >= self.difficulty.0@.len() {
            Some(false)
        } else if self.in_progress_word@ == self.word@ {
            Some(true)
        } else {
            None
        }
    }

    /// Reports whether the game is over: true for a win, false for a
    /// loss, nothing while the round is still running.
    pub fn get_game_state(&self) -> (r: Option<bool>)
        requires
            self.wf(),
        ensures
            r == self.spec_game_state(),
    {
        if self.guess_count as usize >= self.difficulty.0.len() {
            return Some(false);
        }
        let mut i: usize = 0;
        let len = self.word.len();
        while i < len
            invariant
                self.wf(),
                self.guess_count < self.difficulty.0@.len(),
                len == self.word@.len(),
                i <= len,
                forall|k: int| 0 <= k < i ==> self.in_progress_word@[k] == self.word@[k],
            decreases len - i,
        {
            if self.in_progress_word[i] != self.word[i] {
                proof {
                    assert(self.in_progress_word@[i as int] != self.word@[i as int]);
                }
                return None;
            }
            i += 1;
        }
        proof {
            assert(self.in_progress_word@ =~= self.word@);
        }
        Some(true)
    }
}

impl Default for Game {
    /// The idle game shown before a round starts: empty word, fresh guess
    /// table, easiest difficulty.
    fn default() -> (r: Game)
        ensures
            r.wf(),
            r.is_fresh_game(Seq::<char>::empty()),
            r.difficulty.0@ == crate::difficulty::full_figure_elements(),
            r.difficulty.1@ == "Easiest"@,
    {
        let guessable_characters = GuessableChar::new_set(ENGLISH_ALPHABET);
        proof {
            lemma_alphabet_literal();
            lemma_count_guessed_bounds(guessable_characters@);
        }
        let game = Game {
            word: Vec::new(),
            in_progress_word: Vec::new(),
            guessable_characters,
            guess_count: 0,
            difficulty: DifficultyLevel::get_easiest(),
        };
        proof {
            assert(game.in_progress_word@ =~= Seq::new(0, |i: int| '_'));
            assert(game.word@ =~= upper_seq(Seq::<char>::empty()));
        }
        game
    }
}

/// How many elements of the hangman figure are to be drawn: one per
/// wrong guess while guessing, capped at the difficulty's budget, and
/// the whole figure while selecting a word or once the round is over.
pub open spec fn spec_drawing_elements_to_show(state: AppState, game: Game) -> int {
    if state is Guessing {
        if game.guess_count >= game.difficulty.0@.len() {
            game.difficulty.0@.len() as int
        } else {
            game.guess_count as int
        }
    } else {
        game.difficulty.0@.len() as int
    }
}

/// The number of figure elements the renderer draws for this state.
pub fn drawing_elements_to_show(state: &AppState, game: &Game) -> (n: usize)
    requires
        game.wf(),
    ensures
        n == spec_drawing_elements_to_show(*state, *game),
{
    match state {
        AppState::Guessing => {
            let budget = game.difficulty.0.len();
            let count = game.guess_count as usize;
            if count >= budget {
                budget
            } else {
                count
            }
        },
        _ => game.difficulty.0.len(),
    }
}

/// A guess never takes anything back: the wrong-guess count does not
/// decrease, no guessed letter returns to unguessed, and no revealed
/// position is hidden again.
pub proof fn lemma_guess_makes_progress(pre: Game, post: Game, letter: char, r: Option<bool>)
    requires
        pre.wf(),
        is_upper_alpha(letter),
        Game::guess_transition(pre, post, letter, r),
    ensures
        post.guess_count >= pre.guess_count,
        forall|c: char|
            is_upper_alpha(c) && pre.letter_guessed(c) ==> #[trigger] post.letter_guessed(c),
        forall|k: int|
            0 <= k < pre.word@.len() && pre.in_progress_word@[k] == pre.word@[k]
                ==> post.in_progress_word@[k] == post.word@[k],
{
    lemma_alpha_index(letter);
    if !pre.letter_guessed(letter) {
        assert forall|c: char|
            is_upper_alpha(c) && pre.letter_guessed(c) implies #[trigger] post.letter_guessed(
            c,
        ) by {
            lemma_alpha_index(c);
        }
    }
}
pub proof fn lemma_terminal_state_stable(pre: Game, post: Game, letter: char, r: Option<bool>)
    requires
        pre.wf(),
        is_upper_alpha(letter),
        Game::guess_transition(pre, post, letter, r),
        pre.spec_game_state() is Some,
    ensures
        post.spec_game_state() is Some,
{
    if pre.letter_guessed(letter) {
    } else if pre.guess_count >= pre.difficulty.0@.len() {
        assert(post.guess_count >= pre.guess_count);
    } else {
        assert(pre.in_progress_word@ == pre.word@);
        if word_has_letter(pre.word@, letter) {
            let k = choose|k: int| 0 <= k < pre.word@.len() && pre.word@[k] == letter;
            assert(pre.in_progress_word@[k] == pre.word@[k]);
            assert(pre.letter_guessed(pre.word@[k]));
            assert(false);
        } else {
            assert(post.in_progress_word@ =~= pre.word@);
        }
    }
}

} // verus!
