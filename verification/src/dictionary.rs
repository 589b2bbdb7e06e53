//! The word dictionary: a lexicographically sorted list of words, with
//! membership decided by binary search. A dictionary can be built from
//! plain words or from a zstd-compressed newline-separated word list,
//! as the game ships it.

use vstd::prelude::*;

use crate::chars::{
    lemma_lex_lt_irrefl, lemma_lex_lt_trans, lex_cmp, lex_lt, upper_seq, word_chars_upper,
};

verus! {

/// All words of the list stand in strictly increasing lexicographic order.
pub open spec fn strictly_sorted(words: Seq<Seq<char>>) -> bool {
    forall|i: int, j: int| 0 <= i < j < words.len() ==> lex_lt(words[i], words[j])
}

/// The views of a list of character-vector words.
pub open spec fn views_of(words: Seq<Vec<char>>) -> Seq<Seq<char>> {
    words.map_values(|w: Vec<char>| w@)
}

/// A read-only list of valid words, strictly sorted so that membership
/// can be decided by binary search.
pub struct Dictionary {
    words: Vec<Vec<char>>,
}

impl View for Dictionary {
    type V = Seq<Seq<char>>;

    closed spec fn view(&self) -> Seq<Seq<char>> {
        views_of(self.words@)
    }
}

/// In a strictly sorted list, any element is ordered after every earlier
/// element, not only its direct neighbour.
proof fn lemma_sorted_chain(words: Seq<Seq<char>>, i: int, j: int)
    requires
        forall|k: int| 0 <= k < words.len() - 1 ==> lex_lt(#[trigger] words[k], words[k + 1]),
        0 <= i < j < words.len(),
    ensures
        lex_lt(words[i], words[j]),
    decreases j - i,
{
    if j == i + 1 {
        assert(lex_lt(words[i], words[i + 1]));
    } else {
        lemma_sorted_chain(words, i, j - 1);
        assert(lex_lt(words[j - 1], words[j]));
        lemma_lex_lt_trans(words[i], words[j - 1], words[j]);
    }
}

impl Dictionary {
    /// The dictionary's well-formedness: its words are strictly sorted.
    pub open spec fn wf(&self) -> bool {
        strictly_sorted(self@)
    }

    /// Builds a dictionary from words given as character vectors; refuses
    /// a list that is not strictly sorted.
    pub fn from_char_words(words: Vec<Vec<char>>) -> (r: Option<Dictionary>)
        ensures
            r is Some <==> strictly_sorted(views_of(words@)),
            r matches Some(d) ==> d.wf() && d@ == views_of(words@),
    {
        let n = words.len();
        let mut i: usize = 0;
        while i < n && i + 1 < n
            invariant
                n == words@.len(),
                i <= n,
                forall|k: int|
                    0 <= k < i ==> lex_lt(#[trigger] views_of(words@)[k], views_of(words@)[k + 1]),
            decreases n - i,
        {
            if lex_cmp(&words[i], &words[i + 1]) != -1 {
                proof {
                    assert(!lex_lt(views_of(words@)[i as int], views_of(words@)[i as int + 1]));
                }
                return None;
            }
            i += 1;
        }
        proof {
            let v = views_of(words@);
            assert forall|a: int, b: int| 0 <= a < b < v.len() implies lex_lt(v[a], v[b]) by {
                lemma_sorted_chain(v, a, b);
            }
        }
        Some(Dictionary { words })
    }

    /// Builds a dictionary from plain words; refuses a list that is not
    /// strictly sorted.
    pub fn from_words(words: &Vec<String>) -> (r: Option<Dictionary>)
        ensures
            r is Some <==> strictly_sorted(words.deep_view()),
            r matches Some(d) ==> d.wf() && d@ == words.deep_view(),
    {
        let mut char_words: Vec<Vec<char>> = Vec::new();
        let mut i: usize = 0;
        while i < words.len()
            invariant
                i <= words@.len(),
                char_words@.len() == i,
                forall|k: int| 0 <= k < i ==> #[trigger] char_words@[k]@ == words@[k]@,
            decreases words@.len() - i,
        {
            let w = &words[i];
            let len = w.as_str().unicode_len();
            let mut cs: Vec<char> = Vec::new();
            let mut j: usize = 0;
            while j < len
                invariant
                    len == w@.len(),
                    j <= len,
                    cs@ =~= w@.take(j as int),
                decreases len - j,
            {
                cs.push(w.as_str().get_char(j));
                j += 1;
            }
            proof {
                assert(cs@ =~= w@);
            }
            char_words.push(cs);
            i += 1;
        }
        proof {
            assert(views_of(char_words@) =~= words.deep_view());
        }
        Dictionary::from_char_words(char_words)
    }

    /// Whether the given word is in the dictionary, by binary search.
    pub fn contains_word(&self, word: &Vec<char>) -> (r: bool)
        requires
            self.wf(),
        ensures
            r <==> self@.contains(word@),
    {
        let mut lo: usize = 0;
        let mut hi: usize = self.words.len();
        while lo < hi
            invariant
                self.wf(),
                lo <= hi <= self@.len(),
                self@.len() == self.words@.len(),
                forall|k: int| 0 <= k < lo ==> lex_lt(#[trigger] self@[k], word@),
                forall|k: int| hi <= k < self@.len() ==> lex_lt(word@, #[trigger] self@[k]),
            decreases hi - lo,
        {
            let mid = lo + (hi - lo) / 2;
            let o = lex_cmp(&self.words[mid], word);
            if o == 0 {
                proof {
                    assert(self@[mid as int] == word@);
                }
                return true;
            } else if o == -1 {
                proof {
                    assert forall|k: int| 0 <= k < mid + 1 implies lex_lt(
                        #[trigger] self@[k],
                        word@,
                    ) by {
                        if k < mid {
                            lemma_lex_lt_trans(self@[k], self@[mid as int], word@);
                        }
                    }
                }
                lo = mid + 1;
            } else {
                proof {
                    assert forall|k: int| mid <= k < self@.len() implies lex_lt(
                        word@,
                        #[trigger] self@[k],
                    ) by {
                        if k > mid {
                            lemma_lex_lt_trans(word@, self@[mid as int], self@[k]);
                        }
                    }
                }
                hi = mid;
            }
        }
        proof {
            if self@.contains(word@) {
                let k = choose|k: int| 0 <= k < self@.len() && self@[k] == word@;
                assert(lex_lt(self@[k], word@) || lex_lt(word@, self@[k]));
                lemma_lex_lt_irrefl(word@);
            }
        }
        false
    }
}

/// Index of the first line feed in the bytes, or their length if there
/// is none: where the first line of a word list ends.
pub open spec fn first_line_end(s: Seq<u8>) -> int
    decreases s.len(),
{
    if s.len() == 0 {
        0
    } else if s[0] == 10 {
        0
    } else {
        1 + first_line_end(s.drop_first())
    }
}

/// Characterisation of `first_line_end`: it is in bounds, it points at a
/// line feed unless there is none, and nothing before it is a line feed.
pub proof fn lemma_first_line_end(s: Seq<u8>)
    ensures
        0 <= first_line_end(s) <= s.len(),
        first_line_end(s) < s.len() ==> s[first_line_end(s)] == 10,
        forall|j: int| 0 <= j < first_line_end(s) ==> s[j] != 10,
    decreases s.len(),
{
    if s.len() > 0 && s[0] != 10 {
        lemma_first_line_end(s.drop_first());
        assert forall|j: int| 0 <= j < first_line_end(s) implies s[j] != 10 by {
            if j >= 1 {
                assert(s[j] == s.drop_first()[j - 1]);
            }
        }
    }
}

/// A line's bytes without a trailing carriage return, as `str::lines`
/// strips it.
pub open spec fn strip_cr(s: Seq<u8>) -> Seq<u8> {
    if s.len() > 0 && s.last() == 13 {
        s.drop_last()
    } else {
        s
    }
}

/// Bytes read as characters, one per byte.
pub open spec fn chars_of(s: Seq<u8>) -> Seq<char> {
    s.map_values(|b: u8| b as char)
}

/// The word a line's bytes spell.
pub open spec fn line_word(s: Seq<u8>) -> Seq<char> {
    chars_of(strip_cr(s))
}

/// The words of a newline-separated list, as `str::lines` reads them:
/// split at each line feed, no word after a trailing line feed.
pub open spec fn lines_of(s: Seq<u8>) -> Seq<Seq<char>>
    decreases s.len(),
    via lines_of_decreases
{
    if s.len() == 0 {
        Seq::empty()
    } else {
        let i = first_line_end(s);
        if i == s.len() {
            seq![line_word(s)]
        } else {
            seq![line_word(s.take(i))] + lines_of(s.skip(i + 1))
        }
    }
}

#[via_fn]
proof fn lines_of_decreases(s: Seq<u8>) {
    lemma_first_line_end(s);
}

/// A scan that stopped at the first line feed found `first_line_end`.
proof fn lemma_first_line_end_unique(s: Seq<u8>, k: int)
    requires
        0 <= k <= s.len(),
        forall|j: int| 0 <= j < k ==> s[j] != 10,
        k < s.len() ==> s[k] == 10,
    ensures
        first_line_end(s) == k,
{
    lemma_first_line_end(s);
}

/// Splits a word list's bytes into its words, one per line, stripping a
/// trailing carriage return from each line.
pub fn parse_lines(bytes: &Vec<u8>) -> (r: Vec<Vec<char>>)
    ensures
        views_of(r@) == lines_of(bytes@),
{
    let len = bytes.len();
    let mut result: Vec<Vec<char>> = Vec::new();
    let mut pos: usize = 0;
    proof {
        assert(bytes@.skip(0) =~= bytes@);
        assert(views_of(result@) =~= Seq::<Seq<char>>::empty());
        assert(lines_of(bytes@) =~= views_of(result@) + lines_of(bytes@.skip(0)));
    }
    while pos < len
        invariant
            len == bytes@.len(),
            pos <= len,
            lines_of(bytes@) =~= views_of(result@) + lines_of(bytes@.skip(pos as int)),
        decreases len - pos,
    {
        let ghost rest = bytes@.skip(pos as int);
        // scan to the end of the current line, collecting its characters
        let mut word: Vec<char> = Vec::new();
        let mut i: usize = pos;
        while i < len && bytes[i] != 10
            invariant
                len == bytes@.len(),
                pos <= i <= len,
                forall|j: int| pos <= j < i ==> bytes@[j] != 10,
                word@ =~= chars_of(bytes@.subrange(pos as int, i as int)),
            ensures
                pos <= i <= len,
                forall|j: int| pos <= j < i ==> bytes@[j] != 10,
                i < len ==> bytes@[i as int] == 10,
                word@ =~= chars_of(bytes@.subrange(pos as int, i as int)),
            decreases len - i,
        {
            word.push(bytes[i] as char);
            proof {
                assert(bytes@.subrange(pos as int, i + 1).drop_last() =~= bytes@.subrange(
                    pos as int,
                    i as int,
                ));
                assert(word@ =~= chars_of(bytes@.subrange(pos as int, i + 1)));
            }
            i += 1;
        }
        proof {
            assert forall|j: int| 0 <= j < i - pos implies rest[j] != 10 by {
                assert(rest[j] == bytes@[pos + j]);
            }
            if i < len {
                assert(rest[i - pos] == bytes@[i as int]);
            }
            lemma_first_line_end_unique(rest, i - pos);
            assert(rest.take(i - pos) =~= bytes@.subrange(pos as int, i as int));
        }
        // strip one trailing carriage return, as str::lines would, so
        // that a word list with windows line endings reads the same
        if word.len() > 0 && word[word.len() - 1] == '\r' {
            word.pop();
            proof {
                let seg = bytes@.subrange(pos as int, i as int);
                assert(seg.last() == 13) by {
                    assert(chars_of(seg)[seg.len() - 1] == seg.last() as char);
                }
                assert(word@ =~= chars_of(seg).drop_last());
                assert(chars_of(seg).drop_last() =~= chars_of(seg.drop_last()));
                assert(word@ =~= line_word(seg));
            }
        } else {
            proof {
                let seg = bytes@.subrange(pos as int, i as int);
                if seg.len() > 0 && seg.last() == 13 {
                    assert(word@[seg.len() - 1] == seg.last() as char);
                    assert(false);
                }
                assert(word@ =~= line_word(seg));
            }
        }
        proof {
            let seg = bytes@.subrange(pos as int, i as int);
            if i == len {
                assert(rest.take(i - pos) =~= rest);
                assert(lines_of(rest) =~= seq![line_word(rest)]);
                assert(views_of(result@.push(word)) =~= views_of(result@) + seq![word@]);
            } else {
                assert(lines_of(rest) =~= seq![line_word(rest.take(i - pos))] + lines_of(
                    rest.skip(i - pos + 1),
                ));
                assert(rest.skip(i - pos + 1) =~= bytes@.skip(i + 1));
                assert(views_of(result@.push(word)) =~= views_of(result@) + seq![word@]);
            }
        }
        result.push(word);
        if i < len {
            pos = i + 1;
        } else {
            pos = len;
        }
    }
    proof {
        assert(bytes@.skip(len as int) =~= Seq::<u8>::empty());
        assert(views_of(result@) =~= lines_of(bytes@));
    }
    result
}

/// What zstd decompression yields on the given frame: a pure function of
/// the compressed bytes.
pub uninterp spec fn zstd_decoded(compressed: Seq<u8>) -> Seq<u8>;

/// Relies on zstd::stream::decode_all: decompressing a zstd frame is
/// deterministic in the input bytes; malformed input yields an error.
#[verifier::external_body]
fn decode_zstd(compressed: &[u8]) -> (r: Option<Vec<u8>>)
    ensures
        r matches Some(v) ==> v@ == zstd_decoded(compressed@),
{
    match zstd::stream::decode_all(compressed) {
        Ok(v) => Some(v),
        Err(_) => None,
    }
}

impl Dictionary {
    /// Builds the dictionary from a zstd-compressed newline-separated word
    /// list. Yields nothing when decompression fails or when the list is
    /// not strictly sorted.
    pub fn from_compressed(compressed: &[u8]) -> (r: Option<Dictionary>)
        ensures
            r matches Some(d) ==> d.wf() && d@ == lines_of(zstd_decoded(compressed@)),
    {
        match decode_zstd(compressed) {
            Some(bytes) => {
                let words = parse_lines(&bytes);
                Dictionary::from_char_words(words)
            },
            None => None,
        }
    }
}

/// Whether the word, upper-cased, is in the dictionary. This is how the
/// game validates a player's word.
pub fn is_word_in_dictionary(word: &str, dictionary: &Dictionary) -> (r: bool)
    requires
        dictionary.wf(),
    ensures
        r <==> dictionary@.contains(upper_seq(word@)),
{
    let key = word_chars_upper(word);
    dictionary.contains_word(&key)
}

} // verus!
