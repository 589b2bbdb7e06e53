//! The fixed alphabet of guessable letters and character-level helpers:
//! upper-casing and lexicographic comparison of words.

use vstd::prelude::*;

verus! {

/// The 26 letters a player may guess, in their fixed on-screen order.
pub const ENGLISH_ALPHABET: &'static str = "ABCDEFGHIJKLMNOPQRSTUVWXYZ";

/// The alphabet as a mathematical sequence of characters.
pub open spec fn alphabet() -> Seq<char> {
    seq![
        'A', 'B', 'C', 'D', 'E', 'F', 'G', 'H', 'I', 'J', 'K', 'L', 'M',
        'N', 'O', 'P', 'Q', 'R', 'S', 'T', 'U', 'V', 'W', 'X', 'Y', 'Z',
    ]
}

/// The string constant spells out exactly the alphabet sequence.
pub proof fn lemma_alphabet_literal()
    ensures
        ENGLISH_ALPHABET@ =~= alphabet(),
{
    reveal_strlit("ABCDEFGHIJKLMNOPQRSTUVWXYZ");
}

/// An upper-case Latin letter.
pub open spec fn is_upper_alpha(c: char) -> bool {
    'A' <= c && c <= 'Z'
}

/// A lower-case Latin letter.
pub open spec fn is_lower_alpha(c: char) -> bool {
    'a' <= c && c <= 'z'
}

/// Upper-casing of a single character: lower-case Latin letters are
/// mapped to their upper-case form, everything else is untouched.
pub open spec fn spec_to_upper(c: char) -> char {
    if is_lower_alpha(c) {
        (((c as u8) - 0x20) as char)
    } else {
        c
    }
}

/// A whole word upper-cased, character by character.
pub open spec fn upper_seq(s: Seq<char>) -> Seq<char> {
    s.map_values(|c: char| spec_to_upper(c))
}

/// Executable upper-casing of one character.
pub fn to_upper(c: char) -> (r: char)
    ensures
        r == spec_to_upper(c),
{
    if 'a' <= c && c <= 'z' {
        ((c as u8) - 0x20) as char
    } else {
        c
    }
}

/// A word as the upper-cased sequence of its characters.
pub fn word_chars_upper(word: &str) -> (r: Vec<char>)
    ensures
        r@ == upper_seq(word@),
{
    let len = word.unicode_len();
    let mut r: Vec<char> = Vec::new();
    let mut i: usize = 0;
    while i < len
        invariant
            len == word@.len(),
            i <= len,
            r@ =~= upper_seq(word@).take(i as int),
        decreases len - i,
    {
        r.push(to_upper(word.get_char(i)));
        i += 1;
    }
    proof {
        assert(r@ =~= upper_seq(word@));
    }
    r
}

/// Lexicographic order on words, by character code, with a proper prefix
/// ordered before its extensions. This is the order of the dictionary.
pub open spec fn lex_lt(a: Seq<char>, b: Seq<char>) -> bool
    decreases a.len(),
{
    if b.len() == 0 {
        false
    } else if a.len() == 0 {
        true
    } else if a[0] == b[0] {
        lex_lt(a.drop_first(), b.drop_first())
    } else {
        a[0] < b[0]
    }
}

/// No word is ordered before itself.
pub proof fn lemma_lex_lt_irrefl(a: Seq<char>)
    ensures
        !lex_lt(a, a),
    decreases a.len(),
{
    if a.len() > 0 {
        lemma_lex_lt_irrefl(a.drop_first());
    }
}

/// Lexicographic order is transitive.
pub proof fn lemma_lex_lt_trans(a: Seq<char>, b: Seq<char>, c: Seq<char>)
    requires
        lex_lt(a, b),
        lex_lt(b, c),
    ensures
        lex_lt(a, c),
    decreases a.len() + b.len() + c.len(),
{
    if a.len() > 0 && b.len() > 0 && c.len() > 0 {
        if a[0] == b[0] && b[0] == c[0] {
            lemma_lex_lt_trans(a.drop_first(), b.drop_first(), c.drop_first());
        }
    }
}

/// With the first `i` characters equal, the order of two words is decided
/// by what follows them.
pub proof fn lemma_lex_lt_common_prefix(a: Seq<char>, b: Seq<char>, i: int)
    requires
        0 <= i <= a.len(),
        i <= b.len(),
        forall|j: int| 0 <= j < i ==> a[j] == b[j],
    ensures
        lex_lt(a, b) <==> lex_lt(a.skip(i), b.skip(i)),
    decreases i,
{
    if i > 0 {
        lemma_lex_lt_common_prefix(a.drop_first(), b.drop_first(), i - 1);
        assert(a.drop_first().skip(i - 1) =~= a.skip(i));
        assert(b.drop_first().skip(i - 1) =~= b.skip(i));
        assert(forall|j: int|
            0 <= j < i - 1 ==> #[trigger] a.drop_first()[j] == b.drop_first()[j]);
    } else {
        assert(a.skip(0) =~= a);
        assert(b.skip(0) =~= b);
    }
}

/// Three-way lexicographic comparison of two words: -1 for before,
/// 0 for equal, 1 for after.
pub fn lex_cmp(a: &Vec<char>, b: &Vec<char>) -> (o: i8)
    ensures
        -1 <= o <= 1,
        (o == -1) <==> lex_lt(a@, b@),
        (o == 0) <==> a@ == b@,
        (o == 1) <==> lex_lt(b@, a@),
{
    let a_len = a.len();
    let b_len = b.len();
    let mut i: usize = 0;
    loop
        invariant
            i <= a_len,
            i <= b_len,
            a_len == a@.len(),
            b_len == b@.len(),
            forall|j: int| 0 <= j < i ==> a@[j] == b@[j],
        ensures
            i == a_len || i == b_len,
            forall|j: int| 0 <= j < i ==> a@[j] == b@[j],
        decreases a_len - i,
    {
        if i == a_len || i == b_len {
            break;
        }
        let ca = a[i];
        let cb = b[i];
        if ca != cb {
            proof {
                lemma_lex_lt_common_prefix(a@, b@, i as int);
                lemma_lex_lt_common_prefix(b@, a@, i as int);
                assert(a@.skip(i as int)[0] == ca);
                assert(b@.skip(i as int)[0] == cb);
                if ca < cb {
                    lemma_lex_lt_irrefl(a@);
                } else {
                    lemma_lex_lt_irrefl(b@);
                }
            }
            if ca < cb {
                proof {
                    assert(lex_lt(a@, b@));
                    assert(!lex_lt(b@, a@)) by {
                        assert(b@.skip(i as int)[0] != a@.skip(i as int)[0]);
                    }
                    assert(a@ != b@) by {
                        assert(a@[i as int] != b@[i as int]);
                    }
                }
                return -1;
            } else {
                proof {
                    assert(lex_lt(b@, a@));
                    assert(!lex_lt(a@, b@));
                    assert(a@ != b@) by {
                        assert(a@[i as int] != b@[i as int]);
                    }
                }
                return 1;
            }
        }
        i += 1;
    }
    proof {
        lemma_lex_lt_common_prefix(a@, b@, i as int);
        lemma_lex_lt_common_prefix(b@, a@, i as int);
    }
    if a_len == b_len {
        proof {
            assert(a@ =~= b@);
            lemma_lex_lt_irrefl(a@);
        }
        0
    } else if a_len < b_len {
        proof {
            assert(i == a_len);
            assert(a@.skip(i as int).len() == 0);
            assert(b@.skip(i as int).len() > 0);
            assert(a@ != b@) by {
                assert(a@.len() != b@.len());
            }
        }
        -1
    } else {
        proof {
            assert(i == b_len);
            assert(b@.skip(i as int).len() == 0);
            assert(a@.skip(i as int).len() > 0);
            assert(a@ != b@) by {
                assert(a@.len() != b@.len());
            }
        }
        1
    }
}

} // verus!
