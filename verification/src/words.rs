//! Splitting a string at its first space.

use vstd::prelude::*;

verus! {

/// The number of characters before the first space in `s` (all of `s` when
/// it holds no space).
pub open spec fn first_word_len(s: Seq<char>) -> int
    decreases s.len(),
{
    if s.len() == 0 {
        0
    } else if s[0] == ' ' {
        0
    } else {
        1 + first_word_len(s.drop_first())
    }
}

/// The prefix up to the first space contains no space and is either the
/// whole string or stops right before a space.
pub proof fn lemma_first_word_len(s: Seq<char>)
    ensures
        0 <= first_word_len(s) <= s.len(),
        forall|j: int| 0 <= j < first_word_len(s) ==> s[j] != ' ',
        first_word_len(s) < s.len() ==> s[first_word_len(s)] == ' ',
    decreases s.len(),
{
    if s.len() > 0 && s[0] != ' ' {
        lemma_first_word_len(s.drop_first());
        assert forall|j: int| 0 <= j < first_word_len(s) implies s[j] != ' ' by {
            if j > 0 {
                assert(s.drop_first()[j - 1] == s[j]);
            }
        }
        if first_word_len(s) < s.len() {
            assert(s.drop_first()[first_word_len(s) - 1] == s[first_word_len(s)]);
        }
    }
}

/// The first word of `s`: everything before the first space, or all of `s`
/// when it holds no space.
pub fn first_word(s: &String) -> (r: &str)
    ensures
        r@ == s@.subrange(0, first_word_len(s@)),
{
    let text: &str = s.as_str();
    let len: usize = text.unicode_len();
    let mut i: usize = 0;
    while i < len
        invariant
            0 <= i <= len,
            len == text@.len(),
            text@ == s@,
            forall|j: int| 0 <= j < i ==> text@[j] != ' ',
        decreases len - i,
    {
        if text.get_char(i) == ' ' {
            proof {
                lemma_first_word_len(s@);
                assert(first_word_len(s@) == i);
            }
            return text.substring_char(0, i);
        }
        i = i + 1;
    }
    proof {
        lemma_first_word_len(s@);
        assert(first_word_len(s@) == len);
    }
    text.substring_char(0, len)
}

} // verus!
