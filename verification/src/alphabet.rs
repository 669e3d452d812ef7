//! The alphabet of the tree, and the check that a word stays inside it.

use vstd::prelude::*;

verus! {

/// Number of letters in the alphabet, and of child slots in every node.
pub const ALPHABET_SIZE: usize = 26;

/// `c` is one of the letters `a` to `z`.
pub open spec fn is_letter(c: char) -> bool {
    'a' <= c <= 'z'
}

/// Position of a letter in the alphabet, counted from zero.
pub open spec fn letter_index(c: char) -> int {
    c as int - 'a' as int
}

/// Every character of `w` is a letter.
pub open spec fn in_alphabet(w: Seq<char>) -> bool {
    forall|i: int| 0 <= i < w.len() ==> is_letter(#[trigger] w[i])
}

/// Index of the first character of `w` that is not a letter, or the length
/// of `w` where all of them are.
pub open spec fn first_foreign(w: Seq<char>) -> int
    decreases w.len(),
{
    if w.len() == 0 || !is_letter(w[0]) {
        0
    } else {
        1 + first_foreign(w.drop_first())
    }
}

/// The reason a word is turned away: it holds a character outside the alphabet.
#[derive(Debug, Clone, Copy, PartialEq, Eq)]
pub struct InvalidCharacter {
    /// The first such character of the word.
    pub character: char,
}

/// `first_foreign` stops at `k` when the characters before `k` are letters
/// and the one at `k`, if there is one, is not.
pub proof fn lemma_first_foreign(w: Seq<char>, k: int)
    requires
        0 <= k <= w.len(),
        forall|i: int| 0 <= i < k ==> is_letter(w[i]),
        k < w.len() ==> !is_letter(w[k]),
    ensures
        first_foreign(w) == k,
    decreases w.len(),
{
    if k > 0 {
        let rest = w.drop_first();
        assert forall|i: int| 0 <= i < k - 1 implies is_letter(rest[i]) by {
            assert(rest[i] == w[i + 1]);
        }
        lemma_first_foreign(rest, k - 1);
    }
}

/// Tells whether `c` is a letter of the alphabet.
pub fn accepts(c: char) -> (yes: bool)
    ensures
        yes == is_letter(c),
{
    'a' <= c && c <= 'z'
}

/// Checks that `word` is made of letters only, and names the first character
/// that is not.
pub fn validate(word: &str) -> (result: Result<(), InvalidCharacter>)
    ensures
        result is Ok <==> in_alphabet(word@),
        result matches Err(e) ==> first_foreign(word@) < word@.len() && e.character
            == word@[first_foreign(word@)],
{
    for c in it: word.chars()
        invariant
            it.seq() == word@,
            forall|i: int| 0 <= i < it.index() ==> is_letter(word@[i]),
    {
        if !accepts(c) {
            proof {
                lemma_first_foreign(word@, it.index());
            }
            return Err(InvalidCharacter { character: c });
        }
    }
    Ok(())
}

} // verus!
