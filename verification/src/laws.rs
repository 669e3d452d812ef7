//! What holds of every tree, whatever was stored in it.
//!
//! A tree is spoken of by its view, the set of its words, as the contracts
//! of its operations are: `insert` adds a word to the view, `clear` empties
//! it, `contains_word` asks whether a word is in it, `contains_prefix`
//! whether a word is among its `prefixes`, and `nodes_total` counts one
//! alphabet of slots for each of these prefixes.

use crate::alphabet::{in_alphabet, is_letter, ALPHABET_SIZE};
use crate::prefix_tree::PrefixTree;
use crate::words::{
    lemma_insert_count, lemma_prefixes_insert, lemma_prefixes_of_nothing, prefixes, shared_len,
};
use vstd::prelude::*;

verus! {

/// A word that was stored is found, as a word and as a prefix.
pub proof fn stored_word_is_found(before: PrefixTree, after: PrefixTree, w: Seq<char>)
    requires
        after@ == before@.insert(w),
    ensures
        after@.contains(w),
        prefixes(after@).contains(w),
{
    assert(w.is_prefix_of(w));
}

/// Every prefix of a word that was stored is found as a prefix.
pub proof fn prefix_of_stored_word_is_found(
    before: PrefixTree,
    after: PrefixTree,
    w: Seq<char>,
    p: Seq<char>,
)
    requires
        after@ == before@.insert(w),
        p.is_prefix_of(w),
    ensures
        prefixes(after@).contains(p),
{
    assert(after@.contains(w));
}

/// Storing a word makes no other word a word of the tree: what was not
/// stored before and is not the new word is not found, be it a prefix of the
/// new word or not.
pub proof fn other_word_is_not_found(
    before: PrefixTree,
    after: PrefixTree,
    w: Seq<char>,
    s: Seq<char>,
)
    requires
        after@ == before@.insert(w),
        s != w,
        !before@.contains(s),
    ensures
        !after@.contains(s),
{
}

/// Storing a word makes none but its own prefixes a prefix of the tree.
pub proof fn other_prefix_is_not_found(
    before: PrefixTree,
    after: PrefixTree,
    w: Seq<char>,
    s: Seq<char>,
)
    requires
        after@ == before@.insert(w),
        !s.is_prefix_of(w),
        !prefixes(before@).contains(s),
    ensures
        !prefixes(after@).contains(s),
{
    lemma_prefixes_insert(before@, w);
}

/// What was found before a word was stored is found after it.
pub proof fn stored_words_stay(before: PrefixTree, after: PrefixTree, w: Seq<char>, s: Seq<char>)
    requires
        after@ == before@.insert(w),
    ensures
        before@.contains(s) ==> after@.contains(s),
        prefixes(before@).contains(s) ==> prefixes(after@).contains(s),
{
    if prefixes(before@).contains(s) && s.len() != 0 {
        let v = choose|v: Seq<char>| #[trigger] before@.contains(v) && s.is_prefix_of(v);
        assert(after@.contains(v));
    }
}

/// Storing a word a second time changes neither the words of the tree nor
/// its count of slots.
pub proof fn second_insert_changes_nothing(
    before: PrefixTree,
    once: PrefixTree,
    twice: PrefixTree,
    w: Seq<char>,
)
    requires
        once@ == before@.insert(w),
        twice@ == once@.insert(w),
    ensures
        twice@ == once@,
        ALPHABET_SIZE * prefixes(twice@).len() == ALPHABET_SIZE * prefixes(once@).len(),
{
    assert(twice@ =~= once@);
}

/// Storing a word charges one alphabet of slots for each of its letters
/// beyond the longest prefix that the tree already held: none at least,
/// and at most one for each letter.
pub proof fn insert_charges_new_letters(before: PrefixTree, after: PrefixTree, w: Seq<char>)
    requires
        before@.finite(),
        after@ == before@.insert(w),
    ensures
        ALPHABET_SIZE * prefixes(after@).len() == ALPHABET_SIZE * prefixes(before@).len()
            + ALPHABET_SIZE * (w.len() - shared_len(before@, w)),
        ALPHABET_SIZE * prefixes(before@).len() <= ALPHABET_SIZE * prefixes(after@).len()
            <= ALPHABET_SIZE * prefixes(before@).len() + ALPHABET_SIZE * w.len(),
{
    lemma_insert_count(before@, w);
}

/// A tree without words, as `new` and `clear` leave it, is empty, counts
/// the slots of its root alone, holds no word, and no prefix but the empty
/// one.
pub proof fn tree_without_words(tree: PrefixTree, w: Seq<char>)
    requires
        tree@ == Set::<Seq<char>>::empty(),
    ensures
        tree@.is_empty(),
        ALPHABET_SIZE * prefixes(tree@).len() == ALPHABET_SIZE,
        !tree@.contains(w),
        prefixes(tree@).contains(w) <==> w.len() == 0,
{
    lemma_prefixes_of_nothing();
}

/// A word with a character outside the alphabet is found in no tree,
/// neither as a word nor as a prefix.
pub proof fn foreign_word_is_not_found(tree: PrefixTree, w: Seq<char>)
    requires
        !in_alphabet(w),
    ensures
        !tree@.contains(w),
        !prefixes(tree@).contains(w),
{
    if tree@.contains(w) {
        tree.lemma_words_in_alphabet(w);
    }
    if prefixes(tree@).contains(w) {
        let v = choose|v: Seq<char>| #[trigger] tree@.contains(v) && w.is_prefix_of(v);
        tree.lemma_words_in_alphabet(v);
        assert forall|i: int| 0 <= i < w.len() implies is_letter(w[i]) by {
            assert(w[i] == v.subrange(0, w.len() as int)[i]);
        }
    }
}

/// The empty prefix is found in every tree.
pub proof fn empty_prefix_is_found(tree: PrefixTree)
    ensures
        prefixes(tree@).contains(Seq::<char>::empty()),
{
}

} // verus!
