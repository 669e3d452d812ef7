//! The prefix tree and its operations.

use crate::alphabet::{
    accepts, first_foreign, in_alphabet, is_letter, letter_index, validate, InvalidCharacter,
    ALPHABET_SIZE,
};
use crate::node::Node;
use crate::words::{lemma_prefixes_insert, lemma_prefixes_of_nothing, prefixes};
use vstd::prelude::*;

verus! {

/// A set of words over the letters `a` to `z`, stored as a tree with one
/// node for every prefix of a word.
///
/// The view of a tree is the set of its words.
#[derive(Debug)]
pub struct PrefixTree {
    root: Node,
    num_nodes: u64,
}

impl View for PrefixTree {
    type V = Set<Seq<char>>;

    closed spec fn view(&self) -> Set<Seq<char>> {
        self.root.words()
    }
}

impl Default for PrefixTree {
    /// A tree without words.
    fn default() -> (tree: PrefixTree)
        ensures
            tree@ == Set::<Seq<char>>::empty(),
    {
        proof {
            Node::lemma_empty_sets();
            lemma_prefixes_of_nothing();
        }
        PrefixTree { root: Node::default(), num_nodes: ALPHABET_SIZE as u64 }
    }
}

impl PrefixTree {
    /// Every path of the tree is a prefix of one of its words, and the
    /// counter charges one alphabet of slots for every path.
    #[verifier::type_invariant]
    spec fn well_formed(self) -> bool {
        &&& self.root.paths().finite()
        &&& self.root.paths() == prefixes(self.root.words())
        &&& self.num_nodes == ALPHABET_SIZE * self.root.paths().len()
    }

    /// The words of a tree are made of letters.
    pub proof fn lemma_words_in_alphabet(self, w: Seq<char>)
        requires
            self@.contains(w),
        ensures
            in_alphabet(w),
    {
        self.root.lemma_path_in_alphabet(w);
    }

    /// Creates a tree without words.
    #[must_use]
    pub fn new() -> (tree: PrefixTree)
        ensures
            tree@ == Set::<Seq<char>>::empty(),
    {
        PrefixTree::default()
    }

    /// Slot of the letter `c` among the children of a node.
    pub(crate) fn index(c: char) -> (idx: usize)
        requires
            is_letter(c),
        ensures
            idx == letter_index(c),
            idx < ALPHABET_SIZE,
    {
        (c as u32 - 'a' as u32) as usize
    }

    /// Stores `word` in the tree.
    ///
    /// A word with a character outside the alphabet is turned away, and
    /// the tree stays as it was. The counter of the tree must have room
    /// for the nodes that the word needs.
    pub fn insert(&mut self, word: &str) -> (result: Result<(), InvalidCharacter>)
        requires
            in_alphabet(word@) ==> ALPHABET_SIZE * prefixes(old(self)@.insert(word@)).len()
                <= u64::MAX,
        ensures
            result is Ok <==> in_alphabet(word@),
            result is Ok ==> final(self)@ == old(self)@.insert(word@),
            result is Err ==> *final(self) == *old(self),
            result matches Err(e) ==> first_foreign(word@) < word@.len() && e.character
                == word@[first_foreign(word@)],
    {
        validate(word)?;
        proof {
            use_type_invariant(&*self);
        }
        let mut taken = PrefixTree::new();
        std::mem::swap(self, &mut taken);
        let PrefixTree { mut root, mut num_nodes } = taken;

        let ghost start = root;
        let ghost target = num_nodes + ALPHABET_SIZE * start.missing(word@);
        proof {
            start.lemma_inserted(word@);
            start.lemma_missing_count(word@);
            lemma_prefixes_insert(start.words(), word@);
            assert(word@.skip(0) =~= word@);
        }
        let mut ptr = &mut root;
        for c in it: word.chars()
            invariant
                it.seq() == word@,
                in_alphabet(word@),
                target <= u64::MAX,
                num_nodes + ALPHABET_SIZE * ptr.missing(word@.skip(it.index())) == target,
                *final(ptr) == ptr.inserted(word@.skip(it.index())) ==> after_borrow(root)
                    == start.inserted(word@),
        {
            let idx = Self::index(c);
            let ghost here = *ptr;
            let ghost here_final = *final(ptr);
            let ghost rest = word@.skip(it.index() + 1);
            proof {
                assert(word@.skip(it.index()).drop_first() == rest);
                Node::lemma_empty_missing(rest);
            }
            if ptr.buckets[idx].is_none() {
                num_nodes += ALPHABET_SIZE as u64;
                ptr.buckets[idx] = Some(Box::new(Node::default()));
            }
            let ghost grown = *ptr;
            ptr = &mut **ptr.buckets[idx].as_mut().unwrap();
            proof {
                let below = *final(ptr);
                assert(grown.with_child(c, below).buckets =~= here.with_child(c, below).buckets);
                assert(here_final == here.with_child(c, below));
            }
        }
        ptr.is_word = true;

        *self = PrefixTree { root, num_nodes };
        Ok(())
    }

    /// The root of the tree: the node of the empty prefix. Its words are
    /// the words of the tree, and its paths their prefixes.
    #[must_use]
    pub fn root(&self) -> (root: &Node)
        ensures
            root.words() == self@,
            root.paths() == prefixes(self@),
    {
        proof {
            use_type_invariant(self);
        }
        &self.root
    }

    /// Tells whether `word` is one of the words of the tree. A word with a
    /// character outside the alphabet is none.
    #[must_use]
    pub fn contains_word(&self, word: &str) -> (found: bool)
        ensures
            found == self@.contains(word@),
            !in_alphabet(word@) ==> !found,
    {
        proof {
            use_type_invariant(self);
        }
        let mut ptr = &self.root;
        proof {
            assert(word@.skip(0) =~= word@);
        }
        for c in it: word.chars()
            invariant
                it.seq() == word@,
                forall|i: int| 0 <= i < it.index() ==> is_letter(word@[i]),
                self.root.paths() == prefixes(self.root.words()),
                self.root.walk(word@) == ptr.walk(word@.skip(it.index())),
        {
            proof {
                assert(word@.skip(it.index()).drop_first() == word@.skip(it.index() + 1));
            }
            if !accepts(c) {
                return false;
            }
            match &ptr.buckets[Self::index(c)] {
                Some(bucket) => {
                    ptr = bucket;
                },
                None => {
                    return false;
                },
            }
        }
        ptr.is_word
    }

    /// Tells whether `word` is a prefix of a word of the tree, or empty. A
    /// word with a character outside the alphabet is neither.
    #[must_use]
    pub fn contains_prefix(&self, word: &str) -> (found: bool)
        ensures
            found == prefixes(self@).contains(word@),
            word@.len() == 0 ==> found,
            !in_alphabet(word@) ==> !found,
    {
        proof {
            use_type_invariant(self);
        }
        let mut ptr = &self.root;
        proof {
            assert(word@.skip(0) =~= word@);
        }
        for c in it: word.chars()
            invariant
                it.seq() == word@,
                forall|i: int| 0 <= i < it.index() ==> is_letter(word@[i]),
                self.root.paths() == prefixes(self.root.words()),
                self.root.walk(word@) == ptr.walk(word@.skip(it.index())),
        {
            proof {
                assert(word@.skip(it.index()).drop_first() == word@.skip(it.index() + 1));
            }
            if !accepts(c) {
                return false;
            }
            match &ptr.buckets[Self::index(c)] {
                Some(bucket) => {
                    ptr = bucket;
                },
                None => {
                    return false;
                },
            }
        }
        true
    }

    /// The number of child slots that the tree has allocated: one alphabet
    /// for every node, the root among them.
    #[must_use]
    pub fn nodes_total(&self) -> (total: u64)
        ensures
            self@.finite(),
            prefixes(self@).finite(),
            total == ALPHABET_SIZE * prefixes(self@).len(),
    {
        proof {
            use_type_invariant(self);
            vstd::set_lib::lemma_len_subset(self.root.words(), self.root.paths());
        }
        self.num_nodes
    }

    /// Tells whether the tree holds no word.
    #[must_use]
    pub fn is_empty(&self) -> (empty: bool)
        ensures
            empty == self@.is_empty(),
    {
        proof {
            use_type_invariant(self);
        }
        if self.root.is_word {
            proof {
                assert(self@.contains(Seq::empty()));
            }
            return false;
        }
        for i in 0..ALPHABET_SIZE
            invariant
                !self.root.is_word,
                self.root.paths() == prefixes(self.root.words()),
                forall|j: int| 0 <= j < i ==> self.root.buckets[j] is None,
        {
            if self.root.buckets[i].is_some() {
                proof {
                    let c = ('a' as int + i) as char;
                    self.root.lemma_child_path(c);
                    assert(prefixes(self@).contains(seq![c]));
                }
                return false;
            }
        }
        proof {
            assert forall|w: Seq<char>| !self.root.has_word(w) by {
                assert(w.len() > 0 ==> self.root.child(w[0]) is None);
            }
        }
        true
    }

    /// Removes every word from the tree.
    pub fn clear(&mut self)
        ensures
            final(self)@ == Set::<Seq<char>>::empty(),
    {
        *self = PrefixTree::new();
    }
}

} // verus!
