//! The nodes of the tree, and the walks through them.

use crate::alphabet::{in_alphabet, is_letter, letter_index, ALPHABET_SIZE};
use crate::words::{lemma_add_word_prefixes, word_prefixes};
use vstd::prelude::*;

verus! {

/// One position in the tree: the prefix spelled by the letters on the way
/// from the root.
#[derive(Debug, PartialEq)]
pub struct Node {
    /// One slot for each letter: the node reached by that letter, if any.
    pub buckets: [Option<Box<Node>>; ALPHABET_SIZE],
    /// Whether a word ends at this node.
    pub is_word: bool,
}

impl Default for Node {
    /// A node without children at which no word ends.
    fn default() -> (node: Node)
        ensures
            node == Node::empty(),
    {
        Node {
            buckets: [
                None, None, None, None, None, None, None, None, None, None, None, None, None,
                None, None, None, None, None, None, None, None, None, None, None, None, None,
            ],
            is_word: false,
        }
    }
}

impl Node {
    /// The node without children at which no word ends.
    pub open spec fn empty() -> Node {
        Node {
            buckets: [
                None, None, None, None, None, None, None, None, None, None, None, None, None,
                None, None, None, None, None, None, None, None, None, None, None, None, None,
            ],
            is_word: false,
        }
    }

    /// The node reached from this one by the letter `c`.
    pub open spec fn child(self, c: char) -> Option<Node> {
        if is_letter(c) {
            match self.buckets[letter_index(c)] {
                Some(b) => Some(*b),
                None => None,
            }
        } else {
            None
        }
    }

    /// The node reached from this one by the letters of `path`, in order.
    pub open spec fn walk(self, path: Seq<char>) -> Option<Node>
        decreases path.len(),
    {
        if path.len() == 0 {
            Some(self)
        } else {
            match self.child(path[0]) {
                Some(n) => n.walk(path.drop_first()),
                None => None,
            }
        }
    }

    /// `path` leads from this node to a node.
    pub open spec fn has_path(self, path: Seq<char>) -> bool {
        self.walk(path) is Some
    }

    /// `path` leads from this node to a node at which a word ends.
    pub open spec fn has_word(self, path: Seq<char>) -> bool {
        match self.walk(path) {
            Some(n) => n.is_word,
            None => false,
        }
    }

    /// The paths that lead from this node to a node.
    pub open spec fn paths(self) -> Set<Seq<char>> {
        Set::new(|p: Seq<char>| self.has_path(p))
    }

    /// The words stored below this node.
    pub open spec fn words(self) -> Set<Seq<char>> {
        Set::new(|p: Seq<char>| self.has_word(p))
    }

    /// The child under `c`, or an empty node where there is none.
    pub(crate) open spec fn child_or_empty(self, c: char) -> Node {
        match self.child(c) {
            Some(n) => n,
            None => Node::empty(),
        }
    }

    /// This node with `n` as its child under the letter `c`.
    pub(crate) open spec fn with_child(self, c: char, n: Node) -> Node {
        Node {
            buckets: vstd::array::spec_array_update(
                self.buckets,
                letter_index(c),
                Some(Box::new(n)),
            ),
            is_word: self.is_word,
        }
    }

    /// This node with a word ending at it.
    pub(crate) open spec fn marked(self) -> Node {
        Node { buckets: self.buckets, is_word: true }
    }

    /// The tree below this node after `w` was stored in it.
    pub(crate) open spec fn inserted(self, w: Seq<char>) -> Node
        decreases w.len(),
    {
        if w.len() == 0 {
            self.marked()
        } else {
            self.with_child(w[0], self.child_or_empty(w[0]).inserted(w.drop_first()))
        }
    }

    /// Number of nodes that storing `w` below this node creates: the length
    /// of what is left of `w` where the walk along it ends.
    pub(crate) open spec fn missing(self, w: Seq<char>) -> nat
        decreases w.len(),
    {
        if w.len() == 0 {
            0
        } else {
            match self.child(w[0]) {
                Some(n) => n.missing(w.drop_first()),
                None => w.len(),
            }
        }
    }

    /// Only the empty path leads anywhere from an empty node, and no word
    /// ends there.
    pub proof fn lemma_empty(path: Seq<char>)
        ensures
            Node::empty().has_path(path) <==> path.len() == 0,
            !Node::empty().has_word(path),
    {
    }

    /// Below an empty node every letter of a word needs a new node.
    pub(crate) proof fn lemma_empty_missing(w: Seq<char>)
        ensures
            Node::empty().missing(w) == w.len(),
    {
    }

    /// No path but the empty one leads anywhere from an empty node, and no
    /// word is stored below it.
    pub proof fn lemma_empty_sets()
        ensures
            Node::empty().paths() == set![Seq::<char>::empty()],
            Node::empty().words() == Set::<Seq<char>>::empty(),
    {
        assert forall|p: Seq<char>|
            Node::empty().has_path(p) <==> p == Seq::<char>::empty() by {
            Node::lemma_empty(p);
            assert(p.len() == 0 ==> p =~= Seq::<char>::empty());
        }
        assert forall|p: Seq<char>| !Node::empty().has_word(p) by {
            Node::lemma_empty(p);
        }
    }

    /// Only letters lead from node to node.
    pub proof fn lemma_path_in_alphabet(self, path: Seq<char>)
        requires
            self.has_path(path),
        ensures
            in_alphabet(path),
        decreases path.len(),
    {
        if path.len() > 0 {
            let rest = path.drop_first();
            self.child(path[0]).unwrap().lemma_path_in_alphabet(rest);
            assert forall|i: int| 0 < i < path.len() implies is_letter(path[i]) by {
                assert(path[i] == rest[i - 1]);
            }
        }
    }

    /// The letter of a child is a path to it.
    pub proof fn lemma_child_path(self, c: char)
        requires
            self.child(c) is Some,
        ensures
            self.has_path(seq![c]),
    {
        assert(self.walk(seq![c]) == self.child(c).unwrap().walk(seq![c].drop_first()));
    }

    /// After `w` was stored, a path leads to a node where it did before or
    /// where it is a prefix of `w`, and to the end of a word where it did
    /// before or where it is `w`.
    pub(crate) proof fn lemma_inserted_walk(self, w: Seq<char>, p: Seq<char>)
        requires
            in_alphabet(w),
        ensures
            self.inserted(w).has_path(p) <==> self.has_path(p) || p.is_prefix_of(w),
            self.inserted(w).has_word(p) <==> self.has_word(p) || p == w,
        decreases w.len(),
    {
        if w.len() == 0 {
            assert(p.len() == 0 ==> p =~= w);
        } else if p.len() > 0 && p[0] == w[0] {
            let rest = w.drop_first();
            let q = p.drop_first();
            self.child_or_empty(w[0]).lemma_inserted_walk(rest, q);
            Node::lemma_empty(q);
            assert(q.is_prefix_of(rest) ==> p.is_prefix_of(w)) by {
                if q.is_prefix_of(rest) {
                    assert forall|i: int| 0 < i < p.len() implies p[i] == w[i] by {
                        assert(q[i - 1] == rest.subrange(0, q.len() as int)[i - 1]);
                    }
                }
            }
            assert(q == rest ==> p =~= w);
        }
    }

    /// Storing `w` adds the prefixes of `w` to the paths, and `w` to the words.
    pub(crate) proof fn lemma_inserted(self, w: Seq<char>)
        requires
            in_alphabet(w),
        ensures
            self.inserted(w).paths() == self.paths() + word_prefixes(w),
            self.inserted(w).words() == self.words().insert(w),
    {
        let after = self.inserted(w);
        assert forall|p: Seq<char>|
            after.has_path(p) <==> self.has_path(p) || p.is_prefix_of(w) by {
            self.lemma_inserted_walk(w, p);
        }
        assert forall|p: Seq<char>| after.has_word(p) <==> self.has_word(p) || p == w by {
            self.lemma_inserted_walk(w, p);
        }
    }

    /// The walk along `w` gets as far as the letters that need no new node.
    pub(crate) proof fn lemma_missing(self, w: Seq<char>, k: int)
        requires
            0 <= k <= w.len(),
        ensures
            self.missing(w) <= w.len(),
            self.has_path(w.take(k)) <==> k <= w.len() - self.missing(w),
        decreases w.len(),
    {
        if w.len() > 0 {
            let rest = w.drop_first();
            match self.child(w[0]) {
                Some(n) => {
                    n.lemma_missing(rest, 0);
                    if k > 0 {
                        n.lemma_missing(rest, k - 1);
                        assert(w.take(k).drop_first() =~= rest.take(k - 1));
                    }
                },
                None => {},
            }
        }
    }

    /// Storing `w` adds as many paths as `missing` counts.
    pub(crate) proof fn lemma_missing_count(self, w: Seq<char>)
        requires
            self.paths().finite(),
        ensures
            self.missing(w) <= w.len(),
            (self.paths() + word_prefixes(w)).finite(),
            (self.paths() + word_prefixes(w)).len() == self.paths().len() + self.missing(w),
    {
        let shared = w.len() - self.missing(w);
        assert forall|j: int| 0 <= j <= w.len() implies (self.paths().contains(
            #[trigger] w.take(j),
        ) <==> j <= shared) by {
            self.lemma_missing(w, j);
        }
        self.lemma_missing(w, 0);
        lemma_add_word_prefixes(self.paths(), w, shared);
    }
}

} // verus!
