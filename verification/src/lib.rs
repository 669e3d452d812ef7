//! A prefix tree over the lower-case letters `a` to `z`.
//!
//! A [`PrefixTree`] stores a finite set of words. Its view is that set, and
//! every operation is specified over it: which words and prefixes are found,
//! and how many child slots the tree has allocated for them.

pub mod alphabet;
pub mod laws;
pub mod node;
pub mod prefix_tree;
pub mod words;

pub use alphabet::{accepts, validate, InvalidCharacter, ALPHABET_SIZE};
pub use node::Node;
pub use prefix_tree::PrefixTree;
