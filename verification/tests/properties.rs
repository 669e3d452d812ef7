use pt::{accepts, validate, InvalidCharacter, Node, PrefixTree, ALPHABET_SIZE};

const WORDS: [&str; 8] = ["a", "z", "az", "trie", "tree", "trees", "treat", "zebra"];

fn tree_of(words: &[&str]) -> PrefixTree {
    let mut pt = PrefixTree::new();
    for word in words {
        pt.insert(word).unwrap();
    }
    pt
}

#[test]
fn new_tree_is_empty() {
    let pt = PrefixTree::new();
    assert!(pt.is_empty());
    assert_eq!(pt.nodes_total(), 26);
    assert_eq!(pt.nodes_total(), ALPHABET_SIZE as u64);
    assert!(!pt.contains_word(""));
    assert!(!pt.contains_word("a"));
    assert!(!pt.contains_prefix("a"));
}

#[test]
fn default_tree_is_new_tree() {
    let pt = PrefixTree::default();
    assert!(pt.is_empty());
    assert_eq!(pt.nodes_total(), 26);
    assert!(pt.contains_prefix(""));
    assert!(!pt.contains_word(""));
}

#[test]
fn default_node_has_no_children() {
    let node = Node::default();
    assert_eq!(node.buckets.len(), 26);
    assert!(node.buckets.iter().all(|bucket| bucket.is_none()));
    assert!(!node.is_word);
    assert!(node == Node::default());
}

#[test]
fn stored_word_is_found() {
    for word in WORDS {
        let mut pt = tree_of(&["other", "words"]);
        pt.insert(word).unwrap();
        assert!(pt.contains_word(word));
        assert!(pt.contains_prefix(word));
    }
}

#[test]
fn every_prefix_of_stored_word_is_found() {
    let mut pt = PrefixTree::new();
    pt.insert("zebra").unwrap();
    for prefix in ["", "z", "ze", "zeb", "zebr", "zebra"] {
        assert!(pt.contains_prefix(prefix));
    }
    for word in ["", "z", "ze", "zeb", "zebr"] {
        assert!(!pt.contains_word(word));
    }
}

#[test]
fn other_words_are_not_found() {
    let mut pt = PrefixTree::new();
    pt.insert("tree").unwrap();
    for other in ["", "t", "tre", "trees", "free", "ree", "e", "treetop"] {
        assert!(!pt.contains_word(other));
    }
    for other in ["trees", "free", "ree", "e", "treetop", "ta"] {
        assert!(!pt.contains_prefix(other));
    }
}

#[test]
fn earlier_words_stay() {
    let pt = tree_of(&WORDS);
    for word in WORDS {
        assert!(pt.contains_word(word));
        assert!(pt.contains_prefix(word));
    }
    assert!(!pt.is_empty());
}

#[test]
fn second_insert_adds_no_node() {
    for word in WORDS {
        let mut pt = tree_of(&["tr", "zoo"]);
        pt.insert(word).unwrap();
        let once = pt.nodes_total();
        pt.insert(word).unwrap();
        assert_eq!(pt.nodes_total(), once);
        assert!(pt.contains_word(word));
    }
}

#[test]
fn each_new_letter_costs_one_alphabet() {
    let mut pt = PrefixTree::new();
    pt.insert("trie").unwrap();
    assert_eq!(pt.nodes_total(), 26 * 5);
    pt.insert("tree").unwrap();
    assert_eq!(pt.nodes_total(), 26 * 7);
    pt.insert("trees").unwrap();
    assert_eq!(pt.nodes_total(), 26 * 8);
    pt.insert("tr").unwrap();
    assert_eq!(pt.nodes_total(), 26 * 8);
    pt.insert("a").unwrap();
    assert_eq!(pt.nodes_total(), 26 * 9);
    pt.insert("z").unwrap();
    assert_eq!(pt.nodes_total(), 26 * 10);
}

#[test]
fn clear_forgets_everything() {
    let mut pt = tree_of(&WORDS);
    assert!(pt.nodes_total() > 26);
    pt.clear();
    assert!(pt.is_empty());
    assert_eq!(pt.nodes_total(), 26);
    for word in WORDS {
        assert!(!pt.contains_word(word));
        assert!(!pt.contains_prefix(word));
    }
    assert!(pt.contains_prefix(""));
    pt.insert("tree").unwrap();
    assert_eq!(pt.nodes_total(), 26 * 5);
    assert!(pt.contains_word("tree"));
}

#[test]
fn clear_of_empty_tree_changes_nothing() {
    let mut pt = PrefixTree::new();
    pt.clear();
    assert!(pt.is_empty());
    assert_eq!(pt.nodes_total(), 26);
}

#[test]
fn empty_prefix_is_always_found() {
    let mut pt = PrefixTree::new();
    assert!(pt.contains_prefix(""));
    pt.insert("word").unwrap();
    assert!(pt.contains_prefix(""));
    pt.clear();
    assert!(pt.contains_prefix(""));
}

#[test]
fn empty_word_ends_at_the_root() {
    let mut pt = PrefixTree::new();
    assert_eq!(pt.insert(""), Ok(()));
    assert!(pt.contains_word(""));
    assert!(pt.contains_prefix(""));
    assert!(!pt.is_empty());
    assert_eq!(pt.nodes_total(), 26);
    assert!(!pt.contains_word("a"));
    pt.clear();
    assert!(!pt.contains_word(""));
    assert!(pt.is_empty());
}

#[test]
fn first_and_last_letter_are_accepted() {
    let mut pt = PrefixTree::new();
    assert_eq!(pt.insert("azaz"), Ok(()));
    assert!(pt.contains_word("azaz"));
    assert!(pt.contains_prefix("aza"));
    assert!(!pt.contains_prefix("zaz"));
    assert_eq!(pt.nodes_total(), 26 * 5);
}

#[test]
fn neighbours_of_the_alphabet_are_rejected() {
    let mut pt = PrefixTree::new();
    assert_eq!(pt.insert("`"), Err(InvalidCharacter { character: '`' }));
    assert_eq!(pt.insert("{"), Err(InvalidCharacter { character: '{' }));
    assert_eq!(pt.insert("a{"), Err(InvalidCharacter { character: '{' }));
    assert!(pt.is_empty());
    assert_eq!(pt.nodes_total(), 26);
}

#[test]
fn rejected_word_leaves_the_tree_as_it_was() {
    let mut pt = tree_of(&["hello"]);
    assert_eq!(pt.insert("help!"), Err(InvalidCharacter { character: '!' }));
    assert_eq!(pt.nodes_total(), 156);
    assert!(pt.contains_word("hello"));
    assert!(!pt.contains_prefix("help"));
    assert!(!pt.contains_word("help!"));
    assert_eq!(pt.insert("Hello"), Err(InvalidCharacter { character: 'H' }));
    assert_eq!(pt.insert("hello world"), Err(InvalidCharacter { character: ' ' }));
    assert_eq!(pt.nodes_total(), 156);
    assert!(!pt.contains_prefix("hello "));
}

#[test]
fn first_foreign_character_is_named() {
    let mut pt = PrefixTree::new();
    assert_eq!(pt.insert("ab1c2"), Err(InvalidCharacter { character: '1' }));
    assert_eq!(pt.insert("Zz9"), Err(InvalidCharacter { character: 'Z' }));
    assert_eq!(pt.insert("na\u{ef}ve"), Err(InvalidCharacter { character: '\u{ef}' }));
    assert_eq!(pt.insert("\u{1F600}"), Err(InvalidCharacter { character: '\u{1F600}' }));
    assert!(pt.is_empty());
}

#[test]
fn foreign_characters_are_never_found() {
    let pt = tree_of(&["hello", "world"]);
    for word in ["Hello", "HELLO", "hello!", "hel lo", "h\u{e9}llo", "hello\u{0}", "{", "`"] {
        assert!(!pt.contains_word(word));
        assert!(!pt.contains_prefix(word));
    }
}

#[test]
fn validate_accepts_letters_only() {
    assert_eq!(validate(""), Ok(()));
    assert_eq!(validate("abcdefghijklmnopqrstuvwxyz"), Ok(()));
    assert_eq!(validate("abc def"), Err(InvalidCharacter { character: ' ' }));
    assert_eq!(validate("ABC"), Err(InvalidCharacter { character: 'A' }));
    assert_eq!(validate("x_y-z"), Err(InvalidCharacter { character: '_' }));
}

#[test]
fn long_word_is_stored_letter_by_letter() {
    let word = "ab".repeat(500);
    let mut pt = PrefixTree::new();
    pt.insert(&word).unwrap();
    assert_eq!(pt.nodes_total(), 26 * 1001);
    assert!(pt.contains_word(&word));
    assert!(pt.contains_prefix(&word[..999]));
    assert!(!pt.contains_word(&word[..999]));
    assert!(!pt.contains_prefix(&word[1..]));
}

#[test]
fn all_letters_branch_from_the_root() {
    let mut pt = PrefixTree::new();
    for letter in 'a'..='z' {
        pt.insert(&letter.to_string()).unwrap();
    }
    assert_eq!(pt.nodes_total(), 26 * 27);
    for letter in 'a'..='z' {
        assert!(pt.contains_word(&letter.to_string()));
    }
    assert!(!pt.contains_prefix("aa"));
}

#[test]
fn accepts_lower_case_letters_only() {
    for letter in 'a'..='z' {
        assert!(accepts(letter));
    }
    for other in ['A', 'Z', '`', '{', '0', ' ', '\u{e9}', '\u{0}', '\u{10FFFF}'] {
        assert!(!accepts(other));
    }
}

#[test]
fn root_shows_the_nodes() {
    let mut pt = PrefixTree::new();
    assert!(pt.root() == &Node::default());

    pt.insert("ab").unwrap();
    pt.insert("z").unwrap();
    let root = pt.root();
    assert!(!root.is_word);
    for (slot, bucket) in root.buckets.iter().enumerate() {
        assert_eq!(bucket.is_some(), slot == 0 || slot == 25);
    }
    let a = root.buckets[0].as_ref().unwrap();
    assert!(!a.is_word);
    for (slot, bucket) in a.buckets.iter().enumerate() {
        assert_eq!(bucket.is_some(), slot == 1);
    }
    let ab = a.buckets[1].as_ref().unwrap();
    assert!(ab.is_word);
    assert!(ab.buckets.iter().all(|bucket| bucket.is_none()));
    let z = root.buckets[25].as_ref().unwrap();
    assert!(z.is_word);
    assert!(**z == Node { is_word: true, ..Node::default() });

    pt.clear();
    assert!(pt.root() == &Node::default());
}
