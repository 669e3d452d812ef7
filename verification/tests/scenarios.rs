use pt::PrefixTree;

#[test]
fn hello_world() {
    let mut pt = PrefixTree::new();

    let hello = "hello";
    let world = "world";

    pt.insert(hello).unwrap();
    pt.insert(world).unwrap();

    assert_eq!(pt.contains_word(hello), true);
    assert_eq!(pt.contains_word(world), true);
    assert_eq!(pt.contains_word("hel"), false);
    assert_eq!(pt.contains_word("orl"), false);

    assert_eq!(pt.contains_prefix("hel"), true);
    assert_eq!(pt.contains_prefix("wor"), true);
    assert_eq!(pt.contains_prefix("elh"), false);
    assert_eq!(pt.contains_prefix("rol"), false);

    pt.clear();

    assert_eq!(pt.contains_word(hello), false);
    assert_eq!(pt.contains_word(world), false);
    assert_eq!(pt.contains_prefix("hel"), false);
    assert_eq!(pt.contains_prefix("wor"), false);
    assert_eq!(pt.is_empty(), true);
}

#[test]
fn sentence() {
    let mut pt = PrefixTree::new();

    let sentence = "the quick brown fox jumps over the lazy dog";

    for word in sentence.split_whitespace() {
        pt.insert(word).unwrap();

        assert_eq!(pt.contains_word(word), true);
        assert_eq!(pt.contains_prefix(word), true);
    }
    assert_eq!(pt.nodes_total(), 858);
}

#[test]
fn random_words() {
    let mut pt = PrefixTree::new();

    let words = vec!["afopsiv", "coxpz", "pqeacxnvzm", "zm", "acxk"];

    for word in words {
        pt.insert(word).unwrap();

        assert_eq!(pt.contains_word(word), true);
        assert_eq!(pt.contains_prefix(word), true);

        for idx in 1..word.len() {
            assert_eq!(pt.contains_prefix(&word[..idx]), true);
            assert_eq!(pt.contains_prefix(&word[idx..]), false);
        }
    }
    assert_eq!(pt.nodes_total(), 728);

    pt.clear();
    assert_eq!(pt.is_empty(), true);
}

#[test]
fn shared_prefixes_are_charged_once() {
    let mut pt = PrefixTree::new();

    pt.insert("hello").unwrap();
    assert_eq!(pt.nodes_total(), 156);

    pt.insert("hell").unwrap();
    assert_eq!(pt.nodes_total(), 156);

    pt.insert("hellicopter").unwrap();
    assert_eq!(pt.nodes_total(), 338);
}

#[test]
fn bye_comes_and_goes() {
    let mut pt = PrefixTree::new();
    let word = "bye";

    assert_eq!(pt.is_empty(), true);

    pt.insert(word).unwrap();
    assert_eq!(pt.is_empty(), false);
    assert_eq!(pt.contains_word(word), true);

    pt.clear();
    assert_eq!(pt.contains_word(word), false);
    assert_eq!(pt.is_empty(), true);
}

#[test]
fn prefix_is_told_from_infix() {
    let mut pt = PrefixTree::new();

    pt.insert("hello").unwrap();
    assert_eq!(pt.contains_prefix("he"), true);
    assert_eq!(pt.contains_prefix("ll"), false);
}
