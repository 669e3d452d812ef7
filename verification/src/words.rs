//! The mathematical contents of a tree: a set of words, and the prefixes
//! that the tree holds a node for.

use vstd::prelude::*;

verus! {

/// The prefixes of one word, the empty one and the word itself among them.
pub open spec fn word_prefixes(w: Seq<char>) -> Set<Seq<char>> {
    Set::new(|p: Seq<char>| p.is_prefix_of(w))
}

/// The prefixes of all the words of a set, together with the empty prefix.
///
/// A tree that stores `words` has one node for each of them; the empty
/// prefix is its root.
pub open spec fn prefixes(words: Set<Seq<char>>) -> Set<Seq<char>> {
    Set::new(
        |p: Seq<char>|
            p.len() == 0 || exists|w: Seq<char>| #[trigger] words.contains(w) && p.is_prefix_of(w),
    )
}

/// The prefixes of `w` of length at most `k`.
spec fn short_prefixes(w: Seq<char>, k: int) -> Set<Seq<char>> {
    Set::new(|p: Seq<char>| p.is_prefix_of(w) && p.len() <= k)
}

/// With no word stored, the empty prefix is the only one.
pub proof fn lemma_prefixes_of_nothing()
    ensures
        prefixes(Set::empty()) == set![Seq::<char>::empty()],
        prefixes(Set::empty()).finite(),
        prefixes(Set::empty()).len() == 1,
{
    assert(prefixes(Set::empty()) =~= set![Seq::<char>::empty()]) by {
        assert(forall|p: Seq<char>| p.len() == 0 ==> p =~= Seq::<char>::empty());
    }
}

/// One more word brings its own prefixes and no others.
pub proof fn lemma_prefixes_insert(words: Set<Seq<char>>, w: Seq<char>)
    ensures
        prefixes(words.insert(w)) == prefixes(words) + word_prefixes(w),
{
    let grown = prefixes(words.insert(w));
    let joined = prefixes(words) + word_prefixes(w);
    assert forall|p: Seq<char>| grown.contains(p) implies joined.contains(p) by {
        if p.len() != 0 {
            let v = choose|v: Seq<char>| #[trigger]
                words.insert(w).contains(v) && p.is_prefix_of(v);
            assert(v == w || words.contains(v));
        }
    }
    assert forall|p: Seq<char>| joined.contains(p) implies grown.contains(p) by {
        if p.len() != 0 && prefixes(words).contains(p) {
            let v = choose|v: Seq<char>| #[trigger] words.contains(v) && p.is_prefix_of(v);
            assert(words.insert(w).contains(v));
        } else {
            assert(words.insert(w).contains(w));
        }
    }
}

/// Adds the prefixes of `w` to `s` one length at a time, and counts those
/// that `s` did not hold: `s` holds the prefixes of `w` up to length `d`.
proof fn lemma_add_short_prefixes(s: Set<Seq<char>>, w: Seq<char>, d: int, k: int)
    requires
        s.finite(),
        0 <= d <= w.len(),
        0 <= k <= w.len(),
        forall|j: int| 0 <= j <= w.len() ==> (s.contains(#[trigger] w.take(j)) <==> j <= d),
    ensures
        (s + short_prefixes(w, k)).finite(),
        (s + short_prefixes(w, k)).len() == s.len() + (if k > d {
            k - d
        } else {
            0
        }),
    decreases k,
{
    assert forall|p: Seq<char>| p.is_prefix_of(w) && p.len() == k implies p == w.take(k) by {
        assert(p =~= w.take(k));
    }
    if k == 0 {
        assert(s + short_prefixes(w, 0) =~= s);
    } else {
        lemma_add_short_prefixes(s, w, d, k - 1);
        assert(w.take(k).is_prefix_of(w));
        assert(s + short_prefixes(w, k) =~= (s + short_prefixes(w, k - 1)).insert(w.take(k)));
    }
}

/// A set that holds the prefixes of `w` up to length `d`, and no longer
/// one, grows by the other `w.len() - d` when all of them are added.
pub(crate) proof fn lemma_add_word_prefixes(s: Set<Seq<char>>, w: Seq<char>, d: int)
    requires
        s.finite(),
        0 <= d <= w.len(),
        forall|j: int| 0 <= j <= w.len() ==> (s.contains(#[trigger] w.take(j)) <==> j <= d),
    ensures
        (s + word_prefixes(w)).finite(),
        (s + word_prefixes(w)).len() == s.len() + w.len() - d,
{
    lemma_add_short_prefixes(s, w, d, w.len() as int);
    assert(short_prefixes(w, w.len() as int) =~= word_prefixes(w));
}

/// A prefix of a prefix of a word is a prefix of that word.
pub proof fn lemma_prefixes_closed(words: Set<Seq<char>>, p: Seq<char>, q: Seq<char>)
    requires
        prefixes(words).contains(q),
        p.is_prefix_of(q),
    ensures
        prefixes(words).contains(p),
{
    if p.len() != 0 {
        let v = choose|v: Seq<char>| #[trigger] words.contains(v) && q.is_prefix_of(v);
        assert(p.is_prefix_of(v)) by {
            assert(p =~= q.subrange(0, p.len() as int).subrange(0, p.len() as int));
            assert(p =~= v.subrange(0, p.len() as int));
        }
    }
}

/// Length of the longest prefix of `w` that a tree with the words `words`
/// already holds a node for.
pub open spec fn shared_len(words: Set<Seq<char>>, w: Seq<char>) -> nat
    decreases w.len(),
{
    if w.len() == 0 || prefixes(words).contains(w) {
        w.len()
    } else {
        shared_len(words, w.drop_last())
    }
}

/// The prefixes of `w` that are prefixes of `words` are those of length up
/// to `shared_len(words, w)`.
pub proof fn lemma_shared_len(words: Set<Seq<char>>, w: Seq<char>, j: int)
    requires
        0 <= j <= w.len(),
    ensures
        shared_len(words, w) <= w.len(),
        prefixes(words).contains(w.take(j)) <==> j <= shared_len(words, w),
    decreases w.len(),
{
    if w.len() == 0 {
    } else if prefixes(words).contains(w) {
        assert(w.take(j).is_prefix_of(w));
        lemma_prefixes_closed(words, w.take(j), w);
    } else if j < w.len() {
        lemma_shared_len(words, w.drop_last(), j);
        assert(w.drop_last().take(j) =~= w.take(j));
    } else {
        lemma_shared_len(words, w.drop_last(), 0);
        assert(w.take(j) =~= w);
    }
}

/// A word of `n` letters has `n + 1` prefixes.
pub proof fn lemma_word_prefixes_finite(w: Seq<char>)
    ensures
        word_prefixes(w).finite(),
        word_prefixes(w).len() == w.len() + 1,
{
    let s = set![Seq::<char>::empty()];
    assert forall|j: int| 0 <= j <= w.len() implies (s.contains(#[trigger] w.take(j)) <==> j
        <= 0) by {
        if j == 0 {
            assert(w.take(0) =~= Seq::<char>::empty());
        } else {
            assert(w.take(j).len() != Seq::<char>::empty().len());
        }
    }
    lemma_add_word_prefixes(s, w, 0);
    assert(s + word_prefixes(w) =~= word_prefixes(w));
}

/// Finitely many words have finitely many prefixes.
pub proof fn lemma_prefixes_finite(words: Set<Seq<char>>)
    requires
        words.finite(),
    ensures
        prefixes(words).finite(),
    decreases words.len(),
{
    if words.len() == 0 {
        assert(words =~= Set::empty());
        lemma_prefixes_of_nothing();
    } else {
        let w = words.choose();
        let others = words.remove(w);
        assert(words =~= others.insert(w));
        lemma_prefixes_finite(others);
        lemma_prefixes_insert(others, w);
        lemma_word_prefixes_finite(w);
    }
}

/// Storing `w` in a tree with the words `words` adds one node for each
/// letter of `w` beyond the longest prefix that the tree already holds.
pub proof fn lemma_insert_count(words: Set<Seq<char>>, w: Seq<char>)
    requires
        words.finite(),
    ensures
        prefixes(words).finite(),
        prefixes(words.insert(w)).finite(),
        prefixes(words.insert(w)).len() == prefixes(words).len() + w.len() - shared_len(words, w),
        prefixes(words).len() <= prefixes(words.insert(w)).len() <= prefixes(words).len()
            + w.len(),
{
    lemma_prefixes_finite(words);
    lemma_prefixes_insert(words, w);
    assert forall|j: int| 0 <= j <= w.len() implies (prefixes(words).contains(
        #[trigger] w.take(j),
    ) <==> j <= shared_len(words, w)) by {
        lemma_shared_len(words, w, j);
    }
    lemma_shared_len(words, w, 0);
    lemma_add_word_prefixes(prefixes(words), w, shared_len(words, w) as int);
}

} // verus!
