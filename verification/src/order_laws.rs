//! Properties of the orderings the library produces: sorted texts are in
//! ascending order and hold exactly the given texts, and the tree hash does
//! not depend on the order in which a walk meets the files.
use vstd::prelude::*;

use crate::text::{
    insert_sorted, lemma_text_le_transitive, lemma_text_lt_asymmetric, lemma_text_lt_total, sort_texts,
    text_lt,
};
use crate::treehash::{insert_by_rel, sort_by_rel, tree_hash_text, FileDigestV};

verus! {

broadcast use vstd::seq_lib::group_to_multiset_ensures;

/// Texts in ascending order: none sorts before an earlier one.
pub open spec fn texts_ascending(s: Seq<Seq<char>>) -> bool {
    forall|i: int, j: int| 0 <= i < j < s.len() ==> !text_lt(#[trigger] s[j], #[trigger] s[i])
}

proof fn lemma_insert_sorted_ascending(t: Seq<Seq<char>>, x: Seq<char>)
    requires
        texts_ascending(t),
    ensures
        texts_ascending(insert_sorted(t, x)),
        insert_sorted(t, x).to_multiset() == t.to_multiset().insert(x),
    decreases t.len(),
{
    if t.len() == 0 {
        assert(insert_sorted(t, x) =~= t.push(x));
    } else if !text_lt(x, t.last()) {
        let r = t.push(x);
        assert forall|i: int, j: int| 0 <= i < j < r.len() implies !text_lt(#[trigger] r[j], #[trigger] r[i]) by {
            if j == t.len() {
                assert(r[i] == t[i]);
                if i < t.len() - 1 {
                    assert(!text_lt(t[t.len() - 1], t[i]));
                } else {
                    crate::text::lemma_text_lt_irreflexive(t.last());
                }
                lemma_text_le_transitive(r[i], t.last(), x);
            }
        }
    } else {
        let r1 = insert_sorted(t.drop_last(), x);
        lemma_insert_sorted_ascending(t.drop_last(), x);
        let r = r1.push(t.last());
        assert forall|i: int, j: int| 0 <= i < j < r.len() implies !text_lt(#[trigger] r[j], #[trigger] r[i]) by {
            if j == r1.len() {
                assert(r1.to_multiset().count(r1[i]) > 0);
                if r1[i] == x {
                    lemma_text_lt_asymmetric(x, t.last());
                } else {
                    assert(t.drop_last().contains(r1[i]));
                    let k = choose|k: int| 0 <= k < t.drop_last().len() && t.drop_last()[k] == r1[i];
                    assert(t[k] == r1[i]);
                }
            } else {
                assert(r[i] == r1[i] && r[j] == r1[j]);
            }
        }
        assert(t =~= t.drop_last().push(t.last()));
        assert(r.to_multiset() =~= t.to_multiset().insert(x));
    }
}

/// Sorted texts are in ascending order and hold exactly the given texts,
/// as often as they are given (this is the order of the checksum listing).
pub proof fn sorted_texts_are_ascending_permutation(s: Seq<Seq<char>>)
    ensures
        texts_ascending(sort_texts(s)),
        sort_texts(s).to_multiset() == s.to_multiset(),
    decreases s.len(),
{
    if s.len() > 0 {
        sorted_texts_are_ascending_permutation(s.drop_last());
        lemma_insert_sorted_ascending(sort_texts(s.drop_last()), s.last());
        assert(s =~= s.drop_last().push(s.last()));
    }
}

/// Files in ascending order of path.
pub open spec fn paths_ascending(s: Seq<FileDigestV>) -> bool {
    forall|i: int, j: int| 0 <= i < j < s.len() ==> !text_lt(#[trigger] s[j].rel, #[trigger] s[i].rel)
}

/// Different files of the list have different paths.
pub open spec fn paths_identify(s: Seq<FileDigestV>) -> bool {
    forall|x: FileDigestV, y: FileDigestV| #[trigger] s.contains(x) && #[trigger] s.contains(y) && x != y ==> x.rel != y.rel
}

proof fn lemma_insert_by_rel_ascending(t: Seq<FileDigestV>, x: FileDigestV)
    requires
        paths_ascending(t),
    ensures
        paths_ascending(insert_by_rel(t, x)),
        insert_by_rel(t, x).to_multiset() == t.to_multiset().insert(x),
    decreases t.len(),
{
    if t.len() == 0 {
        assert(insert_by_rel(t, x) =~= t.push(x));
    } else if !text_lt(x.rel, t.last().rel) {
        let r = t.push(x);
        assert forall|i: int, j: int| 0 <= i < j < r.len() implies !text_lt(#[trigger] r[j].rel, #[trigger] r[i].rel) by {
            if j == t.len() {
                assert(r[i] == t[i]);
                if i < t.len() - 1 {
                    assert(!text_lt(t[t.len() - 1].rel, t[i].rel));
                } else {
                    crate::text::lemma_text_lt_irreflexive(t.last().rel);
                }
                lemma_text_le_transitive(r[i].rel, t.last().rel, x.rel);
            }
        }
    } else {
        let r1 = insert_by_rel(t.drop_last(), x);
        lemma_insert_by_rel_ascending(t.drop_last(), x);
        let r = r1.push(t.last());
        assert forall|i: int, j: int| 0 <= i < j < r.len() implies !text_lt(#[trigger] r[j].rel, #[trigger] r[i].rel) by {
            if j == r1.len() {
                assert(r1.to_multiset().count(r1[i]) > 0);
                if r1[i] == x {
                    lemma_text_lt_asymmetric(x.rel, t.last().rel);
                } else {
                    assert(t.drop_last().contains(r1[i]));
                    let k = choose|k: int| 0 <= k < t.drop_last().len() && t.drop_last()[k] == r1[i];
                    assert(t[k] == r1[i]);
                }
            } else {
                assert(r[i] == r1[i] && r[j] == r1[j]);
            }
        }
        assert(t =~= t.drop_last().push(t.last()));
        assert(r.to_multiset() =~= t.to_multiset().insert(x));
    }
}

/// The files sorted for the tree hash are in ascending order of path and
/// are exactly the given files.
pub proof fn sorted_files_are_ascending_permutation(s: Seq<FileDigestV>)
    ensures
        paths_ascending(sort_by_rel(s)),
        sort_by_rel(s).to_multiset() == s.to_multiset(),
    decreases s.len(),
{
    if s.len() > 0 {
        sorted_files_are_ascending_permutation(s.drop_last());
        lemma_insert_by_rel_ascending(sort_by_rel(s.drop_last()), s.last());
        assert(s =~= s.drop_last().push(s.last()));
    }
}

proof fn lemma_sorted_files_unique(a: Seq<FileDigestV>, b: Seq<FileDigestV>)
    requires
        paths_ascending(a),
        paths_ascending(b),
        a.to_multiset() == b.to_multiset(),
        paths_identify(a),
    ensures
        a == b,
    decreases a.len(),
{
    if a.len() == 0 {
        assert(b.to_multiset().len() == 0);
        assert(a =~= b);
    } else {
        assert(a.to_multiset().len() == a.len());
        assert(b.to_multiset().len() == b.len());
        assert(b.len() == a.len());
        assert(a.to_multiset().count(a[0]) > 0);
        assert(b.to_multiset().count(b[0]) > 0);
        assert(b.contains(a[0]));
        assert(a.contains(b[0]));
        if a[0] != b[0] {
            let k = choose|k: int| 0 <= k < b.len() && b[k] == a[0];
            let m = choose|m: int| 0 <= m < a.len() && a[m] == b[0];
            assert(a.contains(a[0]));
            assert(a[0].rel != b[0].rel);
            assert(k > 0);
            assert(m > 0);
            assert(!text_lt(b[k].rel, b[0].rel));
            assert(!text_lt(a[m].rel, a[0].rel));
            lemma_text_lt_total(a[0].rel, b[0].rel);
        }
        let a1 = a.drop_first();
        let b1 = b.drop_first();
        assert(a.remove(0) =~= a1);
        assert(b.remove(0) =~= b1);
        assert(a1.to_multiset() == a.to_multiset().remove(a[0]));
        assert(b1.to_multiset() == b.to_multiset().remove(b[0]));
        assert(paths_ascending(a1)) by {
            assert forall|i: int, j: int| 0 <= i < j < a1.len() implies !text_lt(#[trigger] a1[j].rel, #[trigger] a1[i].rel) by {
                assert(a1[i] == a[i + 1] && a1[j] == a[j + 1]);
            }
        }
        assert(paths_ascending(b1)) by {
            assert forall|i: int, j: int| 0 <= i < j < b1.len() implies !text_lt(#[trigger] b1[j].rel, #[trigger] b1[i].rel) by {
                assert(b1[i] == b[i + 1] && b1[j] == b[j + 1]);
            }
        }
        assert(paths_identify(a1)) by {
            assert forall|x: FileDigestV, y: FileDigestV|
                #[trigger] a1.contains(x) && #[trigger] a1.contains(y) && x != y implies x.rel != y.rel by {
                let i = choose|i: int| 0 <= i < a1.len() && a1[i] == x;
                let j = choose|j: int| 0 <= j < a1.len() && a1[j] == y;
                assert(a[i + 1] == x && a[j + 1] == y);
                assert(a.contains(x) && a.contains(y));
            }
        }
        lemma_sorted_files_unique(a1, b1);
        assert forall|i: int| 0 <= i < a.len() implies a[i] == b[i] by {
            if i > 0 {
                assert(a[i] == a1[i - 1] && b[i] == b1[i - 1]);
            }
        }
        assert(a =~= b);
    }
}

/// The tree hash does not depend on the order in which the walk met the
/// files: two lists holding the same files, where different files have
/// different paths, hash alike.
pub proof fn tree_hash_ignores_walk_order(es1: Seq<FileDigestV>, es2: Seq<FileDigestV>)
    requires
        es1.to_multiset() == es2.to_multiset(),
        paths_identify(es1),
    ensures
        tree_hash_text(es1) == tree_hash_text(es2),
{
    sorted_files_are_ascending_permutation(es1);
    sorted_files_are_ascending_permutation(es2);
    let a = sort_by_rel(es1);
    let b = sort_by_rel(es2);
    assert(paths_identify(a)) by {
        assert forall|x: FileDigestV, y: FileDigestV|
            #[trigger] a.contains(x) && #[trigger] a.contains(y) && x != y implies x.rel != y.rel by {
            assert(a.to_multiset().count(x) > 0);
            assert(a.to_multiset().count(y) > 0);
            assert(es1.contains(x) && es1.contains(y));
        }
    }
    lemma_sorted_files_unique(a, b);
}

} // verus!
