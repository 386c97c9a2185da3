//! What a scan reads off a path and off git's answers: the machine label of
//! a copy's path, and the branches of a `for-each-ref` listing.
use vstd::prelude::*;

use crate::discover::machine_label;
use crate::fingerprint::{
    branches_spec, dirty_spec, fingerprint_spec, number_or_zero, or_empty, untracked_spec, GitOutputsV,
};
use crate::order_laws::{sorted_texts_are_ascending_permutation, texts_ascending};
use crate::model::BranchV;
use crate::text::{contains, find_char, lines_spec, starts_with, trim};
use crate::url_laws::lemma_find_at;

verus! {

/// The machine label of a lowercased, slash-separated path:
/// - under `/development/personal` or `/development/corporate`, the copy is
///   on `dell` when the path holds `/corporate/dell/`, else on `live`;
/// - elsewhere, in this order: a path holding `/acer/` is on `acer`, one
///   holding `/dell/` on `dell`, one holding `/my drive` on `drive`, and
///   any other on `unknown`;
/// - the label is always one of `live`, `acer`, `dell`, `drive`, `unknown`.
pub proof fn machine_label_rules(p: Seq<char>)
    ensures
        (contains(p, "/development/personal"@) || contains(p, "/development/corporate"@)) && contains(
            p,
            "/corporate/dell/"@,
        ) ==> machine_label(p) == "dell"@,
        (contains(p, "/development/personal"@) || contains(p, "/development/corporate"@)) && !contains(
            p,
            "/corporate/dell/"@,
        ) ==> machine_label(p) == "live"@,
        !contains(p, "/development/personal"@) && !contains(p, "/development/corporate"@) && contains(
            p,
            "/acer/"@,
        ) ==> machine_label(p) == "acer"@,
        !contains(p, "/development/personal"@) && !contains(p, "/development/corporate"@) && !contains(
            p,
            "/acer/"@,
        ) && contains(p, "/dell/"@) ==> machine_label(p) == "dell"@,
        !contains(p, "/development/personal"@) && !contains(p, "/development/corporate"@) && !contains(
            p,
            "/acer/"@,
        ) && !contains(p, "/dell/"@) && contains(p, "/my drive"@) ==> machine_label(p) == "drive"@,
        !contains(p, "/development/personal"@) && !contains(p, "/development/corporate"@) && !contains(
            p,
            "/acer/"@,
        ) && !contains(p, "/dell/"@) && !contains(p, "/my drive"@) ==> machine_label(p) == "unknown"@,
        machine_label(p) == "live"@ || machine_label(p) == "acer"@ || machine_label(p) == "dell"@
            || machine_label(p) == "drive"@ || machine_label(p) == "unknown"@,
{
}

proof fn lemma_line_branch(ls: Seq<Seq<char>>, i: int, n: Seq<char>, t: Seq<char>)
    requires
        0 <= i < ls.len(),
        ls[i] == n + seq![' '] + t,
        forall|j: int| 0 <= j < n.len() ==> #[trigger] n[j] != ' ',
    ensures
        branches_spec(ls).contains(BranchV { name: n, tip: t }),
    decreases ls.len(),
{
    let b = BranchV { name: n, tip: t };
    let prev = branches_spec(ls.drop_last());
    if i < ls.len() - 1 {
        lemma_line_branch(ls.drop_last(), i, n, t);
        let j = choose|j: int| 0 <= j < prev.len() && prev[j] == b;
        match find_char(ls.last(), ' ') {
            Some(q) => assert(branches_spec(ls)[j] == b),
            None => {},
        }
    } else {
        let ln = ls.last();
        assert(forall|j: int| 0 <= j < n.len() ==> #[trigger] ln[j] == n[j]);
        lemma_find_at(ln, ' ', n.len() as int);
        assert(ln.take(n.len() as int) =~= n);
        assert(ln.skip(n.len() as int + 1) =~= t);
        assert(branches_spec(ls)[prev.len() as int] == b);
    }
}

/// Every `for-each-ref` line made of a branch name without a space, a
/// space, and a tip gives the fingerprint a branch of that name with that
/// tip: the name is the text before the first space, the tip the rest.
pub proof fn ref_lines_give_branches(o: GitOutputsV, i: int, n: Seq<char>, t: Seq<char>)
    requires
        0 <= i < lines_spec(or_empty(o.refs)).len(),
        lines_spec(or_empty(o.refs))[i] == n + seq![' '] + t,
        forall|j: int| 0 <= j < n.len() ==> #[trigger] n[j] != ' ',
    ensures
        fingerprint_spec(o).branches.contains(BranchV { name: n, tip: t }),
{
    lemma_line_branch(lines_spec(or_empty(o.refs)), i, n, t);
}

proof fn lemma_branch_source(ls: Seq<Seq<char>>, j: int)
    requires
        0 <= j < branches_spec(ls).len(),
    ensures
        exists|i: int|
            0 <= i < ls.len() && #[trigger] ls[i] == branches_spec(ls)[j].name + seq![' '] + branches_spec(
                ls,
            )[j].tip,
        forall|q: int|
            0 <= q < branches_spec(ls)[j].name.len() ==> #[trigger] branches_spec(ls)[j].name[q] != ' ',
    decreases ls.len(),
{
    let prev = branches_spec(ls.drop_last());
    let ln = ls.last();
    if j < prev.len() {
        lemma_branch_source(ls.drop_last(), j);
        match find_char(ln, ' ') {
            Some(q) => assert(branches_spec(ls)[j] == prev[j]),
            None => {},
        }
        let i = choose|i: int| 0 <= i < ls.drop_last().len() && #[trigger] ls.drop_last()[i] == prev[j].name + seq![' '] + prev[j].tip;
        assert(ls[i] == ls.drop_last()[i]);
    } else {
        let q = find_char(ln, ' ')->0;
        lemma_find_first(ln, ' ');
        assert(branches_spec(ls)[j] == BranchV { name: ln.take(q), tip: ln.skip(q + 1) });
        assert(ln =~= ln.take(q) + seq![' '] + ln.skip(q + 1));
        assert(ls[ls.len() - 1] == ln);
    }
}

proof fn lemma_find_first(s: Seq<char>, c: char)
    ensures
        find_char(s, c) matches Some(q) ==> 0 <= q < s.len() && s[q] == c && forall|k: int|
            0 <= k < q ==> #[trigger] s[k] != c,
    decreases s.len(),
{
    if s.len() > 0 && s[0] != c {
        lemma_find_first(s.drop_first(), c);
        if let Some(q) = find_char(s, c) {
            assert forall|k: int| 0 <= k < q implies #[trigger] s[k] != c by {
                if k > 0 {
                    assert(s[k] == s.drop_first()[k - 1]);
                }
            }
        }
    }
}

/// Every branch of a fingerprint comes from a `for-each-ref` line: the line
/// is the branch's name, a space, and its tip, and the name has no space.
pub proof fn branches_come_from_ref_lines(o: GitOutputsV, j: int)
    requires
        0 <= j < fingerprint_spec(o).branches.len(),
    ensures
        ({
            let b = fingerprint_spec(o).branches[j];
            let ls = lines_spec(or_empty(o.refs));
            &&& exists|i: int| 0 <= i < ls.len() && #[trigger] ls[i] == b.name + seq![' '] + b.tip
            &&& forall|q: int| 0 <= q < b.name.len() ==> #[trigger] b.name[q] != ' '
        }),
{
    lemma_branch_source(lines_spec(or_empty(o.refs)), j);
}

/// A status line that marks an untracked file.
pub open spec fn is_untracked_line(l: Seq<char>) -> bool {
    starts_with(l, "??"@)
}

/// A status line that marks a changed tracked file.
pub open spec fn is_changed_line(l: Seq<char>) -> bool {
    !starts_with(l, "??"@) && trim(l).len() > 0
}

proof fn lemma_status_counts(ls: Seq<Seq<char>>)
    ensures
        untracked_spec(ls) == ls.filter(|l: Seq<char>| is_untracked_line(l)).len(),
        dirty_spec(ls) == ls.filter(|l: Seq<char>| is_changed_line(l)).len(),
    decreases ls.len(),
{
    broadcast use Seq::lemma_filter_push;
    if ls.len() == 0 {
        reveal(Seq::filter);
    } else {
        lemma_status_counts(ls.drop_last());
        assert(ls =~= ls.drop_last().push(ls.last()));
    }
}

/// The fingerprint is read off git's answers: the head is the answer to
/// `rev-parse HEAD`; the root commits and all commits are the lines of their
/// answers, in ascending order; the commit count is the number of commit
/// lines; the stash count the number of stash lines; the untracked count
/// the number of status lines that start with `??` and the dirty count the
/// number of the other non-blank status lines; ahead and behind are zero
/// without an upstream, and otherwise the right and left numbers of a
/// `behind<TAB>ahead` count answer; the worktree size is left at zero.
pub proof fn fingerprint_reads_git_answers(o: GitOutputsV)
    ensures
        ({
            let fp = fingerprint_spec(o);
            let all = lines_spec(or_empty(o.all));
            let roots = lines_spec(or_empty(o.roots));
            let st = lines_spec(or_empty(o.status));
            &&& fp.head == or_empty(o.head)
            &&& texts_ascending(fp.all_commits) && fp.all_commits.to_multiset() == all.to_multiset()
            &&& texts_ascending(fp.root_commits) && fp.root_commits.to_multiset() == roots.to_multiset()
            &&& fp.commit_count == all.len() as i64
            &&& fp.stash_count == lines_spec(or_empty(o.stash)).len() as i64
            &&& fp.untracked_count == st.filter(|l: Seq<char>| is_untracked_line(l)).len() as i64
            &&& fp.dirty_count == st.filter(|l: Seq<char>| is_changed_line(l)).len() as i64
            &&& fp.worktree_size == 0
        }),
{
    sorted_texts_are_ascending_permutation(lines_spec(or_empty(o.all)));
    sorted_texts_are_ascending_permutation(lines_spec(or_empty(o.roots)));
    lemma_status_counts(lines_spec(or_empty(o.status)));
}

/// Ahead and behind: both zero when the copy has no upstream (or an empty
/// one); with an upstream and a count answer `x<TAB>y` where `x` holds no
/// tab, behind is the number `x` reads as and ahead the number `y` reads as.
pub proof fn divergence_reads_count_answer(o: GitOutputsV, x: Seq<char>, y: Seq<char>)
    ensures
        (o.upstream is None || o.upstream->0.len() == 0) ==> fingerprint_spec(o).ahead == 0
            && fingerprint_spec(o).behind == 0,
        o.upstream matches Some(u) && u.len() > 0 && o.counts == Some(x + seq!['\t'] + y) && (forall|q: int|
            0 <= q < x.len() ==> #[trigger] x[q] != '\t') ==> fingerprint_spec(o).behind == number_or_zero(trim(x))
            && fingerprint_spec(o).ahead == number_or_zero(trim(y)),
{
    let s = x + seq!['\t'] + y;
    if forall|q: int| 0 <= q < x.len() ==> #[trigger] x[q] != '\t' {
        assert(forall|q: int| 0 <= q < x.len() ==> #[trigger] s[q] == x[q]);
        lemma_find_at(s, '\t', x.len() as int);
        assert(s.take(x.len() as int) =~= x);
        assert(s.skip(x.len() as int + 1) =~= y);
    }
}

} // verus!
