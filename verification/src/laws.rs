//! Properties that hold across the functions of the library: no commit is
//! ever lost by a decision, every copy of a group is accounted for, and the
//! canonical copy is the richest.
use vstd::prelude::*;

use crate::group::{build_spec, find_group, group_key_spec, join_group, seed_group};
use crate::fingerprint::{compute_calls, fingerprint_spec, outputs_of};
use crate::gitx::{CallV, GitErrorV};
use crate::text::{to_slash, trim_end, trim_start};
use crate::discover::{dir_of_spec, source_disc_spec};
use crate::model::{default_fingerprint_v, score_spec, CopyV, FingerprintV, GroupV, PlanV, StrategyKind};
use crate::safety::{
    copy_violations, decision_violations, is_quarantined, plan_violations, reachability_spec,
    violations_of, ViolationV,
};
use crate::strategy::{
    best_index, canonical_of, decide_spec, lineages_differ, snapshot_spec, lemma_best_index_bound, lemma_best_is_richest,
    lemma_best_rank_among_ties, machine_rank_spec, needs_quarantine, quarantine_spec,
    redundant_spec, union_spec, unreachable_spec,
};

verus! {

proof fn lemma_quarantine_prefix(sep: char, g: GroupV, canon: CopyV, n: int, m: int, i: int)
    requires
        0 <= m <= n,
        0 <= i < quarantine_spec(sep, g, canon, m).len(),
    ensures
        i < quarantine_spec(sep, g, canon, n).len(),
        quarantine_spec(sep, g, canon, n)[i] == quarantine_spec(sep, g, canon, m)[i],
    decreases n,
{
    if n > m {
        lemma_quarantine_prefix(sep, g, canon, n - 1, m, i);
    }
}

proof fn lemma_quarantine_covers(sep: char, g: GroupV, canon: CopyV, n: int, k: int)
    requires
        0 <= k < n <= g.copies.len(),
        g.copies[k].path != canon.path,
        needs_quarantine(unreachable_spec(canon.fp.all_commits, g.copies[k].fp.all_commits), g.copies[k]),
    ensures
        exists|i: int|
            0 <= i < quarantine_spec(sep, g, canon, n).len() && (#[trigger] quarantine_spec(
                sep,
                g,
                canon,
                n,
            )[i]).copy.path == g.copies[k].path,
{
    let q = quarantine_spec(sep, g, canon, k + 1);
    let i = q.len() - 1;
    assert(q[i].copy == g.copies[k]);
    lemma_quarantine_prefix(sep, g, canon, n, k + 1, i);
    assert(quarantine_spec(sep, g, canon, n)[i].copy.path == g.copies[k].path);
}

proof fn lemma_snapshot_prefix(sep: char, g: GroupV, canon: CopyV, n: int, m: int, i: int)
    requires
        0 <= m <= n,
        0 <= i < snapshot_spec(sep, g, canon, m).len(),
    ensures
        i < snapshot_spec(sep, g, canon, n).len(),
        snapshot_spec(sep, g, canon, n)[i] == snapshot_spec(sep, g, canon, m)[i],
    decreases n,
{
    if n > m {
        lemma_snapshot_prefix(sep, g, canon, n - 1, m, i);
    }
}

proof fn lemma_snapshot_covers(sep: char, g: GroupV, canon: CopyV, n: int, k: int)
    requires
        0 <= k < n <= g.copies.len(),
        g.copies[k].path != canon.path,
    ensures
        exists|i: int|
            0 <= i < snapshot_spec(sep, g, canon, n).len() && (#[trigger] snapshot_spec(
                sep,
                g,
                canon,
                n,
            )[i]).copy.path == g.copies[k].path,
{
    let q = snapshot_spec(sep, g, canon, k + 1);
    let i = q.len() - 1;
    assert(q[i].copy == g.copies[k]);
    lemma_snapshot_prefix(sep, g, canon, n, k + 1, i);
    assert(snapshot_spec(sep, g, canon, n)[i].copy.path == g.copies[k].path);
}

proof fn lemma_copy_safe(sep: char, g: GroupV, dest_root: Seq<char>, k: int)
    requires
        0 <= k < g.copies.len(),
    ensures
        copy_violations(decide_spec(sep, g, dest_root), g.copies[k]) == Seq::<ViolationV>::empty(),
{
    let d = decide_spec(sep, g, dest_root);
    let c = g.copies[k];
    let canon = canonical_of(g.copies);
    if c.path != canon.path && g.has_remote {
        let missing = unreachable_spec(canon.fp.all_commits, c.fp.all_commits);
        if needs_quarantine(missing, c) {
            lemma_quarantine_covers(sep, g, canon, g.copies.len() as int, k);
            let i = choose|i: int|
                0 <= i < quarantine_spec(sep, g, canon, g.copies.len() as int).len() && (#[trigger] quarantine_spec(
                    sep,
                    g,
                    canon,
                    g.copies.len() as int,
                )[i]).copy.path == c.path;
            assert(d.quarantine[i].copy.path == c.path);
            assert(is_quarantined(d, c.path));
        } else {
            assert(violations_of(d.group.repo_name, c.machine, missing) =~= Seq::<ViolationV>::empty());
        }
    } else if c.path != canon.path && d.strategy == StrategyKind::C {
        lemma_snapshot_covers(sep, g, canon, g.copies.len() as int, k);
        let i = choose|i: int|
            0 <= i < snapshot_spec(sep, g, canon, g.copies.len() as int).len() && (#[trigger] snapshot_spec(
                sep,
                g,
                canon,
                g.copies.len() as int,
            )[i]).copy.path == c.path;
        assert(d.quarantine[i].copy.path == c.path);
        assert(is_quarantined(d, c.path));
    }
}

proof fn lemma_decision_safe_prefix(sep: char, g: GroupV, dest_root: Seq<char>, n: int)
    requires
        0 <= n <= g.copies.len(),
    ensures
        decision_violations(decide_spec(sep, g, dest_root), n) == Seq::<ViolationV>::empty(),
    decreases n,
{
    if n > 0 {
        lemma_decision_safe_prefix(sep, g, dest_root, n - 1);
        lemma_copy_safe(sep, g, dest_root, n - 1);
        assert(decision_violations(decide_spec(sep, g, dest_root), n) =~= Seq::<ViolationV>::empty());
    }
}

/// No decision loses a commit: for every group and destination, the
/// reachability proof of the decision that `decide` makes finds no
/// violation. A copy that is not canonical is either quarantined, folded in
/// as a union remote (Strategy B), or redundant, and a redundant copy has no
/// commit that the canonical copy lacks.
pub proof fn decided_group_loses_no_commit(sep: char, g: GroupV, dest_root: Seq<char>)
    ensures
        decision_violations(decide_spec(sep, g, dest_root), g.copies.len() as int)
            == Seq::<ViolationV>::empty(),
{
    lemma_decision_safe_prefix(sep, g, dest_root, g.copies.len() as int);
}

/// A plan whose every decision `decide` made passes the pre-apply
/// reachability gate: `reachability_proof` finds no violation in it.
pub proof fn decided_plan_loses_no_commit(sep: char, groups: Seq<GroupV>, dest_root: Seq<char>, p: PlanV)
    requires
        p.decisions.len() == groups.len(),
        forall|i: int|
            0 <= i < groups.len() ==> #[trigger] p.decisions[i] == decide_spec(sep, groups[i], dest_root),
    ensures
        reachability_spec(p) == Seq::<ViolationV>::empty(),
{
    assert forall|m: int| 0 <= m <= p.decisions.len() implies plan_violations(p.decisions, m)
        == Seq::<ViolationV>::empty() by {
        lemma_plan_prefix(sep, groups, dest_root, p, m);
    }
}

proof fn lemma_plan_prefix(sep: char, groups: Seq<GroupV>, dest_root: Seq<char>, p: PlanV, m: int)
    requires
        p.decisions.len() == groups.len(),
        forall|i: int|
            0 <= i < groups.len() ==> #[trigger] p.decisions[i] == decide_spec(sep, groups[i], dest_root),
        0 <= m <= p.decisions.len(),
    ensures
        plan_violations(p.decisions, m) == Seq::<ViolationV>::empty(),
    decreases m,
{
    if m > 0 {
        lemma_plan_prefix(sep, groups, dest_root, p, m - 1);
        assert(p.decisions[m - 1] == decide_spec(sep, groups[m - 1], dest_root));
        decided_group_loses_no_commit(sep, groups[m - 1], dest_root);
        assert(plan_violations(p.decisions, m) =~= Seq::<ViolationV>::empty());
    }
}

/// How many of the first `n` copies are not at the canonical path.
pub open spec fn non_canonical_count(copies: Seq<CopyV>, canonical_path: Seq<char>, n: int) -> int
    decreases n,
{
    if n <= 0 {
        0
    } else {
        non_canonical_count(copies, canonical_path, n - 1) + if copies[n - 1].path
            != canonical_path {
            1int
        } else {
            0int
        }
    }
}

proof fn lemma_accounts_prefix(sep: char, g: GroupV, canon: CopyV, n: int)
    requires
        0 <= n <= g.copies.len(),
    ensures
        quarantine_spec(sep, g, canon, n).len() + redundant_spec(g, canon, n).len()
            == non_canonical_count(g.copies, canon.path, n),
        union_spec(sep, g, canon, n).len() == non_canonical_count(g.copies, canon.path, n),
        snapshot_spec(sep, g, canon, n).len() == non_canonical_count(g.copies, canon.path, n),
    decreases n,
{
    if n > 0 {
        lemma_accounts_prefix(sep, g, canon, n - 1);
    }
}

/// Every copy of a group is accounted for exactly once: with a remote
/// (Strategy A) each non-canonical copy is either quarantined or redundant;
/// without one, when the copies share lineage (Strategy B) each
/// non-canonical copy becomes a union remote, and when they do not
/// (Strategy C) each is kept verbatim as a snapshot.
pub proof fn decided_group_accounts_for_every_copy(sep: char, g: GroupV, dest_root: Seq<char>)
    ensures
        ({
            let d = decide_spec(sep, g, dest_root);
            let others = non_canonical_count(g.copies, d.canonical.path, g.copies.len() as int);
            &&& g.has_remote ==> d.strategy == StrategyKind::A && d.quarantine.len()
                + d.redundant.len() == others && d.union_remotes.len() == 0
            &&& !g.has_remote && !lineages_differ(g.copies) ==> d.strategy == StrategyKind::B
                && d.union_remotes.len() == others && d.quarantine.len() == 0 && d.redundant.len() == 0
            &&& !g.has_remote && lineages_differ(g.copies) ==> d.strategy == StrategyKind::C
                && d.quarantine.len() == others && d.union_remotes.len() == 0 && d.redundant.len() == 0
        }),
{
    lemma_accounts_prefix(sep, g, canonical_of(g.copies), g.copies.len() as int);
}

/// Untracked files outrank stashes: of two fingerprints that differ only in
/// their untracked and stash counts, one with untracked files scores higher
/// than one without, unless the other has more than ten extra stashes.
pub proof fn untracked_outranks_stashes(a: FingerprintV, b: FingerprintV)
    requires
        a.ahead == b.ahead,
        a.dirty_count == b.dirty_count,
        a.last_commit == b.last_commit,
        a.untracked_count > 0,
        b.untracked_count == 0,
        b.stash_count - a.stash_count <= 10,
    ensures
        score_spec(a) > score_spec(b),
{
}

/// A copy whose every git query fails, or is answered with nothing, gets
/// the default fingerprint: each failure counts as empty output.
pub proof fn silent_git_gives_default_fingerprint(calls: Seq<CallV>, dir: Seq<char>)
    requires
        compute_calls(calls, dir),
        forall|k: int|
            0 <= k < calls.len() ==> (#[trigger] calls[k].result is Err || calls[k].result == Ok::<
                Seq<char>,
                GitErrorV,
            >(Seq::empty())),
    ensures
        fingerprint_spec(outputs_of(calls)) == default_fingerprint_v(),
{
    assert(trim_start(Seq::<char>::empty()) =~= Seq::<char>::empty());
    assert(trim_end(Seq::<char>::empty()) =~= Seq::<char>::empty());
}

/// Two paths with the same parent directory (after separators become `/`)
/// get the same source discriminator.
pub proof fn same_parent_same_source_disc(sep: char, p: Seq<char>, q: Seq<char>)
    requires
        dir_of_spec(to_slash(sep, p)) == dir_of_spec(to_slash(sep, q)),
    ensures
        source_disc_spec(sep, p) == source_disc_spec(sep, q),
{
}

/// The canonical copy is one of the copies, no copy scores higher, and
/// among the copies with its score none has a better machine rank.
pub proof fn canonical_is_richest(copies: Seq<CopyV>)
    requires
        copies.len() > 0,
    ensures
        0 <= best_index(copies, copies.len() as int) < copies.len(),
        canonical_of(copies) == copies[best_index(copies, copies.len() as int)],
        forall|k: int|
            0 <= k < copies.len() ==> score_spec(#[trigger] copies[k].fp) <= score_spec(
                canonical_of(copies).fp,
            ),
        forall|k: int|
            0 <= k < copies.len() && score_spec(#[trigger] copies[k].fp) == score_spec(
                canonical_of(copies).fp,
            ) ==> machine_rank_spec(canonical_of(copies).machine) <= machine_rank_spec(
                copies[k].machine,
            ),
{
    lemma_best_index_bound(copies, copies.len() as int);
    lemma_best_is_richest(copies, copies.len() as int);
    lemma_best_rank_among_ties(copies, copies.len() as int);
}

} // verus!

verus! {

/// The copies among the first `n` whose grouping key is `key`, in order.
pub open spec fn copies_with_key(copies: Seq<CopyV>, key: Seq<char>, n: int) -> Seq<CopyV>
    decreases n,
{
    if n <= 0 {
        Seq::empty()
    } else {
        let p = copies_with_key(copies, key, n - 1);
        if group_key_spec(copies[n - 1]) == key {
            p.push(copies[n - 1])
        } else {
            p
        }
    }
}

/// The index of the first copy that has a remote, or -1.
pub open spec fn first_remote_index(s: Seq<CopyV>) -> int
    decreases s.len(),
{
    if s.len() == 0 {
        -1
    } else {
        let p = first_remote_index(s.drop_last());
        if p >= 0 {
            p
        } else if s.last().remote_url.len() > 0 {
            s.len() - 1
        } else {
            -1
        }
    }
}

/// A group's identity: taken from its first remote-bearing copy when it has
/// one, else from its first copy, and `has_remote` says which.
pub open spec fn identity_ok(g: GroupV) -> bool {
    let f = first_remote_index(g.copies);
    &&& g.copies.len() > 0
    &&& if f >= 0 {
        &&& g.has_remote
        &&& g.remote_url == g.copies[f].remote_url
        &&& g.owner == g.copies[f].owner
        &&& g.repo_name == g.copies[f].repo_name
    } else {
        &&& !g.has_remote
        &&& g.remote_url == g.copies[0].remote_url
        &&& g.owner == g.copies[0].owner
        &&& g.repo_name == g.copies[0].repo_name
    }
}

/// The invariant of grouping after `n` copies.
pub open spec fn grouping_ok(copies: Seq<CopyV>, gs: Seq<GroupV>, n: int) -> bool {
    &&& forall|i: int, j: int| 0 <= i < j < gs.len() ==> (#[trigger] gs[i]).key != (#[trigger] gs[j]).key
    &&& forall|i: int| 0 <= i < gs.len() ==> (#[trigger] gs[i]).copies == copies_with_key(copies, gs[i].key, n)
    &&& forall|i: int| 0 <= i < gs.len() ==> identity_ok(#[trigger] gs[i])
    &&& forall|k: int| 0 <= k < n ==> (#[trigger] find_group(gs, group_key_spec(copies[k]))) is Some
}

proof fn lemma_first_remote_push(s: Seq<CopyV>, c: CopyV)
    ensures
        first_remote_index(s.push(c)) == if first_remote_index(s) >= 0 {
            first_remote_index(s)
        } else if c.remote_url.len() > 0 {
            s.len() as int
        } else {
            -1
        },
{
    assert(s.push(c).drop_last() =~= s);
}

proof fn lemma_first_remote_bound(s: Seq<CopyV>)
    ensures
        -1 <= first_remote_index(s) < s.len(),
        first_remote_index(s) >= 0 ==> s[first_remote_index(s)].remote_url.len() > 0,
    decreases s.len(),
{
    if s.len() > 0 {
        lemma_first_remote_bound(s.drop_last());
    }
}

proof fn lemma_find_group_some_key(gs: Seq<GroupV>, key: Seq<char>)
    ensures
        find_group(gs, key) matches Some(i) ==> 0 <= i < gs.len() && gs[i].key == key,
    decreases gs.len(),
{
    if gs.len() > 0 {
        lemma_find_group_some_key(gs.drop_last(), key);
    }
}

proof fn lemma_find_group_by_key(gs: Seq<GroupV>, key: Seq<char>, i: int)
    requires
        0 <= i < gs.len(),
        gs[i].key == key,
    ensures
        find_group(gs, key) is Some,
    decreases gs.len(),
{
    if i < gs.len() - 1 {
        lemma_find_group_by_key(gs.drop_last(), key, i);
    }
}

proof fn lemma_find_group_keys(gs: Seq<GroupV>, key: Seq<char>)
    ensures
        find_group(gs, key) is None ==> forall|i: int| 0 <= i < gs.len() ==> gs[i].key != key,
{
    if find_group(gs, key) is None {
        assert forall|i: int| 0 <= i < gs.len() implies gs[i].key != key by {
            if gs[i].key == key {
                lemma_find_group_by_key(gs, key, i);
            }
        }
    }
}

proof fn lemma_copies_with_key_empty(copies: Seq<CopyV>, key: Seq<char>, n: int)
    requires
        forall|k: int| 0 <= k < n ==> group_key_spec(#[trigger] copies[k]) != key,
    ensures
        copies_with_key(copies, key, n) == Seq::<CopyV>::empty(),
    decreases n,
{
    if n > 0 {
        lemma_copies_with_key_empty(copies, key, n - 1);
    }
}

proof fn lemma_build_ok(copies: Seq<CopyV>, n: int)
    requires
        0 <= n <= copies.len(),
    ensures
        grouping_ok(copies, build_spec(copies, n), n),
    decreases n,
{
    if n > 0 {
        lemma_build_ok(copies, n - 1);
        let gs = build_spec(copies, n - 1);
        let c = copies[n - 1];
        let key = group_key_spec(c);
        let ngs = build_spec(copies, n);
        lemma_find_group_some_key(gs, key);
        lemma_find_group_keys(gs, key);
        match find_group(gs, key) {
            Some(i) => {
                let g = gs[i];
                let ng = join_group(g, c);
                assert(ngs == gs.update(i, ng));
                lemma_first_remote_push(g.copies, c);
                lemma_first_remote_bound(g.copies);
                assert(identity_ok(ng));
                assert forall|j: int| 0 <= j < ngs.len() implies (#[trigger] ngs[j]).copies
                    == copies_with_key(copies, ngs[j].key, n) by {
                    if j != i {
                        assert(gs[j].key != key);
                    }
                }
                assert forall|k: int| 0 <= k < n implies (#[trigger] find_group(
                    ngs,
                    group_key_spec(copies[k]),
                )) is Some by {
                    if k < n - 1 {
                        let kk = group_key_spec(copies[k]);
                        lemma_find_group_some_key(gs, kk);
                        let j = find_group(gs, kk)->0;
                        assert(ngs[j].key == kk);
                        lemma_find_group_by_key(ngs, kk, j);
                    } else {
                        lemma_find_group_by_key(ngs, key, i);
                    }
                }
            },
            None => {
                let ng = join_group(seed_group(key, c), c);
                assert(ngs == gs.push(ng));
                assert forall|k: int| 0 <= k < n - 1 implies group_key_spec(#[trigger] copies[k]) != key by {
                    let kk = group_key_spec(copies[k]);
                    assert(find_group(gs, kk) is Some);
                    lemma_find_group_some_key(gs, kk);
                }
                lemma_copies_with_key_empty(copies, key, n - 1);
                assert(ng.copies =~= seq![c]);
                assert(copies_with_key(copies, key, n) =~= seq![c]);
                lemma_first_remote_push(Seq::<CopyV>::empty(), c);
                assert(Seq::<CopyV>::empty().push(c) =~= seq![c]);
                assert(identity_ok(ng));
                assert forall|j: int| 0 <= j < ngs.len() implies (#[trigger] ngs[j]).copies
                    == copies_with_key(copies, ngs[j].key, n) by {
                    if j < gs.len() {
                        assert(gs[j].key != key);
                    }
                }
                assert forall|k: int| 0 <= k < n implies (#[trigger] find_group(
                    ngs,
                    group_key_spec(copies[k]),
                )) is Some by {
                    if k < n - 1 {
                        let kk = group_key_spec(copies[k]);
                        lemma_find_group_some_key(gs, kk);
                        let j = find_group(gs, kk)->0;
                        assert(ngs[j].key == kk);
                        lemma_find_group_by_key(ngs, kk, j);
                    } else {
                        lemma_find_group_by_key(ngs, key, gs.len() as int);
                    }
                }
            },
        }
    }
}

/// Grouping partitions the copies by their key: group keys are distinct,
/// each group holds exactly the copies with its key in input order, every
/// copy lands in the group of its key, and each group takes its identity
/// (owner, repo, remote) from its first remote-bearing copy, or from its
/// first copy when none has a remote.
pub proof fn grouping_partitions_copies(copies: Seq<CopyV>)
    ensures
        ({
            let gs = build_spec(copies, copies.len() as int);
            &&& forall|i: int, j: int| 0 <= i < j < gs.len() ==> (#[trigger] gs[i]).key != (#[trigger] gs[j]).key
            &&& forall|i: int| 0 <= i < gs.len() ==> (#[trigger] gs[i]).copies == copies_with_key(
                copies,
                gs[i].key,
                copies.len() as int,
            )
            &&& forall|i: int| 0 <= i < gs.len() ==> identity_ok(#[trigger] gs[i])
            &&& forall|k: int| 0 <= k < copies.len() ==> exists|i: int| 0 <= i < gs.len() && (#[trigger] gs[i]).key == group_key_spec(#[trigger] copies[k])
        }),
{
    let n = copies.len() as int;
    lemma_build_ok(copies, n);
    let gs = build_spec(copies, n);
    assert forall|k: int| 0 <= k < n implies exists|i: int| 0 <= i < gs.len() && (#[trigger] gs[i]).key == group_key_spec(#[trigger] copies[k]) by {
        assert(find_group(gs, group_key_spec(copies[k])) is Some);
        lemma_find_group_some_key(gs, group_key_spec(copies[k]));
        let i = find_group(gs, group_key_spec(copies[k]))->0;
        assert(gs[i].key == group_key_spec(copies[k]));
    }
}

} // verus!
