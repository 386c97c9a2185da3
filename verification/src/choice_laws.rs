//! What the choices of a plan guarantee, in terms of the copies themselves:
//! machine priority among equally rich copies, local changes that are never
//! dropped, redundant copies that have nothing to lose, and lost commits that
//! the reachability proof always reports.
use vstd::prelude::*;

use crate::model::{score_spec, CopyV, DecisionV, GroupV, PlanV, StrategyKind};
use crate::safety::{
    copy_violations, decision_violations, is_quarantined, plan_violations, reachability_spec, ViolationV,
};
use crate::strategy::{
    lineages_differ, machine_count, path_join_spec, union_item_spec, union_spec,
    canonical_of, decide_spec, lemma_best_index_bound, lemma_best_rank_among_ties, machine_rank_spec,
    needs_quarantine, quarantine_spec, redundant_spec, unreachable_spec,
};

verus! {

/// Machine priority: live before acer before dell before drive, and these
/// four before any other machine.
pub proof fn machine_priority_order(m: Seq<char>)
    ensures
        machine_rank_spec("live"@) < machine_rank_spec("acer"@),
        machine_rank_spec("acer"@) < machine_rank_spec("dell"@),
        machine_rank_spec("dell"@) < machine_rank_spec("drive"@),
        m != "live"@ && m != "acer"@ && m != "dell"@ && m != "drive"@ ==> machine_rank_spec("drive"@)
            < machine_rank_spec(m),
{
    reveal_strlit("live");
    reveal_strlit("acer");
    reveal_strlit("dell");
    reveal_strlit("drive");
    assert("acer"@[0] != "live"@[0]);
    assert("dell"@[0] != "live"@[0] && "dell"@[0] != "acer"@[0]);
    assert("drive"@[0] != "live"@[0] && "drive"@[0] != "acer"@[0] && "drive"@.len() != "dell"@.len());
}

/// Among copies as rich as the canonical one, machine priority decides: if
/// a copy on `live` scores as high as the canonical copy, the canonical copy
/// is on `live`; if one on `acer` does, the canonical copy is on `live` or
/// `acer`; if one on `dell` does, it is on `live`, `acer` or `dell`; if one
/// on `drive` does, it is on one of these four machines.
pub proof fn equally_rich_copies_follow_machine_priority(copies: Seq<CopyV>, k: int)
    requires
        0 <= k < copies.len(),
        score_spec(copies[k].fp) == score_spec(canonical_of(copies).fp),
    ensures
        ({
            let m = copies[k].machine;
            let cm = canonical_of(copies).machine;
            &&& m == "live"@ ==> cm == "live"@
            &&& m == "acer"@ ==> cm == "live"@ || cm == "acer"@
            &&& m == "dell"@ ==> cm == "live"@ || cm == "acer"@ || cm == "dell"@
            &&& m == "drive"@ ==> cm == "live"@ || cm == "acer"@ || cm == "dell"@ || cm == "drive"@
        }),
{
    reveal_strlit("live");
    reveal_strlit("acer");
    reveal_strlit("dell");
    reveal_strlit("drive");
    let n = copies.len() as int;
    lemma_best_index_bound(copies, n);
    lemma_best_rank_among_ties(copies, n);
    assert(machine_rank_spec(canonical_of(copies).machine) <= machine_rank_spec(copies[k].machine));
}

/// A commit is among those of `other` that `have` lacks exactly when `other`
/// holds it and `have` does not.
pub proof fn lemma_unreachable_members(have: Seq<Seq<char>>, other: Seq<Seq<char>>, x: Seq<char>)
    ensures
        unreachable_spec(have, other).contains(x) <==> (other.contains(x) && !have.contains(x)),
    decreases other.len(),
{
    if other.len() > 0 {
        let prev = other.drop_last();
        lemma_unreachable_members(have, prev, x);
        if other.contains(x) && !have.contains(x) {
            if x != other.last() {
                let i = choose|i: int| 0 <= i < other.len() && other[i] == x;
                assert(prev[i] == x);
            }
        }
        if prev.contains(x) {
            let i = choose|i: int| 0 <= i < prev.len() && prev[i] == x;
            assert(other[i] == x);
        }
        if !have.contains(other.last()) {
            let u = unreachable_spec(have, prev);
            if u.push(other.last()).contains(x) && x != other.last() {
                let i = choose|i: int| 0 <= i < u.push(other.last()).len() && u.push(other.last())[i] == x;
                assert(u[i] == x);
            }
            if x == other.last() {
                assert(u.push(other.last())[u.len() as int] == x);
            } else if u.contains(x) {
                let i = choose|i: int| 0 <= i < u.len() && u[i] == x;
                assert(u.push(other.last())[i] == x);
            }
        }
    }
}

proof fn lemma_quarantine_holds(sep: char, g: GroupV, canon: CopyV, n: int, k: int)
    requires
        0 <= k < n <= g.copies.len(),
        g.copies[k].path != canon.path,
        needs_quarantine(unreachable_spec(canon.fp.all_commits, g.copies[k].fp.all_commits), g.copies[k]),
    ensures
        exists|i: int|
            0 <= i < quarantine_spec(sep, g, canon, n).len() && (#[trigger] quarantine_spec(sep, g, canon, n)[i])
                == crate::strategy::quarantine_item_spec(sep, g, canon, g.copies[k]),
    decreases n,
{
    if n > k + 1 {
        lemma_quarantine_holds(sep, g, canon, n - 1, k);
        let i = choose|i: int|
            0 <= i < quarantine_spec(sep, g, canon, n - 1).len() && (#[trigger] quarantine_spec(sep, g, canon, n - 1)[i])
                == crate::strategy::quarantine_item_spec(sep, g, canon, g.copies[k]);
        assert(quarantine_spec(sep, g, canon, n)[i] == quarantine_spec(sep, g, canon, n - 1)[i]);
    } else {
        let q = quarantine_spec(sep, g, canon, n);
        assert(q[q.len() - 1] == crate::strategy::quarantine_item_spec(sep, g, canon, g.copies[k]));
    }
}

/// A remote-backed decision never drops local changes: every copy other
/// than the canonical one that has uncommitted changes, untracked files or
/// stashes is quarantined, as itself, with every commit it has that the
/// canonical copy lacks listed as unreachable, and with the reason
/// `unreachable-commits` when it has such commits, else
/// `uncommitted-changes` when it has uncommitted changes, else
/// `untracked-files` when it has untracked files, else `stashed-changes`.
pub proof fn remote_decision_quarantines_local_changes(sep: char, g: GroupV, dest_root: Seq<char>, k: int)
    requires
        g.has_remote,
        0 <= k < g.copies.len(),
        g.copies[k].path != decide_spec(sep, g, dest_root).canonical.path,
        g.copies[k].fp.dirty_count > 0 || g.copies[k].fp.untracked_count > 0 || g.copies[k].fp.stash_count > 0,
    ensures
        ({
            let d = decide_spec(sep, g, dest_root);
            let c = g.copies[k];
            &&& is_quarantined(d, c.path)
            &&& exists|i: int|
                0 <= i < d.quarantine.len() && (#[trigger] d.quarantine[i]).copy == c && (forall|x: Seq<char>|
                    c.fp.all_commits.contains(x) && !d.canonical.fp.all_commits.contains(x)
                        ==> d.quarantine[i].unreachable_commits.contains(x)) && (d.quarantine[i].unreachable_commits.len()
                    > 0 ==> d.quarantine[i].reason == "unreachable-commits"@) && (
                d.quarantine[i].unreachable_commits.len() == 0 && c.fp.dirty_count > 0
                    ==> d.quarantine[i].reason == "uncommitted-changes"@) && (
                d.quarantine[i].unreachable_commits.len() == 0 && c.fp.dirty_count <= 0 && c.fp.untracked_count > 0
                    ==> d.quarantine[i].reason == "untracked-files"@) && (
                d.quarantine[i].unreachable_commits.len() == 0 && c.fp.dirty_count <= 0 && c.fp.untracked_count <= 0
                    ==> d.quarantine[i].reason == "stashed-changes"@)
        }),
{
    let d = decide_spec(sep, g, dest_root);
    let c = g.copies[k];
    let canon = canonical_of(g.copies);
    let n = g.copies.len() as int;
    lemma_quarantine_holds(sep, g, canon, n, k);
    let i = choose|i: int|
        0 <= i < quarantine_spec(sep, g, canon, n).len() && (#[trigger] quarantine_spec(sep, g, canon, n)[i])
            == crate::strategy::quarantine_item_spec(sep, g, canon, c);
    assert(d.quarantine[i].copy == c);
    assert(is_quarantined(d, c.path));
    assert forall|x: Seq<char>|
        c.fp.all_commits.contains(x) && !d.canonical.fp.all_commits.contains(x)
            implies d.quarantine[i].unreachable_commits.contains(x) by {
        lemma_unreachable_members(canon.fp.all_commits, c.fp.all_commits, x);
    }
}

proof fn lemma_redundant_source(g: GroupV, canon: CopyV, n: int, j: int)
    requires
        0 <= n <= g.copies.len(),
        0 <= j < redundant_spec(g, canon, n).len(),
    ensures
        exists|k: int|
            0 <= k < n && (#[trigger] g.copies[k]).path == redundant_spec(g, canon, n)[j] && g.copies[k].path
                != canon.path && !needs_quarantine(
                unreachable_spec(canon.fp.all_commits, g.copies[k].fp.all_commits),
                g.copies[k],
            ),
    decreases n,
{
    let prev = redundant_spec(g, canon, n - 1);
    if j < prev.len() {
        lemma_redundant_source(g, canon, n - 1, j);
        let k = choose|k: int|
            0 <= k < n - 1 && (#[trigger] g.copies[k]).path == prev[j] && g.copies[k].path != canon.path
                && !needs_quarantine(unreachable_spec(canon.fp.all_commits, g.copies[k].fp.all_commits), g.copies[k]);
        assert(redundant_spec(g, canon, n)[j] == prev[j]);
        assert(g.copies[k].path == redundant_spec(g, canon, n)[j]);
    } else {
        let c = g.copies[n - 1];
        assert(c.path != canon.path && !needs_quarantine(unreachable_spec(canon.fp.all_commits, c.fp.all_commits), c));
        assert(redundant_spec(g, canon, n) == prev.push(c.path));
        assert(g.copies[n - 1].path == redundant_spec(g, canon, n)[j]);
    }
}

/// A copy listed as redundant has nothing to lose: it is a copy of the
/// group other than the canonical one, with no uncommitted changes, no
/// untracked files and no stashes (none of these counts is positive), and
/// no commit that the canonical copy lacks.
pub proof fn redundant_copies_have_nothing_to_lose(sep: char, g: GroupV, dest_root: Seq<char>, j: int)
    requires
        0 <= j < decide_spec(sep, g, dest_root).redundant.len(),
    ensures
        ({
            let d = decide_spec(sep, g, dest_root);
            exists|k: int|
                0 <= k < g.copies.len() && (#[trigger] g.copies[k]).path == d.redundant[j] && g.copies[k].path
                    != d.canonical.path && g.copies[k].fp.dirty_count <= 0 && g.copies[k].fp.untracked_count <= 0
                    && g.copies[k].fp.stash_count <= 0 && (forall|x: Seq<char>|
                    #[trigger] g.copies[k].fp.all_commits.contains(x) ==> d.canonical.fp.all_commits.contains(x))
        }),
{
    let d = decide_spec(sep, g, dest_root);
    let canon = canonical_of(g.copies);
    let n = g.copies.len() as int;
    assert(d.strategy == StrategyKind::A);
    lemma_redundant_source(g, canon, n, j);
    let k = choose|k: int|
        0 <= k < n && (#[trigger] g.copies[k]).path == redundant_spec(g, canon, n)[j] && g.copies[k].path
            != canon.path && !needs_quarantine(
            unreachable_spec(canon.fp.all_commits, g.copies[k].fp.all_commits),
            g.copies[k],
        );
    assert forall|x: Seq<char>| #[trigger] g.copies[k].fp.all_commits.contains(x) implies canon.fp.all_commits.contains(x) by {
        lemma_unreachable_members(canon.fp.all_commits, g.copies[k].fp.all_commits, x);
        if !canon.fp.all_commits.contains(x) {
            let u = unreachable_spec(canon.fp.all_commits, g.copies[k].fp.all_commits);
            let i = choose|i: int| 0 <= i < u.len() && u[i] == x;
            assert(u.len() > 0);
        }
    }
    assert(d.redundant[j] == redundant_spec(g, canon, n)[j]);
    assert(d.canonical == canon);
}

proof fn lemma_decision_reports(d: DecisionV, n: int, k: int, v: ViolationV)
    requires
        0 <= k < n <= d.group.copies.len(),
        copy_violations(d, d.group.copies[k]).contains(v),
    ensures
        decision_violations(d, n).contains(v),
    decreases n,
{
    let s = decision_violations(d, n);
    if k < n - 1 {
        lemma_decision_reports(d, n - 1, k, v);
        let dp = decision_violations(d, n - 1);
        let i = choose|i: int| 0 <= i < dp.len() && dp[i] == v;
        assert(s[i] == v);
    } else {
        let prev = decision_violations(d, n - 1);
        let cv = copy_violations(d, d.group.copies[k]);
        let i = choose|i: int| 0 <= i < cv.len() && cv[i] == v;
        assert(s[prev.len() + i] == v);
    }
}

proof fn lemma_plan_reports(ds: Seq<DecisionV>, m: int, i: int, v: ViolationV)
    requires
        0 <= i < m <= ds.len(),
        decision_violations(ds[i], ds[i].group.copies.len() as int).contains(v),
    ensures
        plan_violations(ds, m).contains(v),
    decreases m,
{
    let s = plan_violations(ds, m);
    if i < m - 1 {
        lemma_plan_reports(ds, m - 1, i, v);
        let pp = plan_violations(ds, m - 1);
        let j = choose|j: int| 0 <= j < pp.len() && pp[j] == v;
        assert(s[j] == v);
    } else {
        let prev = plan_violations(ds, m - 1);
        let dv = decision_violations(ds[i], ds[i].group.copies.len() as int);
        let j = choose|j: int| 0 <= j < dv.len() && dv[j] == v;
        assert(s[prev.len() + j] == v);
    }
}

/// The reachability proof reports every lost commit: in a decision that does
/// not fold every copy in (strategy A or C), a commit of a copy that is
/// neither the canonical copy nor quarantined, and that the canonical copy
/// lacks, is reported against the group's repository and the copy's
/// machine, whatever the sizes of the two copies' histories.
pub proof fn reachability_reports_every_lost_commit(p: PlanV, i: int, k: int, x: Seq<char>)
    requires
        0 <= i < p.decisions.len(),
        p.decisions[i].strategy != StrategyKind::B,
        0 <= k < p.decisions[i].group.copies.len(),
        p.decisions[i].group.copies[k].path != p.decisions[i].canonical.path,
        !is_quarantined(p.decisions[i], p.decisions[i].group.copies[k].path),
        p.decisions[i].group.copies[k].fp.all_commits.contains(x),
        !p.decisions[i].canonical.fp.all_commits.contains(x),
    ensures
        reachability_spec(p).contains(
            ViolationV {
                repo: p.decisions[i].group.repo_name,
                machine: p.decisions[i].group.copies[k].machine,
                sha: x,
            },
        ),
{
    let d = p.decisions[i];
    let c = d.group.copies[k];
    let v = ViolationV { repo: d.group.repo_name, machine: c.machine, sha: x };
    lemma_unreachable_members(d.canonical.fp.all_commits, c.fp.all_commits, x);
    let u = unreachable_spec(d.canonical.fp.all_commits, c.fp.all_commits);
    let j = choose|j: int| 0 <= j < u.len() && u[j] == x;
    assert(copy_violations(d, c)[j] == v);
    lemma_decision_reports(d, d.group.copies.len() as int, k, v);
    lemma_plan_reports(p.decisions, p.decisions.len() as int, i, v);
}

/// The commit a violation of copy `c` in decision `d` names is one that `c`
/// has and the canonical copy lacks, in a decision that does not fold every
/// copy in, for a copy neither canonical nor quarantined.
pub open spec fn is_lost_commit(d: DecisionV, c: CopyV, v: ViolationV) -> bool {
    &&& d.strategy != StrategyKind::B
    &&& c.path != d.canonical.path
    &&& !is_quarantined(d, c.path)
    &&& c.fp.all_commits.contains(v.sha)
    &&& !d.canonical.fp.all_commits.contains(v.sha)
    &&& v.repo == d.group.repo_name
    &&& v.machine == c.machine
}

proof fn lemma_decision_source(d: DecisionV, n: int, j: int)
    requires
        0 <= n <= d.group.copies.len(),
        0 <= j < decision_violations(d, n).len(),
    ensures
        exists|k: int| 0 <= k < n && is_lost_commit(d, #[trigger] d.group.copies[k], decision_violations(d, n)[j]),
    decreases n,
{
    let prev = decision_violations(d, n - 1);
    let c = d.group.copies[n - 1];
    let v = decision_violations(d, n)[j];
    if j < prev.len() {
        lemma_decision_source(d, n - 1, j);
        assert(v == prev[j]);
        let k = choose|k: int| 0 <= k < n - 1 && is_lost_commit(d, #[trigger] d.group.copies[k], prev[j]);
        assert(is_lost_commit(d, d.group.copies[k], v));
    } else {
        let cv = copy_violations(d, c);
        let t = j - prev.len();
        assert(v == cv[t]);
        let u = unreachable_spec(d.canonical.fp.all_commits, c.fp.all_commits);
        assert(u[t] == v.sha);
        assert(u.contains(v.sha));
        lemma_unreachable_members(d.canonical.fp.all_commits, c.fp.all_commits, v.sha);
        assert(is_lost_commit(d, d.group.copies[n - 1], v));
    }
}

proof fn lemma_plan_source(ds: Seq<DecisionV>, m: int, j: int)
    requires
        0 <= m <= ds.len(),
        0 <= j < plan_violations(ds, m).len(),
    ensures
        exists|i: int, k: int|
            0 <= i < m && 0 <= k < ds[i].group.copies.len() && #[trigger] is_lost_commit(
                ds[i],
                ds[i].group.copies[k],
                plan_violations(ds, m)[j],
            ),
    decreases m,
{
    let prev = plan_violations(ds, m - 1);
    let v = plan_violations(ds, m)[j];
    if j < prev.len() {
        lemma_plan_source(ds, m - 1, j);
        assert(v == prev[j]);
        let (i, k) = choose|i: int, k: int|
            0 <= i < m - 1 && 0 <= k < ds[i].group.copies.len() && #[trigger] is_lost_commit(
                ds[i],
                ds[i].group.copies[k],
                prev[j],
            );
        assert(is_lost_commit(ds[i], ds[i].group.copies[k], v));
    } else {
        let d = ds[m - 1];
        let t = j - prev.len();
        assert(v == decision_violations(d, d.group.copies.len() as int)[t]);
        lemma_decision_source(d, d.group.copies.len() as int, t);
        let k = choose|k: int|
            0 <= k < d.group.copies.len() && is_lost_commit(d, #[trigger] d.group.copies[k], v);
        assert(is_lost_commit(ds[m - 1], ds[m - 1].group.copies[k], v));
    }
}

/// The reachability proof reports nothing but lost commits: each violation
/// names a commit that a copy of a decision other than a union (strategy A
/// or C) has and the canonical copy lacks, the copy being neither canonical
/// nor quarantined, with the group's repository and the copy's machine.
pub proof fn reachability_reports_only_lost_commits(p: PlanV, j: int)
    requires
        0 <= j < reachability_spec(p).len(),
    ensures
        exists|i: int, k: int|
            0 <= i < p.decisions.len() && 0 <= k < p.decisions[i].group.copies.len() && #[trigger] is_lost_commit(
                p.decisions[i],
                p.decisions[i].group.copies[k],
                reachability_spec(p)[j],
            ),
{
    lemma_plan_source(p.decisions, p.decisions.len() as int, j);
}

proof fn lemma_machine_unique(copies: Seq<CopyV>, k: int, n: int)
    requires
        0 <= k < copies.len(),
        0 <= n <= copies.len(),
        forall|j: int| 0 <= j < copies.len() && j != k ==> #[trigger] copies[j].machine != copies[k].machine,
    ensures
        machine_count(copies.take(n), copies[k].machine) == if k < n {
            1int
        } else {
            0int
        },
    decreases n,
{
    if n > 0 {
        lemma_machine_unique(copies, k, n - 1);
        assert(copies.take(n).drop_last() =~= copies.take(n - 1));
    }
}

proof fn lemma_union_holds(sep: char, g: GroupV, canon: CopyV, n: int, k: int)
    requires
        0 <= k < n <= g.copies.len(),
        g.copies[k].path != canon.path,
    ensures
        exists|i: int|
            0 <= i < union_spec(sep, g, canon, n).len() && (#[trigger] union_spec(sep, g, canon, n)[i])
                == union_item_spec(sep, g, g.copies[k]),
    decreases n,
{
    if n > k + 1 {
        lemma_union_holds(sep, g, canon, n - 1, k);
        let us = union_spec(sep, g, canon, n - 1);
        let i = choose|i: int| 0 <= i < us.len() && (#[trigger] us[i]) == union_item_spec(sep, g, g.copies[k]);
        assert(union_spec(sep, g, canon, n)[i] == us[i]);
    } else {
        let us = union_spec(sep, g, canon, n);
        assert(us[us.len() - 1] == union_item_spec(sep, g, g.copies[k]));
    }
}

/// A union decision (no remote, one lineage) folds in every copy other
/// than the canonical one: it has a union remote at the copy's path that
/// brings every branch of the copy, by name and in order, named
/// `consolidate-<machine>` when no other copy of the group is on that
/// machine.
pub proof fn union_decision_folds_in_every_copy(sep: char, g: GroupV, dest_root: Seq<char>, k: int)
    requires
        !g.has_remote,
        !lineages_differ(g.copies),
        0 <= k < g.copies.len(),
        g.copies[k].path != decide_spec(sep, g, dest_root).canonical.path,
    ensures
        ({
            let d = decide_spec(sep, g, dest_root);
            let c = g.copies[k];
            exists|i: int|
                0 <= i < d.union_remotes.len() && (#[trigger] d.union_remotes[i]).path == c.path
                    && d.union_remotes[i].branches.len() == c.fp.branches.len() && (forall|b: int|
                    0 <= b < c.fp.branches.len() ==> #[trigger] d.union_remotes[i].branches[b]
                        == c.fp.branches[b].name) && ((forall|j: int|
                    0 <= j < g.copies.len() && j != k ==> #[trigger] g.copies[j].machine != c.machine)
                    ==> d.union_remotes[i].name == "consolidate-"@ + c.machine)
        }),
{
    let d = decide_spec(sep, g, dest_root);
    let c = g.copies[k];
    let canon = canonical_of(g.copies);
    let n = g.copies.len() as int;
    lemma_union_holds(sep, g, canon, n, k);
    let i = choose|i: int|
        0 <= i < union_spec(sep, g, canon, n).len() && (#[trigger] union_spec(sep, g, canon, n)[i])
            == union_item_spec(sep, g, c);
    assert(d.union_remotes[i] == union_item_spec(sep, g, c));
    if forall|j: int| 0 <= j < g.copies.len() && j != k ==> #[trigger] g.copies[j].machine != c.machine {
        lemma_machine_unique(g.copies, k, n);
        assert(g.copies.take(n) =~= g.copies);
    }
}

/// The destination of a decision is `<dest_root>/<owner>/<repo>`, with
/// `personal` for a group without an owner, and the reason recorded for
/// its canonical copy names the machine that copy is on.
pub proof fn decision_destination(sep: char, g: GroupV, dest_root: Seq<char>)
    ensures
        decide_spec(sep, g, dest_root).canonical_reason == "highest richness score; machine="@ + decide_spec(
            sep,
            g,
            dest_root,
        ).canonical.machine,
        g.owner.len() == 0 ==> decide_spec(sep, g, dest_root).dest_path == path_join_spec(
            seq![dest_root, "personal"@, g.repo_name],
        ),
        g.owner.len() > 0 ==> decide_spec(sep, g, dest_root).dest_path == path_join_spec(
            seq![dest_root, g.owner, g.repo_name],
        ),
{
}

/// A quarantined copy that no other copy of the group shares a machine with
/// goes to `_quarantine/<repo>/<machine>`.
pub proof fn quarantine_destination(sep: char, g: GroupV, dest_root: Seq<char>, k: int)
    requires
        g.has_remote,
        0 <= k < g.copies.len(),
        g.copies[k].path != decide_spec(sep, g, dest_root).canonical.path,
        needs_quarantine(
            unreachable_spec(decide_spec(sep, g, dest_root).canonical.fp.all_commits, g.copies[k].fp.all_commits),
            g.copies[k],
        ),
        forall|j: int| 0 <= j < g.copies.len() && j != k ==> #[trigger] g.copies[j].machine != g.copies[k].machine,
    ensures
        exists|i: int|
            0 <= i < decide_spec(sep, g, dest_root).quarantine.len() && (#[trigger] decide_spec(
                sep,
                g,
                dest_root,
            ).quarantine[i]).copy == g.copies[k] && decide_spec(sep, g, dest_root).quarantine[i].dest_path
                == path_join_spec(seq!["_quarantine"@, g.repo_name, g.copies[k].machine]),
{
    let d = decide_spec(sep, g, dest_root);
    let canon = canonical_of(g.copies);
    let n = g.copies.len() as int;
    lemma_quarantine_holds(sep, g, canon, n, k);
    let i = choose|i: int|
        0 <= i < quarantine_spec(sep, g, canon, n).len() && (#[trigger] quarantine_spec(sep, g, canon, n)[i])
            == crate::strategy::quarantine_item_spec(sep, g, canon, g.copies[k]);
    lemma_machine_unique(g.copies, k, n);
    assert(g.copies.take(n) =~= g.copies);
    assert(d.quarantine[i].copy == g.copies[k]);
}

} // verus!
