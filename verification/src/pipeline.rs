//! The steps of the command-line workflow that compute rather than read or
//! write: recording a found repository, the plan a scan produces, the plan
//! the planning step rewrites it into, and the figures a scan reports.
use vstd::prelude::*;

use crate::discover::{found_copy, found_copy_spec, is_third_party, third_party_spec, Scope};
use crate::gitx::{arg_texts, Logged, Runner};
use crate::model::{
    clone_copies, clone_strings, default_copy_v, CopyV, Decision, DecisionV, Group, GroupV, Plan, PlanV, StrategyKind,
};
use crate::strategy::{decide_for, decide_spec, scores_fit};
use crate::text::{is_separator_choice, main_separator};

verus! {

/// The number of workers for parallel fingerprinting: twice the CPUs, at
/// most sixteen, at least one.
pub open spec fn workers_spec(cpus: int) -> int {
    if 2 * cpus > 16 {
        16
    } else if 2 * cpus < 1 {
        1
    } else {
        2 * cpus
    }
}

/// The number of workers for parallel fingerprinting on `cpus` CPUs.
pub fn workers_for(cpus: usize) -> (r: usize)
    ensures
        r == workers_spec(cpus as int),
{
    if cpus > 8 {
        16
    } else if cpus == 0 {
        1
    } else {
        cpus * 2
    }
}

/// A copy whose fingerprint could not be taken: no head and no commits.
pub open spec fn unreadable(c: CopyV) -> bool {
    c.fp.head.len() == 0 && c.fp.commit_count == 0
}

/// The number of unreadable copies among the first `n`.
pub open spec fn unreadable_count_spec(cs: Seq<CopyV>, n: int) -> int
    decreases n,
{
    if n <= 0 {
        0
    } else {
        unreadable_count_spec(cs, n - 1) + if unreadable(cs[n - 1]) {
            1int
        } else {
            0int
        }
    }
}

/// The number of copies whose fingerprint could not be taken.
pub fn unreadable_count(copies: &Vec<crate::model::Copy>) -> (r: usize)
    ensures
        r == unreadable_count_spec(copies.deep_view(), copies@.len() as int),
{
    let mut n: usize = 0;
    for i in 0..copies.len()
        invariant
            n == unreadable_count_spec(copies.deep_view(), i as int),
            n <= i,
    {
        let c = &copies[i];
        proof {
            assert(copies.deep_view()[i as int] == c@);
        }
        if c.fp.head.as_str().is_empty() && c.fp.commit_count == 0 {
            n = n + 1;
        }
    }
    n
}

/// What discovery records for a repository found at `path` under `root`,
/// with raw `origin` URL `url` and directory name `basename`, and whether it
/// is third-party.
pub open spec fn recorded_spec(
    sep: char,
    path: Seq<char>,
    root: Seq<char>,
    url: Seq<char>,
    basename: Seq<char>,
    scope: crate::discover::ScopeV,
) -> (CopyV, bool) {
    let c = found_copy_spec(sep, path, root, url, basename);
    (c, third_party_spec(path, c.owner, scope))
}

/// The query for a repository's `origin` URL.
pub open spec fn origin_query() -> Seq<Seq<char>> {
    seq!["config"@, "--get"@, "remote.origin.url"@]
}

/// The text of a git answer, or nothing when the call failed.
pub open spec fn answer_text(r: Result<Seq<char>, crate::gitx::GitErrorV>) -> Seq<char> {
    match r {
        Ok(t) => t,
        Err(_) => Seq::empty(),
    }
}

/// Records a repository found at `path` under `root`: asks git, in `path`,
/// for its `origin` URL (none when that fails), builds its copy from that
/// answer, and tells whether it is third-party.
pub fn record_repo<R: Runner>(r: &mut Logged<R>, path: &str, root: &str, basename: &str, scope: &Scope) -> (res: (
    crate::model::Copy,
    bool,
))
    requires
        old(r).wf(),
    ensures
        final(r).wf(),
        final(r).origin() == old(r).origin(),
        final(r).history().len() == old(r).history().len() + 1,
        final(r).history().take(old(r).history().len() as int) == old(r).history(),
        final(r).history().last().dir == path@,
        final(r).history().last().args == origin_query(),
        exists|sep: char|
            is_separator_choice(sep) && (res.0@, res.1) == recorded_spec(
                sep,
                path@,
                root@,
                answer_text(final(r).history().last().result),
                basename@,
                scope@,
            ),
{
    let ghost h0 = r.history();
    let q: [&str; 3] = ["config", "--get", "remote.origin.url"];
    let ans = r.run(path, &q);
    proof {
        assert(arg_texts(q@) =~= origin_query());
        assert(r.history().take(h0.len() as int) =~= h0);
    }
    let url = match ans {
        Ok(u) => u,
        Err(_) => String::new(),
    };
    assert(url@ == answer_text(r.history().last().result));
    let c = found_copy(path, root, url.as_str(), basename);
    let tp = is_third_party(path, c.owner.as_str(), scope);
    proof {
        let sep = choose|sep: char|
            is_separator_choice(sep) && c@ == found_copy_spec(sep, path@, root@, url@, basename@);
        assert((c@, tp) == recorded_spec(sep, path@, root@, url@, basename@, scope@));
    }
    (c, tp)
}

/// A decision not made yet: it holds only its group.
pub open spec fn undecided(g: GroupV) -> DecisionV {
    DecisionV {
        group: g,
        strategy: StrategyKind::A,
        canonical: default_copy_v(),
        canonical_reason: Seq::empty(),
        dest_path: Seq::empty(),
        quarantine: Seq::empty(),
        redundant: Seq::empty(),
        union_remotes: Seq::empty(),
    }
}

/// The plan a scan writes: its roots, destination and time, one undecided
/// decision per group, and the third-party copies.
pub fn scan_plan(
    roots: &Vec<String>,
    dest: &String,
    generated_at: String,
    groups: &Vec<Group>,
    third_party: &Vec<crate::model::Copy>,
) -> (p: Plan)
    ensures
        p@ == (PlanV {
            roots: roots.deep_view(),
            dest: dest@,
            generated_at: generated_at@,
            decisions: groups.deep_view().map_values(|g: GroupV| undecided(g)),
            third_party: third_party.deep_view(),
        }),
{
    let mut decisions: Vec<Decision> = Vec::new();
    for i in 0..groups.len()
        invariant
            decisions.deep_view() == groups.deep_view().take(i as int).map_values(|g: GroupV| undecided(g)),
    {
        let ghost before = decisions;
        let d = Decision {
            group: groups[i].clone(),
            strategy: StrategyKind::A,
            canonical: crate::model::Copy::default(),
            canonical_reason: String::new(),
            dest_path: String::new(),
            quarantine: Vec::new(),
            redundant: Vec::new(),
            union_remotes: Vec::new(),
        };
        let ghost dv = d;
        proof {
            assert(d@.quarantine =~= Seq::<crate::model::QuarantineItemV>::empty());
            assert(d@.redundant =~= Seq::<Seq<char>>::empty());
            assert(d@.union_remotes =~= Seq::<crate::model::UnionRemoteV>::empty());
            assert(d@.canonical_reason =~= Seq::<char>::empty());
            assert(d@.dest_path =~= Seq::<char>::empty());
            assert(groups.deep_view()[i as int] == groups@[i as int]@);
            assert(d@ == undecided(groups.deep_view()[i as int]));
        }
        decisions.push(d);
        proof {
            crate::text::lemma_deep_view_push(before, decisions, dv);
            assert(groups.deep_view().take(i + 1).map_values(|g: GroupV| undecided(g)) =~= groups.deep_view().take(
                i as int,
            ).map_values(|g: GroupV| undecided(g)).push(dv@));
        }
    }
    assert(groups.deep_view().take(groups@.len() as int) =~= groups.deep_view());
    Plan {
        roots: clone_strings(roots),
        dest: dest.clone(),
        generated_at,
        decisions,
        third_party: clone_copies(third_party),
    }
}

/// A group a decision can be made for: it has copies, and their scores fit
/// in an `i64`.
pub open spec fn decidable(g: GroupV) -> bool {
    g.copies.len() > 0 && scores_fit(g.copies)
}

/// Whether a decision can be made for the group.
pub fn can_decide(g: &Group) -> (r: bool)
    ensures
        r == decidable(g@),
{
    if g.copies.len() == 0 {
        return false;
    }
    for i in 0..g.copies.len()
        invariant
            forall|k: int| 0 <= k < i ==> crate::model::score_fits(#[trigger] g@.copies[k].fp),
    {
        proof {
            assert(g@.copies[i as int] == g.copies@[i as int]@);
        }
        if g.copies[i].fp.score_checked().is_none() {
            assert(!crate::model::score_fits(g@.copies[i as int].fp));
            return false;
        }
    }
    true
}

/// The plan the planning step writes: the destination replaced when a new
/// one is given, and every decision made anew from its group.
pub open spec fn replanned(sep: char, p: PlanV, dest: Seq<char>) -> PlanV {
    let root = if dest.len() > 0 {
        dest
    } else {
        p.dest
    };
    PlanV {
        dest: root,
        decisions: p.decisions.map_values(|d: DecisionV| decide_spec(sep, d.group, root)),
        ..p
    }
}

/// Makes every decision of the plan anew from its group, under the new
/// destination `dest` when it is not empty.
pub fn replan(p: Plan, dest: &str) -> (r: Plan)
    requires
        forall|i: int| 0 <= i < p@.decisions.len() ==> #[trigger] decidable(p@.decisions[i].group),
    ensures
        exists|sep: char| is_separator_choice(sep) && r@ == replanned(sep, p@, dest@),
{
    let sep = main_separator();
    let ghost old_p = p@;
    let mut p = p;
    if !dest.is_empty() {
        p.dest = dest.to_string();
    }
    let mut decided: Vec<Decision> = Vec::new();
    for i in 0..p.decisions.len()
        invariant
            p@.decisions == old_p.decisions,
            p@.dest == (if dest@.len() > 0 {
                dest@
            } else {
                old_p.dest
            }),
            forall|k: int| 0 <= k < old_p.decisions.len() ==> #[trigger] decidable(old_p.decisions[k].group),
            decided.deep_view() == old_p.decisions.take(i as int).map_values(
                |d: DecisionV| decide_spec(sep, d.group, p@.dest),
            ),
    {
        let ghost before = decided;
        proof {
            assert(p@.decisions[i as int] == p.decisions@[i as int]@);
            assert(decidable(old_p.decisions[i as int].group));
        }
        let d = decide_for(&p.decisions[i].group, p.dest.as_str(), sep);
        let ghost dv = d;
        decided.push(d);
        proof {
            crate::text::lemma_deep_view_push(before, decided, dv);
            assert(old_p.decisions.take(i + 1).map_values(|d: DecisionV| decide_spec(sep, d.group, p@.dest))
                =~= old_p.decisions.take(i as int).map_values(|d: DecisionV| decide_spec(sep, d.group, p@.dest)).push(
                dv@,
            ));
        }
    }
    assert(old_p.decisions.take(old_p.decisions.len() as int) =~= old_p.decisions);
    p.decisions = decided;
    assert(p@ =~= replanned(sep, old_p, dest@));
    assert(is_separator_choice(sep) && p@ == replanned(sep, old_p, dest@));
    p
}

} // verus!
