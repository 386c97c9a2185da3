//! Reachability proofs: every source commit must survive consolidation,
//! either in the canonical copy, in a quarantined copy, or (Strategy B) in
//! the union of all copies.
use vstd::prelude::*;

use crate::model::{CopyV, DecisionV, Plan, PlanV, StrategyKind};
use crate::strategy::unreachable_spec;
use crate::gitx::{arg_texts, CallV, Logged};
use crate::text::{contains_string, lemma_deep_view_push};

verus! {

/// Violation is a source commit that would not survive consolidation.
#[derive(Debug)]
pub struct Violation {
    pub repo: String,
    pub machine: String,
    pub sha: String,
}

/// View of a [`Violation`].
pub struct ViolationV {
    pub repo: Seq<char>,
    pub machine: Seq<char>,
    pub sha: Seq<char>,
}

impl View for Violation {
    type V = ViolationV;

    open spec fn view(&self) -> ViolationV {
        ViolationV { repo: self.repo@, machine: self.machine@, sha: self.sha@ }
    }
}

impl DeepView for Violation {
    type V = ViolationV;

    open spec fn deep_view(&self) -> ViolationV {
        self@
    }
}

/// Some quarantine item of `d` preserves the copy at `path`.
pub open spec fn is_quarantined(d: DecisionV, path: Seq<char>) -> bool {
    exists|i: int| 0 <= i < d.quarantine.len() && (#[trigger] d.quarantine[i]).copy.path == path
}

/// One violation per commit of `commits`.
pub open spec fn violations_of(repo: Seq<char>, machine: Seq<char>, commits: Seq<Seq<char>>) -> Seq<ViolationV> {
    Seq::new(commits.len(), |i: int| ViolationV { repo, machine, sha: commits[i] })
}

/// The commits of copy `c` that decision `d` loses: none when `c` is the
/// canonical copy (by path), when the strategy folds every copy in (B), or
/// when `c` is quarantined; otherwise those absent from the canonical copy.
pub open spec fn copy_violations(d: DecisionV, c: CopyV) -> Seq<ViolationV> {
    if c.path == d.canonical.path || d.strategy == StrategyKind::B || is_quarantined(d, c.path) {
        Seq::empty()
    } else {
        violations_of(
            d.group.repo_name,
            c.machine,
            unreachable_spec(d.canonical.fp.all_commits, c.fp.all_commits),
        )
    }
}

/// The violations of decision `d` over its first `n` copies.
pub open spec fn decision_violations(d: DecisionV, n: int) -> Seq<ViolationV>
    decreases n,
{
    if n <= 0 {
        Seq::empty()
    } else {
        decision_violations(d, n - 1) + copy_violations(d, d.group.copies[n - 1])
    }
}

/// The violations of the first `m` decisions.
pub open spec fn plan_violations(ds: Seq<DecisionV>, m: int) -> Seq<ViolationV>
    decreases m,
{
    if m <= 0 {
        Seq::empty()
    } else {
        plan_violations(ds, m - 1) + decision_violations(ds[m - 1], ds[m - 1].group.copies.len() as int)
    }
}

/// The violations of a whole plan.
pub open spec fn reachability_spec(p: PlanV) -> Seq<ViolationV> {
    plan_violations(p.decisions, p.decisions.len() as int)
}

/// Whether decision `d` quarantines the copy at `path`.
fn quarantined(d: &crate::model::Decision, path: &String) -> (b: bool)
    ensures
        b == is_quarantined(d@, path@),
{
    for i in 0..d.quarantine.len()
        invariant
            forall|k: int| 0 <= k < i ==> d@.quarantine[k].copy.path != path@,
    {
        proof {
            assert(d@.quarantine[i as int] == d.quarantine@[i as int]@);
        }
        if d.quarantine[i].copy.path == *path {
            return true;
        }
    }
    false
}

/// ReachabilityProof asserts every source commit survives in canonical or a
/// quarantined copy. Pre-apply (plan-based) gate: it returns one violation
/// per source commit that would be lost.
pub fn reachability_proof(p: &Plan) -> (vio: Vec<Violation>)
    ensures
        vio.deep_view() == reachability_spec(p@),
{
    let mut vio: Vec<Violation> = Vec::new();
    for di in 0..p.decisions.len()
        invariant
            vio.deep_view() == plan_violations(p@.decisions, di as int),
    {
        let d = &p.decisions[di];
        proof {
            assert(p@.decisions[di as int] == d@);
        }
        let union_all = d.strategy == StrategyKind::B;
        let ghost base = vio.deep_view();
        for ci in 0..d.group.copies.len()
            invariant
                d@ == p@.decisions[di as int],
                union_all == (d@.strategy == StrategyKind::B),
                vio.deep_view() == base + decision_violations(d@, ci as int),
        {
            let c = &d.group.copies[ci];
            proof {
                assert(d@.group.copies[ci as int] == c@);
            }
            let ghost before_c = vio.deep_view();
            if c.path != d.canonical.path && !union_all && !quarantined(d, &c.path) {
                let commits = &c.fp.all_commits;
                let have = &d.canonical.fp.all_commits;
                let ghost missing_all = unreachable_spec(have.deep_view(), commits.deep_view());
                for k in 0..commits.len()
                    invariant
                        vio.deep_view() == before_c + violations_of(
                            d@.group.repo_name,
                            c@.machine,
                            unreachable_spec(have.deep_view(), commits.deep_view().take(k as int)),
                        ),
                {
                    proof {
                        assert(commits.deep_view().take(k + 1).drop_last() =~= commits.deep_view().take(k as int));
                        assert(commits.deep_view()[k as int] == commits@[k as int]@);
                    }
                    let ghost prev_u = unreachable_spec(have.deep_view(), commits.deep_view().take(k as int));
                    if !contains_string(have, &commits[k]) {
                        let v = Violation {
                            repo: d.group.repo_name.clone(),
                            machine: c.machine.clone(),
                            sha: commits[k].clone(),
                        };
                        let ghost before = vio;
                        let ghost vv = v;
                        vio.push(v);
                        proof {
                            lemma_deep_view_push(before, vio, vv);
                            let u = unreachable_spec(have.deep_view(), commits.deep_view().take(k + 1));
                            assert(u == prev_u.push(commits.deep_view()[k as int]));
                            assert(violations_of(d@.group.repo_name, c@.machine, u) =~= violations_of(
                                d@.group.repo_name,
                                c@.machine,
                                prev_u,
                            ).push(vv@));
                            assert(vio.deep_view() =~= before_c + violations_of(
                                d@.group.repo_name,
                                c@.machine,
                                u,
                            ));
                        }
                    }
                }
                assert(commits.deep_view().take(commits@.len() as int) =~= commits.deep_view());
            }
            proof {
                assert(vio.deep_view() =~= base + decision_violations(d@, ci + 1));
            }
        }
        assert(vio.deep_view() =~= plan_violations(p@.decisions, di + 1));
    }
    vio
}

} // verus!

verus! {

/// One check of the physical proof: that `object` exists in the repository
/// at `dir`; a failed check reports `violation`.
pub struct CheckV {
    pub dir: Seq<char>,
    pub object: Seq<char>,
    pub violation: ViolationV,
}

/// The checks for the first `k` commits of copy `c` under decision `d`.
pub open spec fn copy_checks(d: DecisionV, c: CopyV, k: int) -> Seq<CheckV> {
    Seq::new(
        if k < 0 {
            0nat
        } else {
            k as nat
        },
        |i: int|
            CheckV {
                dir: d.dest_path,
                object: c.fp.all_commits[i] + "^{commit}"@,
                violation: ViolationV { repo: d.group.repo_name, machine: c.machine, sha: c.fp.all_commits[i] },
            },
    )
}

/// The checks for the first `n` copies of a Strategy B decision; none for
/// other strategies.
pub open spec fn decision_checks(d: DecisionV, n: int) -> Seq<CheckV>
    decreases n,
{
    if n <= 0 || d.strategy != StrategyKind::B {
        Seq::empty()
    } else {
        decision_checks(d, n - 1) + copy_checks(d, d.group.copies[n - 1], d.group.copies[n - 1].fp.all_commits.len() as int)
    }
}

/// The checks of the first `m` decisions.
pub open spec fn plan_checks(ds: Seq<DecisionV>, m: int) -> Seq<CheckV>
    decreases m,
{
    if m <= 0 {
        Seq::empty()
    } else {
        plan_checks(ds, m - 1) + decision_checks(ds[m - 1], ds[m - 1].group.copies.len() as int)
    }
}

/// The violations of the checks that failed, in order (`oks[i]` says
/// whether check `i` passed).
pub open spec fn failed_checks(checks: Seq<CheckV>, oks: Seq<bool>) -> Seq<ViolationV>
    decreases checks.len(),
{
    if checks.len() == 0 {
        Seq::empty()
    } else if oks.last() {
        failed_checks(checks.drop_last(), oks.drop_last())
    } else {
        failed_checks(checks.drop_last(), oks.drop_last()).push(checks.last().violation)
    }
}

proof fn lemma_failed_push(checks: Seq<CheckV>, oks: Seq<bool>, x: CheckV, ok: bool)
    ensures
        failed_checks(checks.push(x), oks.push(ok)) == if ok {
            failed_checks(checks, oks)
        } else {
            failed_checks(checks, oks).push(x.violation)
        },
{
    assert(checks.push(x).drop_last() =~= checks);
    assert(oks.push(ok).drop_last() =~= oks);
}

/// Whether each call succeeded.
pub open spec fn passes(calls: Seq<CallV>) -> Seq<bool> {
    calls.map_values(|c: CallV| c.result is Ok)
}

/// The calls are the checks, one each, in order: call `k` asks git, in the
/// directory of check `k`, whether its object exists.
pub open spec fn checks_run(calls: Seq<CallV>, checks: Seq<CheckV>) -> bool {
    &&& calls.len() == checks.len()
    &&& forall|k: int|
        0 <= k < calls.len() ==> #[trigger] calls[k].dir == checks[k].dir && calls[k].args == seq![
            "cat-file"@,
            "-e"@,
            checks[k].object,
        ]
}

/// PhysicalReachability is the post-apply proof for local-only (Strategy B)
/// repos: for every commit of every copy it asks git, through the runner,
/// `cat-file -e <sha>^{commit}` in the decision's destination, and reports
/// the commits whose check failed: exactly the checks whose call failed.
pub fn physical_reachability<R: crate::gitx::Runner>(r: &mut Logged<R>, p: &Plan) -> (vio: Vec<Violation>)
    requires
        old(r).wf(),
    ensures
        final(r).wf(),
        final(r).origin() == old(r).origin(),
        final(r).history().take(old(r).history().len() as int) == old(r).history(),
        checks_run(
            final(r).history().skip(old(r).history().len() as int),
            plan_checks(p@.decisions, p@.decisions.len() as int),
        ),
        vio.deep_view() == failed_checks(
            plan_checks(p@.decisions, p@.decisions.len() as int),
            passes(final(r).history().skip(old(r).history().len() as int)),
        ),
{
    let ghost h0 = r.history();
    let mut vio: Vec<Violation> = Vec::new();
    for di in 0..p.decisions.len()
        invariant
            h0 == old(r).history(),
            r.history().take(h0.len() as int) == h0,
            r.history().len() >= h0.len(),
            r.wf(),
            r.origin() == old(r).origin(),
            checks_run(r.history().skip(h0.len() as int), plan_checks(p@.decisions, di as int)),
            vio.deep_view() == failed_checks(
                plan_checks(p@.decisions, di as int),
                passes(r.history().skip(h0.len() as int)),
            ),
    {
        let d = &p.decisions[di];
        proof {
            assert(p@.decisions[di as int] == d@);
        }
        let ghost base = plan_checks(p@.decisions, di as int);
        if d.strategy == StrategyKind::B {
            for ci in 0..d.group.copies.len()
                invariant
                    d@ == p@.decisions[di as int],
                    d@.strategy == StrategyKind::B,
                    h0 == old(r).history(),
                    r.history().take(h0.len() as int) == h0,
                    r.history().len() >= h0.len(),
                    r.wf(),
                    r.origin() == old(r).origin(),
                    checks_run(r.history().skip(h0.len() as int), base + decision_checks(d@, ci as int)),
                    vio.deep_view() == failed_checks(
                        base + decision_checks(d@, ci as int),
                        passes(r.history().skip(h0.len() as int)),
                    ),
            {
                let c = &d.group.copies[ci];
                proof {
                    assert(d@.group.copies[ci as int] == c@);
                }
                let ghost mid = base + decision_checks(d@, ci as int);
                let commits = &c.fp.all_commits;
                for k in 0..commits.len()
                    invariant
                        commits.deep_view() == c@.fp.all_commits,
                        h0 == old(r).history(),
                        r.history().take(h0.len() as int) == h0,
                        r.history().len() >= h0.len(),
                        r.wf(),
                        r.origin() == old(r).origin(),
                        checks_run(r.history().skip(h0.len() as int), mid + copy_checks(d@, c@, k as int)),
                        vio.deep_view() == failed_checks(
                            mid + copy_checks(d@, c@, k as int),
                            passes(r.history().skip(h0.len() as int)),
                        ),
                {
                    let sha = &commits[k];
                    proof {
                        assert(commits.deep_view()[k as int] == sha@);
                    }
                    let spec = crate::text::concat_str(sha.as_str(), "^{commit}");
                    let ghost hb = r.history();
                    let ghost calls0 = r.history().skip(h0.len() as int);
                    let args: [&str; 3] = ["cat-file", "-e", spec.as_str()];
                    let res = r.run(d.dest_path.as_str(), &args);
                    let ok = res.is_ok();
                    let ghost calls = r.history().skip(h0.len() as int);
                    let ghost x = CheckV {
                        dir: d@.dest_path,
                        object: sha@ + "^{commit}"@,
                        violation: ViolationV { repo: d@.group.repo_name, machine: c@.machine, sha: sha@ },
                    };
                    proof {
                        assert(c@.fp.all_commits[k as int] == sha@);
                        assert(copy_checks(d@, c@, k + 1)[k as int] == x);
                        assert(copy_checks(d@, c@, k + 1) =~= copy_checks(d@, c@, k as int).push(x));
                        assert(mid + copy_checks(d@, c@, k + 1) =~= (mid + copy_checks(d@, c@, k as int)).push(x));
                        assert(r.history() == hb.push(r.history().last()));
                        assert(calls =~= calls0.push(r.history().last()));
                        assert(r.history().take(h0.len() as int) =~= hb.take(h0.len() as int));
                        assert(arg_texts(args@) =~= seq!["cat-file"@, "-e"@, x.object]);
                        assert(passes(calls) =~= passes(calls0).push(ok));
                        let cs = (mid + copy_checks(d@, c@, k as int)).push(x);
                        assert forall|i: int| 0 <= i < calls.len() implies #[trigger] calls[i].dir == cs[i].dir
                            && calls[i].args == seq!["cat-file"@, "-e"@, cs[i].object] by {
                            if i < calls0.len() {
                                assert(calls[i] == calls0[i]);
                                assert(cs[i] == (mid + copy_checks(d@, c@, k as int))[i]);
                                assert(calls0[i].dir == (mid + copy_checks(d@, c@, k as int))[i].dir);
                            } else {
                                assert(calls[i] == r.history().last());
                                assert(cs[i] == x);
                                assert(calls[i].dir == x.dir);
                                assert(calls[i].args == seq!["cat-file"@, "-e"@, x.object]);
                            }
                        }
                        lemma_failed_push(mid + copy_checks(d@, c@, k as int), passes(calls0), x, ok);
                    }
                    if !ok {
                        let v = Violation { repo: d.group.repo_name.clone(), machine: c.machine.clone(), sha: sha.clone() };
                        let ghost before = vio;
                        let ghost vv = v;
                        vio.push(v);
                        proof {
                            lemma_deep_view_push(before, vio, vv);
                        }
                    }
                }
                proof {
                    assert(mid + copy_checks(d@, c@, commits@.len() as int) =~= base + decision_checks(d@, ci + 1));
                }
            }
        }
        proof {
            if d@.strategy != StrategyKind::B {
                assert(decision_checks(d@, d@.group.copies.len() as int) == Seq::<CheckV>::empty());
            }
            assert(base + decision_checks(d@, d@.group.copies.len() as int) =~= plan_checks(p@.decisions, di + 1));
        }
    }
    vio
}

} // verus!
