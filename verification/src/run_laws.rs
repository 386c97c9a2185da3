//! Properties of a consolidation run and of the scripted runner: a
//! destination that already holds its tree is skipped, a dry run asks for no
//! write, a run never changes its plan or options, a finished run counted
//! every item and every union remote, and the scripted runner answers what
//! was scripted.
use vstd::prelude::*;

use crate::consolidate::{
    applier_wf, current, enter_item_spec, items_before, items_of, request_of,
    resume_spec, start_spec, unions_before, ApplierV, OptionsV, ProgressV, ReplyV, RequestV, Stage,
};
use crate::gitx::{fake_answer, lemma_store_lookup, store, FakeV, GitErrorV};
use crate::model::{ApplyResultV, PlanV};
use crate::consolidate::{
    candidate_name, dest_suffix, disambiguated, pick_name, remote_steps, union_names, union_script, unique_name, UnionStepV,
};
use crate::model::{CopyV, DecisionV, UnionRemoteV};
use crate::text::{digit_char, digits, join, trim};

verus! {

proof fn lemma_enter_item_pending(st: ApplierV, k: int)
    ensures
        enter_item_spec(st, k) is Pending,
        enter_item_spec(st, k) matches ProgressV::Pending(st2, req) ==> st2.plan == st.plan && st2.opts
            == st.opts && st2.excludes == st.excludes && st2.result == st.result && req == request_of(st2),
{
}

/// A destination that already holds its tree is skipped: when the hashes of
/// an item's source and destination are equal and not empty, the run counts
/// the item as skipped, counts nothing else, and does not ask to copy it.
pub proof fn matching_hash_skips_item(st: ApplierV, h: Seq<char>)
    requires
        applier_wf(st),
        st.stage == Stage::Hash,
        h.len() > 0,
    ensures
        resume_spec(st, ReplyV::Hashed { src_hash: h, dst_hash: h }) matches ProgressV::Pending(st2, req) && {
            &&& st2.result.skipped == st.result.skipped + 1
            &&& st2.result.copied == st.result.copied
            &&& st2.result.quarantined == st.result.quarantined
            &&& st2.result.skipped_files == st.result.skipped_files
            &&& !(req is Copy)
        },
{
    let ds = st.plan.decisions;
    crate::consolidate::lemma_items_before_grows(ds, st.decision + 1, ds.len() as int);
    crate::consolidate::lemma_items_before_grows(ds, 0, ds.len() as int);
    let st1 = ApplierV { result: ApplyResultV { skipped: (st.result.skipped + 1) as i64, ..st.result }, ..st };
    assert(st1.result.skipped == st.result.skipped + 1);
    lemma_enter_item_pending(st1, st.item + 1);
}

/// A destination that differs from its source is copied: when the hashes
/// differ, or the destination does not exist (empty hash), the run asks for
/// a copy of the item's source to the item's destination.
pub proof fn differing_hash_copies_item(st: ApplierV, src_hash: Seq<char>, dst_hash: Seq<char>)
    requires
        applier_wf(st),
        st.stage == Stage::Hash,
        dst_hash.len() == 0 || src_hash != dst_hash,
    ensures
        resume_spec(st, ReplyV::Hashed { src_hash, dst_hash }) matches ProgressV::Pending(st2, req) && {
            &&& req matches RequestV::Copy { src, dst, excludes, dry_run } && {
                &&& src == crate::consolidate::item_copy(current(st), st.item).path
                &&& dst == st.target
                &&& excludes == st.excludes
                &&& dry_run == st.opts.dry_run
            }
            &&& st2.result == st.result
        },
{
}

/// A dry run asks for no write: every copy it asks for and the union work
/// it asks for are marked dry-run (a dry-run copy writes nothing, and dry-run
/// union work runs no command, see `union_remotes`).
pub proof fn dry_run_requests_no_write(st: ApplierV)
    requires
        applier_wf(st),
        st.opts.dry_run,
    ensures
        match request_of(st) {
            RequestV::Hash { .. } => true,
            RequestV::Copy { dry_run, .. } => dry_run,
            RequestV::Union { dry_run, .. } => dry_run,
        },
{
}

/// The requests a run makes, in order, when it is handed `replies` one by
/// one from progress `pr`, until it finishes or the replies run out.
pub open spec fn run_requests(pr: ProgressV, replies: Seq<ReplyV>) -> Seq<RequestV>
    decreases replies.len(),
{
    match pr {
        ProgressV::Finished(_) => Seq::empty(),
        ProgressV::Pending(st, req) => if replies.len() == 0 {
            seq![req]
        } else {
            seq![req] + run_requests(resume_spec(st, replies[0]), replies.drop_first())
        },
    }
}

/// A request that writes: a copy or union work that is not a dry run.
pub open spec fn writes(req: RequestV) -> bool {
    match req {
        RequestV::Hash { .. } => false,
        RequestV::Copy { dry_run, .. } => !dry_run,
        RequestV::Union { dry_run, .. } => !dry_run,
    }
}

/// A pending run with options `o` asks for the request of its state.
pub open spec fn pending_with(pr: ProgressV, o: OptionsV) -> bool {
    pr matches ProgressV::Pending(st, req) ==> st.opts == o && req == request_of(st)
}

proof fn lemma_start_pending(p: PlanV, o: OptionsV)
    ensures
        pending_with(start_spec(p, o), o),
{
}

proof fn lemma_resume_pending(st: ApplierV, reply: ReplyV)
    ensures
        pending_with(resume_spec(st, reply), st.opts),
{
}

proof fn lemma_dry_run_trace(pr: ProgressV, replies: Seq<ReplyV>, o: OptionsV)
    requires
        o.dry_run,
        pending_with(pr, o),
    ensures
        forall|k: int|
            0 <= k < run_requests(pr, replies).len() ==> !writes(#[trigger] run_requests(pr, replies)[k]),
    decreases replies.len(),
{
    if let ProgressV::Pending(st, req) = pr {
        if replies.len() > 0 {
            lemma_resume_pending(st, replies[0]);
            lemma_dry_run_trace(resume_spec(st, replies[0]), replies.drop_first(), o);
            let rest = run_requests(resume_spec(st, replies[0]), replies.drop_first());
            assert forall|k: int| 0 <= k < run_requests(pr, replies).len() implies !writes(
                #[trigger] run_requests(pr, replies)[k],
            ) by {
                if k > 0 {
                    assert(run_requests(pr, replies)[k] == rest[k - 1]);
                }
            }
        }
    }
}

/// A dry run writes nothing, whatever it is answered: no request of the
/// whole run asks for a copy or for union work that is not a dry run.
pub proof fn dry_run_never_writes(p: PlanV, o: OptionsV, replies: Seq<ReplyV>)
    requires
        o.dry_run,
    ensures
        forall|k: int|
            0 <= k < run_requests(start_spec(p, o), replies).len() ==> !writes(
                #[trigger] run_requests(start_spec(p, o), replies)[k],
            ),
{
    lemma_start_pending(p, o);
    lemma_dry_run_trace(start_spec(p, o), replies, o);
}

/// A reply that finds every destination in place: equal, non-empty hashes,
/// or the outcome of union work.
pub open spec fn finds_in_place(reply: ReplyV) -> bool {
    match reply {
        ReplyV::Hashed { src_hash, dst_hash } => dst_hash.len() > 0 && src_hash == dst_hash,
        ReplyV::Unioned(_) => true,
        _ => false,
    }
}

/// A pending run that is not waiting for a copy.
pub open spec fn not_copying(pr: ProgressV) -> bool {
    pr matches ProgressV::Pending(st, req) ==> st.stage != Stage::Copy && req == request_of(st)
}

proof fn lemma_in_place_trace(pr: ProgressV, replies: Seq<ReplyV>)
    requires
        not_copying(pr),
        forall|k: int| 0 <= k < replies.len() ==> finds_in_place(#[trigger] replies[k]),
    ensures
        forall|k: int|
            0 <= k < run_requests(pr, replies).len() ==> !(#[trigger] run_requests(pr, replies)[k] is Copy),
    decreases replies.len(),
{
    if let ProgressV::Pending(st, req) = pr {
        if replies.len() > 0 {
            assert(finds_in_place(replies[0]));
            let next = resume_spec(st, replies[0]);
            assert(not_copying(next));
            assert forall|k: int| 0 <= k < replies.drop_first().len() implies finds_in_place(
                #[trigger] replies.drop_first()[k],
            ) by {
                assert(replies.drop_first()[k] == replies[k + 1]);
            }
            lemma_in_place_trace(next, replies.drop_first());
            let rest = run_requests(next, replies.drop_first());
            assert forall|k: int| 0 <= k < run_requests(pr, replies).len() implies !(
            #[trigger] run_requests(pr, replies)[k] is Copy) by {
                if k > 0 {
                    assert(run_requests(pr, replies)[k] == rest[k - 1]);
                }
            }
        }
    }
}

/// Running a plan again over destinations that already hold their trees
/// copies nothing: when every hash reply finds the destination equal to its
/// source, no request of the whole run asks for a copy.
pub proof fn rerun_over_done_work_copies_nothing(p: PlanV, o: OptionsV, replies: Seq<ReplyV>)
    requires
        forall|k: int| 0 <= k < replies.len() ==> finds_in_place(#[trigger] replies[k]),
    ensures
        forall|k: int|
            0 <= k < run_requests(start_spec(p, o), replies).len() ==> !(#[trigger] run_requests(
                start_spec(p, o),
                replies,
            )[k] is Copy),
{
    lemma_in_place_trace(start_spec(p, o), replies);
}

/// A run never changes its plan, its options or its excludes.
pub proof fn run_keeps_plan_and_options(st: ApplierV, reply: ReplyV)
    requires
        applier_wf(st),
    ensures
        resume_spec(st, reply) matches ProgressV::Pending(st2, _) ==> st2.plan == st.plan && st2.opts == st.opts
            && st2.excludes == st.excludes,
{
    let d = current(st);
    match (st.stage, reply) {
        (Stage::Hash, ReplyV::Hashed { src_hash, dst_hash }) => {
            if dst_hash.len() > 0 && src_hash == dst_hash {
                let st1 = ApplierV {
                    result: ApplyResultV { skipped: (st.result.skipped + 1) as i64, ..st.result },
                    ..st
                };
                lemma_enter_item_pending(st1, st.item + 1);
            }
        },
        (Stage::Copy, ReplyV::Copied(skipped)) => {
            let st1 = ApplierV { result: crate::consolidate::after_copy(st.result, st.item, skipped), ..st };
            lemma_enter_item_pending(st1, st.item + 1);
        },
        (Stage::Union, ReplyV::Unioned(Ok(()))) => {
            let st1 = ApplierV {
                result: ApplyResultV {
                    unioned: (st.result.unioned + d.union_remotes.len()) as i64,
                    ..st.result
                },
                ..st
            };
            if st.decision + 1 < st.plan.decisions.len() {
                lemma_enter_item_pending(ApplierV { decision: st.decision + 1, ..st1 }, 0);
            }
        },
        _ => {},
    }
}

/// A run that finishes well counted every item of every decision once (as
/// copied, quarantined or skipped) and every union remote once.
pub proof fn finished_run_counts_everything(st: ApplierV, reply: ReplyV)
    requires
        applier_wf(st),
    ensures
        resume_spec(st, reply) matches ProgressV::Finished(Ok(res)) ==> {
            &&& res.copied + res.quarantined + res.skipped == items_before(
                st.plan.decisions,
                st.plan.decisions.len() as int,
            )
            &&& res.unioned == unions_before(st.plan.decisions, st.plan.decisions.len() as int)
        },
{
    let d = current(st);
    match (st.stage, reply) {
        (Stage::Hash, ReplyV::Hashed { src_hash, dst_hash }) => {
            if dst_hash.len() > 0 && src_hash == dst_hash {
                let st1 = ApplierV {
                    result: ApplyResultV { skipped: (st.result.skipped + 1) as i64, ..st.result },
                    ..st
                };
                lemma_enter_item_pending(st1, st.item + 1);
            }
        },
        (Stage::Copy, ReplyV::Copied(skipped)) => {
            let st1 = ApplierV { result: crate::consolidate::after_copy(st.result, st.item, skipped), ..st };
            lemma_enter_item_pending(st1, st.item + 1);
        },
        (Stage::Union, ReplyV::Unioned(Ok(()))) => {
            let st1 = ApplierV {
                result: ApplyResultV {
                    unioned: (st.result.unioned + d.union_remotes.len()) as i64,
                    ..st.result
                },
                ..st
            };
            if st.decision + 1 < st.plan.decisions.len() {
                lemma_enter_item_pending(ApplierV { decision: st.decision + 1, ..st1 }, 0);
            } else {
                assert(st.item == items_of(d));
            }
        },
        _ => {},
    }
}

/// A run of a plan without decisions finishes at once with nothing done.
pub proof fn empty_plan_does_nothing(p: PlanV, o: OptionsV)
    requires
        p.decisions.len() == 0,
    ensures
        start_spec(p, o) == ProgressV::Finished(Ok(crate::consolidate::no_counts())),
{
}

/// The scripted runner answers what was scripted: after a response is
/// scripted for a key, a call with that key, for which no error is scripted,
/// returns the response trimmed.
pub proof fn scripted_response_is_answered(
    f: FakeV,
    key: Seq<char>,
    value: Seq<char>,
    dir: Seq<char>,
    args: Seq<Seq<char>>,
)
    requires
        join(args, " "@) == key,
        crate::gitx::lookup(f.errs, key) is None,
    ensures
        fake_answer(FakeV { responses: store(f.responses, key, value), ..f }, dir, args, key) == Ok::<
            Seq<char>,
            GitErrorV,
        >(trim(value)),
{
    lemma_store_lookup(f.responses, key, value);
}

/// A scripted error is answered: after an error is scripted for a key, a
/// call with that key fails with the scripted text as its cause, the call's
/// arguments and directory, and no stderr.
pub proof fn scripted_error_is_answered(
    f: FakeV,
    key: Seq<char>,
    cause: Seq<char>,
    dir: Seq<char>,
    args: Seq<Seq<char>>,
)
    ensures
        fake_answer(FakeV { errs: store(f.errs, key, cause), ..f }, dir, args, key) == Err::<Seq<char>, GitErrorV>(
            GitErrorV { args, dir, cause, stderr: Seq::empty() },
        ),
{
    lemma_store_lookup(f.errs, key, cause);
}

} // verus!

verus! {

proof fn lemma_digit_char_value(d: int)
    requires
        0 <= d < 10,
    ensures
        digit_char(d) as int == 48 + d,
{
}

proof fn lemma_digits_len(n: nat)
    ensures
        digits(n).len() >= 1,
        n >= 10 ==> digits(n).len() >= 2,
    decreases n,
{
    if n >= 10 {
        lemma_digits_len(n / 10);
    }
}

/// Different numbers are written with different digits.
proof fn lemma_digits_injective(a: nat, b: nat)
    requires
        digits(a) == digits(b),
    ensures
        a == b,
    decreases a,
{
    lemma_digits_len(a);
    lemma_digits_len(b);
    if a < 10 && b < 10 {
        assert(digits(a)[0] == digit_char(a as int));
        assert(digits(b)[0] == digit_char(b as int));
        lemma_digit_char_value(a as int);
        lemma_digit_char_value(b as int);
    } else if a >= 10 && b >= 10 {
        assert(digits(a).last() == digit_char((a % 10) as int));
        assert(digits(b).last() == digit_char((b % 10) as int));
        lemma_digit_char_value((a % 10) as int);
        lemma_digit_char_value((b % 10) as int);
        assert(digits(a).drop_last() =~= digits(a / 10));
        assert(digits(b).drop_last() =~= digits(b / 10));
        lemma_digits_injective(a / 10, b / 10);
    }
}

/// The candidate names of a union remote are all different.
proof fn lemma_candidates_distinct(base: Seq<char>, i: nat, j: nat)
    requires
        i != j,
    ensures
        candidate_name(base, i) != candidate_name(base, j),
{
    if i > 0 {
        lemma_digits_len(i);
    }
    if j > 0 {
        lemma_digits_len(j);
    }
    if i > 0 && j > 0 {
        let ci = candidate_name(base, i);
        let cj = candidate_name(base, j);
        if ci == cj {
            reveal_strlit("-");
            assert(crate::text::decimal(i as int) == digits(i));
            assert(crate::text::decimal(j as int) == digits(j));
            let k = base.len() + 1;
            assert(ci.subrange(k as int, ci.len() as int) =~= digits(i));
            assert(cj.subrange(k as int, cj.len() as int) =~= digits(j));
            lemma_digits_injective(i, j);
        }
    } else if i == 0 {
        reveal_strlit("-");
        assert(candidate_name(base, j).len() > base.len());
    } else {
        reveal_strlit("-");
        assert(candidate_name(base, i).len() > base.len());
    }
}

proof fn lemma_pick_fresh(base: Seq<char>, used: Seq<Seq<char>>, i: nat)
    requires
        i <= used.len(),
        forall|j: nat| j < i ==> used.contains(#[trigger] candidate_name(base, j)),
    ensures
        !used.contains(pick_name(base, used, i)),
    decreases used.len() - i,
{
    if !used.contains(candidate_name(base, i)) {
    } else if i >= used.len() {
        let n = used.len();
        let cs = Seq::new(n + 1, |j: int| candidate_name(base, j as nat));
        assert forall|a: int, b: int| 0 <= a < cs.len() && 0 <= b < cs.len() && a != b implies cs[a] != cs[b] by {
            lemma_candidates_distinct(base, a as nat, b as nat);
        }
        assert(cs.no_duplicates());
        cs.unique_seq_to_set();
        assert forall|x: Seq<char>| cs.to_set().contains(x) implies used.to_set().contains(x) by {
            let a = choose|a: int| 0 <= a < cs.len() && cs[a] == x;
            assert(cs[a] == candidate_name(base, a as nat));
            if a < n {
                assert(used.contains(candidate_name(base, a as nat)));
            }
        }
        used.lemma_cardinality_of_set();
        vstd::set_lib::lemma_len_subset(cs.to_set(), used.to_set());
    } else {
        lemma_pick_fresh(base, used, i + 1);
    }
}

/// The name picked for a union remote was not taken before.
pub proof fn unique_name_is_fresh(base: Seq<char>, used: Seq<Seq<char>>)
    ensures
        !used.contains(unique_name(base, used)),
{
    lemma_pick_fresh(base, used, 0);
}

/// Every union remote of a decision is added under a name of its own: the
/// names are pairwise different, one per remote.
pub proof fn union_names_are_distinct(us: Seq<UnionRemoteV>)
    ensures
        union_names(us).len() == us.len(),
        forall|i: int, j: int|
            0 <= i < j < us.len() ==> #[trigger] union_names(us)[i] != #[trigger] union_names(us)[j],
    decreases us.len(),
{
    if us.len() > 0 {
        union_names_are_distinct(us.drop_last());
        let prev = union_names(us.drop_last());
        unique_name_is_fresh(us.last().name, prev);
        assert forall|i: int, j: int| 0 <= i < j < us.len() implies union_names(us)[i] != union_names(us)[j] by {
            if j == us.len() - 1 {
                assert(prev.contains(union_names(us)[i]));
            } else {
                assert(union_names(us)[i] == prev[i]);
                assert(union_names(us)[j] == prev[j]);
            }
        }
    }
}

/// The commands of each union remote under the name it is added as.
pub open spec fn remote_scripts(us: Seq<UnionRemoteV>) -> Seq<Seq<UnionStepV>> {
    Seq::new(us.len(), |i: int| remote_steps(us[i], union_names(us)[i]))
}

/// The union work of a decision is the work of each remote in turn, each
/// under the name [`union_names`] gives it, so no two remotes of a decision
/// reach git under one name (see [`union_names_are_distinct`]).
pub proof fn union_script_is_each_remote_in_turn(us: Seq<UnionRemoteV>)
    ensures
        union_script(us) == remote_scripts(us).flatten_alt(),
    decreases us.len(),
{
    if us.len() > 0 {
        let prev = us.drop_last();
        union_script_is_each_remote_in_turn(prev);
        union_names_are_distinct(us);
        union_names_are_distinct(prev);
        assert(union_names(us) == union_names(prev).push(unique_name(us.last().name, union_names(prev))));
        assert forall|i: int| 0 <= i < prev.len() implies #[trigger] remote_scripts(us)[i] == remote_scripts(prev)[i] by {
            assert(union_names(us)[i] == union_names(prev)[i]);
            assert(us[i] == prev[i]);
        }
        assert(remote_scripts(us).drop_last() =~= remote_scripts(prev));
    }
}

/// A destination that an earlier item of the run took is not used again as
/// it is: the item goes to the planned destination followed by `-` and its
/// suffix. (Distinct destinations are not promised beyond this: the suffixed
/// name may itself have been taken.)
pub proof fn taken_destination_is_not_reused(seen: Seq<Seq<char>>, dest: Seq<char>, c: CopyV)
    requires
        seen.contains(dest),
    ensures
        disambiguated(seen, dest, c) == dest + "-"@ + dest_suffix(c),
        disambiguated(seen, dest, c) != dest,
{
    reveal_strlit("-");
    assert(disambiguated(seen, dest, c).len() > dest.len());
}

/// The requests a run of decisions `i` onwards makes at most: for each
/// decision, a hash and a copy per item and the union work.
pub open spec fn requests_from(ds: Seq<DecisionV>, i: int) -> int
    decreases ds.len() - i,
{
    if i < 0 || i >= ds.len() {
        0
    } else {
        2 * items_of(ds[i]) + 1 + requests_from(ds, i + 1)
    }
}

/// The requests a run still makes at most, the pending one included.
pub open spec fn requests_left(st: ApplierV) -> int {
    let d = current(st);
    requests_from(st.plan.decisions, st.decision + 1) + match st.stage {
        Stage::Hash => 2 * (items_of(d) - st.item - 1) + 3,
        Stage::Copy => 2 * (items_of(d) - st.item - 1) + 2,
        Stage::Union => 1,
    }
}

/// The reply is of the kind the pending request asks for.
pub open spec fn answers(stage: Stage, reply: ReplyV) -> bool {
    match stage {
        Stage::Hash => reply is Hashed || reply is HashFailed,
        Stage::Copy => reply is Copied || reply is CopyFailed,
        Stage::Union => reply is Unioned,
    }
}

/// Every run comes to an end: each reply that answers the pending request
/// either ends the run or leaves fewer requests to come, and the number of
/// requests to come is never negative.
pub proof fn every_answer_brings_the_end_closer(st: ApplierV, reply: ReplyV)
    requires
        applier_wf(st),
        answers(st.stage, reply),
    ensures
        requests_left(st) > 0,
        resume_spec(st, reply) matches ProgressV::Pending(st2, _) ==> 0 < requests_left(st2) < requests_left(st),
{
    let ds = st.plan.decisions;
    let d = current(st);
    lemma_requests_from_nonneg(ds, st.decision + 1);
    match (st.stage, reply) {
        (Stage::Hash, ReplyV::Hashed { src_hash, dst_hash }) => {
            if dst_hash.len() > 0 && src_hash == dst_hash {
                let st1 = ApplierV {
                    result: ApplyResultV { skipped: (st.result.skipped + 1) as i64, ..st.result },
                    ..st
                };
                lemma_enter_item_pending(st1, st.item + 1);
            }
        },
        (Stage::Copy, ReplyV::Copied(skipped)) => {
            let st1 = ApplierV { result: crate::consolidate::after_copy(st.result, st.item, skipped), ..st };
            lemma_enter_item_pending(st1, st.item + 1);
        },
        (Stage::Union, ReplyV::Unioned(Ok(()))) => {
            let st1 = ApplierV {
                result: ApplyResultV {
                    unioned: (st.result.unioned + d.union_remotes.len()) as i64,
                    ..st.result
                },
                ..st
            };
            if st.decision + 1 < ds.len() {
                let st2 = ApplierV { decision: st.decision + 1, ..st1 };
                lemma_enter_item_pending(st2, 0);
                lemma_requests_from_nonneg(ds, st.decision + 2);
            }
        },
        _ => {},
    }
}

proof fn lemma_requests_from_nonneg(ds: Seq<DecisionV>, i: int)
    ensures
        requests_from(ds, i) >= 0,
    decreases ds.len() - i,
{
    if 0 <= i < ds.len() {
        lemma_requests_from_nonneg(ds, i + 1);
    }
}

} // verus!
