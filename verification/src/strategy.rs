//! The planned action (`Decision`) for a `Group`: which copy is canonical,
//! where it goes, and what happens to every other copy.
use vstd::prelude::*;

use crate::discover::{source_disc_for, source_disc_spec};
use crate::model::{
    score_fits, score_spec, BranchV, CopyV, Decision, DecisionV, Group, GroupV, QuarantineItem,
    QuarantineItemV, StrategyKind, UnionRemote, UnionRemoteV,
};
use crate::text::{
    append_chars, append_str, chars_eq, contains_string, from_chars, is_separator_choice,
    join, join_chars, lemma_deep_view_push, main_separator, split_chars, split_on, string_chars,
    to_chars,
};

verus! {

// ---------------------------------------------------------------------------
// Lexical path joining and cleaning, on forward-slash paths.

/// One step of lexical cleaning over the stack of kept components.
pub open spec fn clean_step(stack: Seq<Seq<char>>, comp: Seq<char>, rooted: bool) -> Seq<Seq<char>> {
    if comp.len() == 0 || comp == "."@ {
        stack
    } else if comp == ".."@ {
        if stack.len() > 0 && stack.last() != ".."@ {
            stack.drop_last()
        } else if rooted {
            stack
        } else {
            stack.push(".."@)
        }
    } else {
        stack.push(comp)
    }
}

/// The kept components after cleaning the first `n` components.
pub open spec fn clean_fold(comps: Seq<Seq<char>>, rooted: bool, n: int) -> Seq<Seq<char>>
    decreases n,
{
    if n <= 0 {
        Seq::empty()
    } else {
        clean_step(clean_fold(comps, rooted, n - 1), comps[n - 1], rooted)
    }
}

/// The shortest path lexically equivalent to `p`: empty and `.` components
/// dropped, `..` resolved against the preceding name (dropped at a root),
/// no trailing slash; the empty path cleans to `.`.
pub open spec fn clean_spec(p: Seq<char>) -> Seq<char> {
    if p.len() == 0 {
        "."@
    } else {
        let rooted = p[0] == '/';
        let comps = split_on(p, '/');
        let body = join(clean_fold(comps, rooted, comps.len() as int), "/"@);
        if rooted {
            seq!['/'] + body
        } else if body.len() == 0 {
            "."@
        } else {
            body
        }
    }
}

/// The non-empty elements of `parts`, in order.
pub open spec fn non_empty(parts: Seq<Seq<char>>) -> Seq<Seq<char>>
    decreases parts.len(),
{
    if parts.len() == 0 {
        Seq::empty()
    } else if parts.last().len() == 0 {
        non_empty(parts.drop_last())
    } else {
        non_empty(parts.drop_last()).push(parts.last())
    }
}

/// The non-empty elements joined with `/` and cleaned.
pub open spec fn path_join_spec(parts: Seq<Seq<char>>) -> Seq<char> {
    clean_spec(join(non_empty(parts), "/"@))
}

/// Whether `v` holds exactly the text `lit`.
fn is_lit(v: &Vec<char>, lit: &str) -> (r: bool)
    ensures
        r == (v@ == lit@),
{
    let l = to_chars(lit);
    chars_eq(v, &l)
}

/// Lexical cleaning of a forward-slash path, as [`clean_spec`] states it.
pub fn path_clean(path: &str) -> (r: String)
    ensures
        r@ == clean_spec(path@),
{
    let p = to_chars(path);
    if p.len() == 0 {
        return ".".to_string();
    }
    let rooted = p[0] == '/';
    let comps = split_chars(&p, '/');
    let mut stack: Vec<Vec<char>> = Vec::new();
    let dotdot = to_chars("..");
    for i in 0..comps.len()
        invariant
            comps.deep_view() == split_on(p@, '/'),
            rooted == (p@[0] == '/'),
            dotdot@ == ".."@,
            stack.deep_view() == clean_fold(comps.deep_view(), rooted, i as int),
    {
        let comp = &comps[i];
        proof {
            assert(comp.deep_view() =~= comp@);
            assert(comps.deep_view()[i as int] == comp@);
        }
        let ghost before = stack;
        if comp.len() == 0 || is_lit(comp, ".") {
        } else if is_lit(comp, "..") {
            let n = stack.len();
            if n > 0 && !is_lit(&stack[n - 1], "..") {
                proof {
                    assert(stack.deep_view().last() == stack@[n - 1]@);
                }
                stack.pop();
                proof {
                    assert(stack.deep_view() =~= before.deep_view().drop_last());
                }
            } else if rooted {
            } else {
                proof {
                    if n > 0 {
                        assert(stack.deep_view().last() == stack@[n - 1]@);
                    }
                }
                stack.push(to_chars(".."));
                proof {
                    lemma_deep_view_push(before, stack, stack@[n as int]);
                    assert(stack@[n as int].deep_view() =~= stack@[n as int]@);
                }
            }
        } else {
            let n = stack.len();
            let c2 = crate::text::sub_chars(comp, 0, comp.len());
            assert(c2@ =~= comp@);
            stack.push(c2);
            proof {
                lemma_deep_view_push(before, stack, stack@[n as int]);
                assert(stack@[n as int].deep_view() =~= stack@[n as int]@);
            }
        }
    }
    let sep = to_chars("/");
    let body = join_chars(&stack, &sep);
    if rooted {
        let mut out: Vec<char> = Vec::new();
        out.push('/');
        append_chars(&mut out, &body);
        assert(out@ =~= seq!['/'] + body@);
        from_chars(&out)
    } else if body.len() == 0 {
        ".".to_string()
    } else {
        from_chars(&body)
    }
}

/// Joins the non-empty elements with `/` and cleans the result.
pub fn path_join(parts: &Vec<String>) -> (r: String)
    ensures
        r@ == path_join_spec(parts.deep_view()),
{
    let mut kept: Vec<String> = Vec::new();
    for i in 0..parts.len()
        invariant
            kept.deep_view() == non_empty(parts.deep_view().take(i as int)),
    {
        proof {
            assert(parts.deep_view().take(i + 1).drop_last() =~= parts.deep_view().take(i as int));
        }
        if !parts[i].as_str().is_empty() {
            let ghost before = kept;
            let s = parts[i].clone();
            kept.push(s);
            proof {
                lemma_deep_view_push(before, kept, s);
            }
        } else {
            proof {
                assert(parts.deep_view()[i as int] == parts@[i as int]@);
            }
        }
    }
    assert(parts.deep_view().take(parts@.len() as int) =~= parts.deep_view());
    let joined = crate::text::join_strings(&kept, "/");
    path_clean(joined.as_str())
}

// ---------------------------------------------------------------------------
// Choosing the canonical copy.

/// Machine priority for ties: live > acer > dell > drive > anything else.
pub open spec fn machine_rank_spec(m: Seq<char>) -> int {
    if m == "live"@ {
        0
    } else if m == "acer"@ {
        1
    } else if m == "dell"@ {
        2
    } else if m == "drive"@ {
        3
    } else {
        4
    }
}

fn machine_rank(m: &String) -> (r: i32)
    ensures
        r == machine_rank_spec(m@),
{
    let v = string_chars(m);
    if is_lit(&v, "live") {
        0
    } else if is_lit(&v, "acer") {
        1
    } else if is_lit(&v, "dell") {
        2
    } else if is_lit(&v, "drive") {
        3
    } else {
        4
    }
}

/// `c` beats `best`: a strictly higher score, or an equal score and a
/// strictly better machine rank.
pub open spec fn beats(c: CopyV, best: CopyV) -> bool {
    score_spec(c.fp) > score_spec(best.fp) || (score_spec(c.fp) == score_spec(best.fp)
        && machine_rank_spec(c.machine) < machine_rank_spec(best.machine))
}

/// The index of the canonical copy among the first `n` copies: the first
/// copy, replaced by each later copy that beats the current best.
pub open spec fn best_index(copies: Seq<CopyV>, n: int) -> int
    decreases n,
{
    if n <= 1 {
        0
    } else {
        let b = best_index(copies, n - 1);
        if beats(copies[n - 1], copies[b]) {
            n - 1
        } else {
            b
        }
    }
}

/// The canonical copy of a non-empty list of copies.
pub open spec fn canonical_of(copies: Seq<CopyV>) -> CopyV {
    copies[best_index(copies, copies.len() as int)]
}

/// The reason recorded for a canonical choice.
pub open spec fn canonical_reason_spec(machine: Seq<char>) -> Seq<char> {
    "highest richness score; machine="@ + machine
}

/// Every copy's score is representable as an `i64`.
pub open spec fn scores_fit(copies: Seq<CopyV>) -> bool {
    forall|i: int| 0 <= i < copies.len() ==> score_fits(#[trigger] copies[i].fp)
}

/// The best index lies within the first `n` copies.
pub proof fn lemma_best_index_bound(copies: Seq<CopyV>, n: int)
    requires
        1 <= n,
    ensures
        0 <= best_index(copies, n) < n,
    decreases n,
{
    if n > 1 {
        lemma_best_index_bound(copies, n - 1);
    }
}

/// choose_canonical picks the richest copy; ties broken by machine priority
/// live>acer>dell>drive, the earliest copy winning full ties.
pub fn choose_canonical(copies: &[crate::model::Copy]) -> (r: (crate::model::Copy, String))
    requires
        copies@.len() > 0,
        scores_fit(copies.deep_view()),
    ensures
        r.0@ == canonical_of(copies.deep_view()),
        r.1@ == canonical_reason_spec(r.0@.machine),
{
    let mut best: usize = 0;
    let mut i: usize = 1;
    proof {
        assert(score_fits(copies.deep_view()[0].fp));
    }
    while i < copies.len()
        invariant
            1 <= i <= copies@.len(),
            scores_fit(copies.deep_view()),
            best == best_index(copies.deep_view(), i as int),
            best < i,
        decreases copies@.len() - i,
    {
        let c = &copies[i];
        let b = &copies[best];
        proof {
            assert(copies.deep_view()[i as int] == c@);
            assert(copies.deep_view()[best as int] == b@);
            assert(score_fits(copies.deep_view()[i as int].fp));
            assert(score_fits(copies.deep_view()[best as int].fp));
        }
        let cs = c.fp.score();
        let bs = b.fp.score();
        if cs > bs || (cs == bs && machine_rank(&c.machine) < machine_rank(&b.machine)) {
            best = i;
        }
        i = i + 1;
    }
    let chosen = copies[best].clone();
    proof {
        assert(copies.deep_view()[best as int] == copies@[best as int]@);
    }
    let reason = crate::text::concat_str("highest richness score; machine=", chosen.machine.as_str());
    (chosen, reason)
}

/// The canonical copy scores at least as high as every copy.
pub proof fn lemma_best_is_richest(copies: Seq<CopyV>, n: int)
    requires
        1 <= n <= copies.len(),
    ensures
        forall|k: int|
            0 <= k < n ==> score_spec(#[trigger] copies[k].fp) <= score_spec(
                copies[best_index(copies, n)].fp,
            ),
    decreases n,
{
    if n > 1 {
        lemma_best_is_richest(copies, n - 1);
        lemma_best_index_bound(copies, n - 1);
    }
}

/// Among the copies with the top score, the canonical copy has the best
/// machine rank.
pub proof fn lemma_best_rank_among_ties(copies: Seq<CopyV>, n: int)
    requires
        1 <= n <= copies.len(),
    ensures
        forall|k: int|
            0 <= k < n && score_spec(#[trigger] copies[k].fp) == score_spec(
                copies[best_index(copies, n)].fp,
            ) ==> machine_rank_spec(copies[best_index(copies, n)].machine) <= machine_rank_spec(
                copies[k].machine,
            ),
    decreases n,
{
    if n > 1 {
        lemma_best_rank_among_ties(copies, n - 1);
        lemma_best_is_richest(copies, n - 1);
        lemma_best_index_bound(copies, n - 1);
    }
}

// ---------------------------------------------------------------------------
// Commits of one copy that the canonical copy lacks.

/// The commits of `other` absent from `have`, in `other`'s order.
pub open spec fn unreachable_spec(have: Seq<Seq<char>>, other: Seq<Seq<char>>) -> Seq<Seq<char>>
    decreases other.len(),
{
    if other.len() == 0 {
        Seq::empty()
    } else if have.contains(other.last()) {
        unreachable_spec(have, other.drop_last())
    } else {
        unreachable_spec(have, other.drop_last()).push(other.last())
    }
}

/// unreachable returns commits present in `other` but not in `canonical`,
/// preserving `other`'s order.
pub fn unreachable(canonical: &crate::model::Copy, other: &crate::model::Copy) -> (r: Vec<String>)
    ensures
        r.deep_view() == unreachable_spec(canonical@.fp.all_commits, other@.fp.all_commits),
{
    let have = &canonical.fp.all_commits;
    let theirs = &other.fp.all_commits;
    let mut r: Vec<String> = Vec::new();
    for i in 0..theirs.len()
        invariant
            r.deep_view() == unreachable_spec(have.deep_view(), theirs.deep_view().take(i as int)),
    {
        proof {
            assert(theirs.deep_view().take(i + 1).drop_last() =~= theirs.deep_view().take(i as int));
            assert(theirs.deep_view()[i as int] == theirs@[i as int]@);
        }
        if !contains_string(have, &theirs[i]) {
            let ghost before = r;
            let s = theirs[i].clone();
            r.push(s);
            proof {
                lemma_deep_view_push(before, r, s);
            }
        }
    }
    assert(theirs.deep_view().take(theirs@.len() as int) =~= theirs.deep_view());
    r
}

/// Why a divergent copy is quarantined.
pub open spec fn reason_spec(missing: Seq<Seq<char>>, c: CopyV) -> Seq<char> {
    if missing.len() > 0 {
        "unreachable-commits"@
    } else if c.fp.dirty_count > 0 {
        "uncommitted-changes"@
    } else if c.fp.untracked_count > 0 {
        "untracked-files"@
    } else {
        "stashed-changes"@
    }
}

fn reason_for(missing: &Vec<String>, c: &crate::model::Copy) -> (r: String)
    ensures
        r@ == reason_spec(missing.deep_view(), c@),
{
    if missing.len() > 0 {
        "unreachable-commits".to_string()
    } else if c.fp.dirty_count > 0 {
        "uncommitted-changes".to_string()
    } else if c.fp.untracked_count > 0 {
        "untracked-files".to_string()
    } else {
        "stashed-changes".to_string()
    }
}

// ---------------------------------------------------------------------------
// The decision.

/// How many copies come from machine `m`.
pub open spec fn machine_count(copies: Seq<CopyV>, m: Seq<char>) -> int
    decreases copies.len(),
{
    if copies.len() == 0 {
        0
    } else {
        machine_count(copies.drop_last(), m) + if copies.last().machine == m {
            1int
        } else {
            0int
        }
    }
}

/// The copy's machine label, disambiguated by its source discriminator when
/// another copy of the group comes from the same machine.
pub open spec fn label_spec(sep: char, c: CopyV, collides: bool) -> Seq<char> {
    if !collides {
        c.machine
    } else {
        c.machine + "-"@ + source_disc_spec(sep, c.path)
    }
}

/// A non-canonical copy of a remote-backed group must be preserved
/// side-by-side: it has commits the canonical copy lacks, or local changes.
pub open spec fn needs_quarantine(missing: Seq<Seq<char>>, c: CopyV) -> bool {
    missing.len() > 0 || c.fp.dirty_count > 0 || c.fp.untracked_count > 0 || c.fp.stash_count > 0
}

/// The quarantine item for copy `c` of group `g`.
pub open spec fn quarantine_item_spec(sep: char, g: GroupV, canon: CopyV, c: CopyV) -> QuarantineItemV {
    let missing = unreachable_spec(canon.fp.all_commits, c.fp.all_commits);
    QuarantineItemV {
        copy: c,
        dest_path: path_join_spec(
            seq!["_quarantine"@, g.repo_name, label_spec(sep, c, machine_count(g.copies, c.machine) > 1)],
        ),
        reason: reason_spec(missing, c),
        unreachable_commits: missing,
    }
}

/// Quarantine items for the first `n` copies (Strategy A).
pub open spec fn quarantine_spec(sep: char, g: GroupV, canon: CopyV, n: int) -> Seq<QuarantineItemV>
    decreases n,
{
    if n <= 0 {
        Seq::empty()
    } else {
        let prev = quarantine_spec(sep, g, canon, n - 1);
        let c = g.copies[n - 1];
        if c.path != canon.path && needs_quarantine(
            unreachable_spec(canon.fp.all_commits, c.fp.all_commits),
            c,
        ) {
            prev.push(quarantine_item_spec(sep, g, canon, c))
        } else {
            prev
        }
    }
}

/// Paths of the redundant copies among the first `n` copies (Strategy A).
pub open spec fn redundant_spec(g: GroupV, canon: CopyV, n: int) -> Seq<Seq<char>>
    decreases n,
{
    if n <= 0 {
        Seq::empty()
    } else {
        let prev = redundant_spec(g, canon, n - 1);
        let c = g.copies[n - 1];
        if c.path != canon.path && !needs_quarantine(
            unreachable_spec(canon.fp.all_commits, c.fp.all_commits),
            c,
        ) {
            prev.push(c.path)
        } else {
            prev
        }
    }
}

/// The names of a copy's branches.
pub open spec fn branch_names(bs: Seq<BranchV>) -> Seq<Seq<char>> {
    Seq::new(bs.len(), |i: int| bs[i].name)
}

/// The union remote for copy `c` of group `g`.
pub open spec fn union_item_spec(sep: char, g: GroupV, c: CopyV) -> UnionRemoteV {
    UnionRemoteV {
        name: "consolidate-"@ + label_spec(sep, c, machine_count(g.copies, c.machine) > 1),
        path: c.path,
        branches: branch_names(c.fp.branches),
    }
}

/// Union remotes for the first `n` copies (Strategy B).
pub open spec fn union_spec(sep: char, g: GroupV, canon: CopyV, n: int) -> Seq<UnionRemoteV>
    decreases n,
{
    if n <= 0 {
        Seq::empty()
    } else {
        let prev = union_spec(sep, g, canon, n - 1);
        let c = g.copies[n - 1];
        if c.path != canon.path {
            prev.push(union_item_spec(sep, g, c))
        } else {
            prev
        }
    }
}

/// The snapshot item of copy `c` of group `g` (Strategy C): the copy kept
/// verbatim beside the canonical one, for a lineage it does not share.
pub open spec fn snapshot_item_spec(sep: char, g: GroupV, canon: CopyV, c: CopyV) -> QuarantineItemV {
    QuarantineItemV {
        copy: c,
        dest_path: path_join_spec(
            seq!["_quarantine"@, g.repo_name, label_spec(sep, c, machine_count(g.copies, c.machine) > 1)],
        ),
        reason: "different-lineage"@,
        unreachable_commits: unreachable_spec(canon.fp.all_commits, c.fp.all_commits),
    }
}

/// Snapshot items for the first `n` copies: every copy but the canonical
/// one (Strategy C).
pub open spec fn snapshot_spec(sep: char, g: GroupV, canon: CopyV, n: int) -> Seq<QuarantineItemV>
    decreases n,
{
    if n <= 0 {
        Seq::empty()
    } else {
        let prev = snapshot_spec(sep, g, canon, n - 1);
        let c = g.copies[n - 1];
        if c.path != canon.path {
            prev.push(snapshot_item_spec(sep, g, canon, c))
        } else {
            prev
        }
    }
}

/// Two lists of root commits hold the same commits.
pub open spec fn same_roots(a: Seq<Seq<char>>, b: Seq<Seq<char>>) -> bool {
    &&& forall|i: int| 0 <= i < a.len() ==> b.contains(#[trigger] a[i])
    &&& forall|j: int| 0 <= j < b.len() ==> a.contains(#[trigger] b[j])
}

/// Two copies with history do not share their lineage: their non-empty
/// root-commit sets differ.
pub open spec fn lineages_differ(copies: Seq<CopyV>) -> bool {
    exists|i: int, j: int|
        0 <= i < copies.len() && 0 <= j < copies.len() && #[trigger] copies[i].fp.root_commits.len() > 0
            && #[trigger] copies[j].fp.root_commits.len() > 0 && !same_roots(
            copies[i].fp.root_commits,
            copies[j].fp.root_commits,
        )
}

/// The strategy of a group: A with a known remote; without one, B when its
/// copies share lineage and C (verbatim snapshot) when they do not.
pub open spec fn strategy_of(g: GroupV) -> StrategyKind {
    if g.has_remote {
        StrategyKind::A
    } else if lineages_differ(g.copies) {
        StrategyKind::C
    } else {
        StrategyKind::B
    }
}

/// The owner directory of a group: its owner, or `personal` when it has none.
pub open spec fn owner_dir(g: GroupV) -> Seq<char> {
    if g.owner.len() == 0 {
        "personal"@
    } else {
        g.owner
    }
}

/// The decision for group `g` under `dest_root`, on a platform whose path
/// separator is `sep`.
pub open spec fn decide_spec(sep: char, g: GroupV, dest_root: Seq<char>) -> DecisionV {
    let canon = canonical_of(g.copies);
    let n = g.copies.len() as int;
    let st = strategy_of(g);
    DecisionV {
        group: g,
        strategy: st,
        canonical: canon,
        canonical_reason: canonical_reason_spec(canon.machine),
        dest_path: path_join_spec(seq![dest_root, owner_dir(g), g.repo_name]),
        quarantine: match st {
            StrategyKind::A => quarantine_spec(sep, g, canon, n),
            StrategyKind::B => Seq::empty(),
            StrategyKind::C => snapshot_spec(sep, g, canon, n),
        },
        redundant: if st == StrategyKind::A {
            redundant_spec(g, canon, n)
        } else {
            Seq::empty()
        },
        union_remotes: if st == StrategyKind::B {
            union_spec(sep, g, canon, n)
        } else {
            Seq::empty()
        },
    }
}

fn count_machine(copies: &Vec<crate::model::Copy>, m: &String) -> (r: usize)
    ensures
        r == machine_count(copies.deep_view(), m@),
{
    let mut r: usize = 0;
    for i in 0..copies.len()
        invariant
            r == machine_count(copies.deep_view().take(i as int), m@),
            r <= i,
    {
        proof {
            assert(copies.deep_view().take(i + 1).drop_last() =~= copies.deep_view().take(i as int));
            assert(copies.deep_view()[i as int] == copies@[i as int]@);
        }
        if copies[i].machine == *m {
            r = r + 1;
        }
    }
    assert(copies.deep_view().take(copies@.len() as int) =~= copies.deep_view());
    r
}

fn label(c: &crate::model::Copy, collides: bool, sep: char) -> (r: String)
    ensures
        r@ == label_spec(sep, c@, collides),
{
    if !collides {
        c.machine.clone()
    } else {
        let mut v = string_chars(&c.machine);
        append_str(&mut v, "-");
        let d = source_disc_for(c.path.as_str(), sep);
        append_str(&mut v, d.as_str());
        from_chars(&v)
    }
}

fn branch_names_of(c: &crate::model::Copy) -> (r: Vec<String>)
    ensures
        r.deep_view() == branch_names(c@.fp.branches),
{
    let bs = &c.fp.branches;
    let mut r: Vec<String> = Vec::new();
    for i in 0..bs.len()
        invariant
            r.deep_view() == branch_names(bs.deep_view()).take(i as int),
    {
        let ghost before = r;
        let s = bs[i].name.clone();
        r.push(s);
        proof {
            lemma_deep_view_push(before, r, s);
            assert(bs.deep_view()[i as int] == bs@[i as int]@);
            assert(r.deep_view() =~= branch_names(bs.deep_view()).take(i + 1));
        }
    }
    assert(branch_names(bs.deep_view()).take(bs@.len() as int) =~= branch_names(bs.deep_view()));
    r
}

/// Whether two lists of root commits hold the same commits.
fn same_roots_exec(a: &Vec<String>, b: &Vec<String>) -> (r: bool)
    ensures
        r == same_roots(a.deep_view(), b.deep_view()),
{
    for i in 0..a.len()
        invariant
            forall|k: int| 0 <= k < i ==> b.deep_view().contains(#[trigger] a.deep_view()[k]),
    {
        proof {
            assert(a.deep_view()[i as int] == a@[i as int]@);
        }
        if !contains_string(b, &a[i]) {
            return false;
        }
    }
    for j in 0..b.len()
        invariant
            forall|k: int| 0 <= k < a@.len() ==> b.deep_view().contains(#[trigger] a.deep_view()[k]),
            forall|k: int| 0 <= k < j ==> a.deep_view().contains(#[trigger] b.deep_view()[k]),
    {
        proof {
            assert(b.deep_view()[j as int] == b@[j as int]@);
        }
        if !contains_string(a, &b[j]) {
            return false;
        }
    }
    true
}

/// Whether two copies with history do not share their lineage.
fn lineages_differ_exec(copies: &Vec<crate::model::Copy>) -> (r: bool)
    ensures
        r == lineages_differ(copies.deep_view()),
{
    let ghost cs = copies.deep_view();
    for i in 0..copies.len()
        invariant
            cs == copies.deep_view(),
            forall|a: int, b: int|
                0 <= a < i && 0 <= b < cs.len() && #[trigger] cs[a].fp.root_commits.len() > 0
                    && #[trigger] cs[b].fp.root_commits.len() > 0 ==> same_roots(
                    cs[a].fp.root_commits,
                    cs[b].fp.root_commits,
                ),
    {
        let ri = &copies[i].fp.root_commits;
        proof {
            assert(cs[i as int] == copies@[i as int]@);
        }
        for j in 0..copies.len()
            invariant
                cs == copies.deep_view(),
                i < cs.len(),
                ri.deep_view() == cs[i as int].fp.root_commits,
                forall|a: int, b: int|
                    0 <= a < i && 0 <= b < cs.len() && #[trigger] cs[a].fp.root_commits.len() > 0
                        && #[trigger] cs[b].fp.root_commits.len() > 0 ==> same_roots(
                        cs[a].fp.root_commits,
                        cs[b].fp.root_commits,
                    ),
                forall|b: int|
                    0 <= b < j && cs[i as int].fp.root_commits.len() > 0 && #[trigger] cs[b].fp.root_commits.len()
                        > 0 ==> same_roots(cs[i as int].fp.root_commits, cs[b].fp.root_commits),
        {
            let rj = &copies[j].fp.root_commits;
            proof {
                assert(cs[j as int] == copies@[j as int]@);
            }
            if ri.len() > 0 && rj.len() > 0 && !same_roots_exec(ri, rj) {
                assert(cs[i as int].fp.root_commits.len() > 0 && cs[j as int].fp.root_commits.len() > 0);
                return true;
            }
        }
    }
    false
}

/// Decide produces the planned action for a group, on a platform whose
/// path separator is `sep`.
pub fn decide_for(g: &Group, dest_root: &str, sep: char) -> (d: Decision)
    requires
        g@.copies.len() > 0,
        scores_fit(g@.copies),
    ensures
        d@ == decide_spec(sep, g@, dest_root@),
{
    let (canonical, reason) = choose_canonical(g.copies.as_slice());
    let owner = if g.owner.as_str().is_empty() {
        "personal".to_string()
    } else {
        g.owner.clone()
    };
    let mut parts: Vec<String> = Vec::new();
    parts.push(dest_root.to_string());
    parts.push(owner);
    parts.push(g.repo_name.clone());
    assert(parts.deep_view() =~= seq![dest_root@, owner_dir(g@), g@.repo_name]);
    let dest_path = path_join(&parts);
    let ghost canon = canonical@;
    let ghost n = g@.copies.len() as int;
    let mut quarantine: Vec<QuarantineItem> = Vec::new();
    let mut redundant: Vec<String> = Vec::new();
    let mut union_remotes: Vec<UnionRemote> = Vec::new();
    let strategy = if g.has_remote {
        StrategyKind::A
    } else if lineages_differ_exec(&g.copies) {
        StrategyKind::C
    } else {
        StrategyKind::B
    };
    for i in 0..g.copies.len()
        invariant
            canon == canonical_of(g@.copies),
            canonical@ == canon,
            strategy == strategy_of(g@),
            strategy == StrategyKind::A ==> quarantine.deep_view() == quarantine_spec(sep, g@, canon, i as int),
            strategy == StrategyKind::A ==> redundant.deep_view() == redundant_spec(g@, canon, i as int),
            strategy == StrategyKind::C ==> quarantine.deep_view() == snapshot_spec(sep, g@, canon, i as int),
            strategy != StrategyKind::A ==> redundant.deep_view() == Seq::<Seq<char>>::empty(),
            strategy != StrategyKind::B ==> union_remotes.deep_view() == Seq::<UnionRemoteV>::empty(),
            strategy == StrategyKind::B ==> union_remotes.deep_view() == union_spec(sep, g@, canon, i as int),
            strategy == StrategyKind::B ==> quarantine.deep_view() == Seq::<QuarantineItemV>::empty(),
    {
        let c = &g.copies[i];
        proof {
            assert(g@.copies[i as int] == c@);
        }
        if c.path != canonical.path {
            let n_same = count_machine(&g.copies, &c.machine);
            let collides = n_same > 1;
            if strategy == StrategyKind::C {
                let mut qparts: Vec<String> = Vec::new();
                qparts.push("_quarantine".to_string());
                qparts.push(g.repo_name.clone());
                qparts.push(label(c, collides, sep));
                assert(qparts.deep_view() =~= seq![
                    "_quarantine"@,
                    g@.repo_name,
                    label_spec(sep, c@, machine_count(g@.copies, c@.machine) > 1),
                ]);
                let missing = unreachable(&canonical, c);
                let item = QuarantineItem {
                    copy: c.clone(),
                    dest_path: path_join(&qparts),
                    reason: "different-lineage".to_string(),
                    unreachable_commits: missing,
                };
                let ghost before = quarantine;
                let ghost it = item;
                quarantine.push(item);
                proof {
                    lemma_deep_view_push(before, quarantine, it);
                }
            } else if strategy == StrategyKind::A {
                let missing = unreachable(&canonical, c);
                if missing.len() > 0 || c.fp.dirty_count > 0 || c.fp.untracked_count > 0
                    || c.fp.stash_count > 0 {
                    let mut qparts: Vec<String> = Vec::new();
                    qparts.push("_quarantine".to_string());
                    qparts.push(g.repo_name.clone());
                    qparts.push(label(c, collides, sep));
                    assert(qparts.deep_view() =~= seq![
                        "_quarantine"@,
                        g@.repo_name,
                        label_spec(sep, c@, machine_count(g@.copies, c@.machine) > 1),
                    ]);
                    let reason = reason_for(&missing, c);
                    let item = QuarantineItem {
                        copy: c.clone(),
                        dest_path: path_join(&qparts),
                        reason,
                        unreachable_commits: missing,
                    };
                    let ghost before = quarantine;
                    let ghost it = item;
                    quarantine.push(item);
                    proof {
                        lemma_deep_view_push(before, quarantine, it);
                    }
                } else {
                    let ghost before = redundant;
                    let p = c.path.clone();
                    redundant.push(p);
                    proof {
                        lemma_deep_view_push(before, redundant, p);
                    }
                }
            } else {
                let lab = label(c, collides, sep);
                let mut name = to_chars("consolidate-");
                append_str(&mut name, lab.as_str());
                let item = UnionRemote {
                    name: from_chars(&name),
                    path: c.path.clone(),
                    branches: branch_names_of(c),
                };
                let ghost before = union_remotes;
                let ghost it = item;
                union_remotes.push(item);
                proof {
                    lemma_deep_view_push(before, union_remotes, it);
                }
            }
        }
    }
    let group = g.clone();
    let canonical_reason = reason;
    Decision {
        group,
        strategy,
        canonical,
        canonical_reason,
        dest_path,
        quarantine,
        redundant,
        union_remotes,
    }
}

/// Decide produces the planned action for a group.
pub fn decide(g: &Group, dest_root: &str) -> (d: Decision)
    requires
        g@.copies.len() > 0,
        scores_fit(g@.copies),
    ensures
        exists|sep: char| is_separator_choice(sep) && d@ == decide_spec(sep, g@, dest_root@),
{
    let sep = main_separator();
    let d = decide_for(g, dest_root, sep);
    assert(is_separator_choice(sep) && d@ == decide_spec(sep, g@, dest_root@));
    d
}

} // verus!
