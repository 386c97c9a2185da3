//! The data of the pipeline: copies, fingerprints, groups, decisions, plans.
//!
//! Every type has a view: a spec struct of the same shape whose strings are
//! `Seq<char>`, against which the contracts of the library are written.
use vstd::prelude::*;

use crate::clock::{year_one_secs, zero_time, Timestamp};

verus! {

/// View of a [`Branch`].
pub struct BranchV {
    pub name: Seq<char>,
    pub tip: Seq<char>,
}

/// View of a [`Fingerprint`].
pub struct FingerprintV {
    pub head: Seq<char>,
    pub root_commits: Seq<Seq<char>>,
    pub all_commits: Seq<Seq<char>>,
    pub branches: Seq<BranchV>,
    pub ahead: i64,
    pub behind: i64,
    pub dirty_count: i64,
    pub untracked_count: i64,
    pub stash_count: i64,
    pub commit_count: i64,
    pub last_commit: Timestamp,
    pub worktree_size: i64,
    pub dir_mtime: Timestamp,
}

/// View of a [`Copy`].
pub struct CopyV {
    pub path: Seq<char>,
    pub root: Seq<char>,
    pub machine: Seq<char>,
    pub owner: Seq<char>,
    pub repo_name: Seq<char>,
    pub remote_url: Seq<char>,
    pub fp: FingerprintV,
}

/// View of a [`Group`].
pub struct GroupV {
    pub key: Seq<char>,
    pub owner: Seq<char>,
    pub repo_name: Seq<char>,
    pub has_remote: bool,
    pub remote_url: Seq<char>,
    pub copies: Seq<CopyV>,
}

/// View of a [`QuarantineItem`].
pub struct QuarantineItemV {
    pub copy: CopyV,
    pub dest_path: Seq<char>,
    pub reason: Seq<char>,
    pub unreachable_commits: Seq<Seq<char>>,
}

/// View of a [`UnionRemote`].
pub struct UnionRemoteV {
    pub name: Seq<char>,
    pub path: Seq<char>,
    pub branches: Seq<Seq<char>>,
}

/// View of a [`Decision`].
pub struct DecisionV {
    pub group: GroupV,
    pub strategy: StrategyKind,
    pub canonical: CopyV,
    pub canonical_reason: Seq<char>,
    pub dest_path: Seq<char>,
    pub quarantine: Seq<QuarantineItemV>,
    pub redundant: Seq<Seq<char>>,
    pub union_remotes: Seq<UnionRemoteV>,
}

/// View of an [`ApplyResult`].
pub struct ApplyResultV {
    pub copied: i64,
    pub quarantined: i64,
    pub unioned: i64,
    pub skipped: i64,
    pub skipped_files: Seq<Seq<char>>,
    pub actions: Seq<Seq<char>>,
}

/// View of a [`Plan`].
pub struct PlanV {
    pub roots: Seq<Seq<char>>,
    pub dest: Seq<char>,
    pub generated_at: Seq<char>,
    pub decisions: Seq<DecisionV>,
    pub third_party: Seq<CopyV>,
}

/// Copy is one on-disk working tree of a repo found during discovery.
#[derive(Debug)]
pub struct Copy {
    /// absolute path to the repo dir (parent of .git)
    pub path: String,
    /// scan root this copy was found under
    pub root: String,
    /// inferred source label: live, acer, dell, drive, unknown
    pub machine: String,
    /// org parsed from the remote URL, or "" for local-only
    pub owner: String,
    /// repo name from the remote URL, else the basename
    pub repo_name: String,
    /// normalized origin URL, "" if none
    pub remote_url: String,
    /// filled by the fingerprint module
    pub fp: Fingerprint,
}

/// Branch is a local branch and its tip SHA.
#[derive(Debug)]
pub struct Branch {
    pub name: String,
    pub tip: String,
}

/// Fingerprint captures the git state of one Copy.
#[derive(Debug)]
pub struct Fingerprint {
    /// HEAD sha; "" for an empty repo
    pub head: String,
    /// root-commit shas, sorted (lineage identity)
    pub root_commits: Vec<String>,
    /// all reachable commit shas across all refs, sorted
    pub all_commits: Vec<String>,
    /// local branches
    pub branches: Vec<Branch>,
    /// commits ahead of origin's matching branch
    pub ahead: i64,
    /// commits behind
    pub behind: i64,
    /// modified + staged files
    pub dirty_count: i64,
    /// untracked, non-ignored files
    pub untracked_count: i64,
    /// entries in the stash
    pub stash_count: i64,
    /// number of all_commits
    pub commit_count: i64,
    /// commit date of HEAD
    pub last_commit: Timestamp,
    /// bytes, generated dirs excluded
    pub worktree_size: i64,
    /// mtime of the repo dir
    pub dir_mtime: Timestamp,
}

/// StrategyKind enumerates reconciliation strategies.
#[derive(Clone, Copy, Debug, PartialEq, Eq, Structural)]
pub enum StrategyKind {
    /// remote-backed: richest copy wins, divergent copies are quarantined
    A,
    /// local-only, shared lineage: every copy is folded in as branches
    B,
    /// collision / unclassified: verbatim snapshot
    C,
}

/// Group is a set of Copies that are the same logical repo.
#[derive(Debug)]
pub struct Group {
    /// lineage, remote or name key (see `group::group_key`)
    pub key: String,
    pub owner: String,
    pub repo_name: String,
    pub has_remote: bool,
    pub remote_url: String,
    pub copies: Vec<Copy>,
}

/// QuarantineItem is a divergent copy preserved side-by-side.
#[derive(Debug)]
pub struct QuarantineItem {
    pub copy: Copy,
    /// _quarantine/<repo>/<machine>
    pub dest_path: String,
    /// unreachable-commits | uncommitted-changes | untracked-files | stashed-changes
    pub reason: String,
    /// SHAs present here but not in canonical
    pub unreachable_commits: Vec<String>,
}

/// UnionRemote is a non-canonical copy folded into canonical as branches (Strategy B).
#[derive(Debug)]
pub struct UnionRemote {
    /// consolidate-<machine>
    pub name: String,
    /// source copy path
    pub path: String,
    /// branches to preserve as consolidate/<machine>/<branch>
    pub branches: Vec<String>,
}

/// Decision is the planned action for one Group.
#[derive(Debug)]
pub struct Decision {
    pub group: Group,
    pub strategy: StrategyKind,
    pub canonical: Copy,
    pub canonical_reason: String,
    /// canonical/<owner>/<repo>
    pub dest_path: String,
    pub quarantine: Vec<QuarantineItem>,
    /// strict-subset copy paths (safe to delete; NOT deleted)
    pub redundant: Vec<String>,
    pub union_remotes: Vec<UnionRemote>,
}

/// ApplyResult summarizes an apply run.
#[derive(Debug)]
pub struct ApplyResult {
    pub copied: i64,
    pub quarantined: i64,
    pub unioned: i64,
    pub skipped: i64,
    pub skipped_files: Vec<String>,
    pub actions: Vec<String>,
}

/// Plan is the full set of decisions for a run.
#[derive(Debug)]
pub struct Plan {
    pub roots: Vec<String>,
    pub dest: String,
    /// RFC 3339; injected by the command layer
    pub generated_at: String,
    pub decisions: Vec<Decision>,
    /// inventory only
    pub third_party: Vec<Copy>,
}

impl View for Branch {
    type V = BranchV;

    open spec fn view(&self) -> BranchV {
        BranchV { name: self.name@, tip: self.tip@ }
    }
}

impl DeepView for Branch {
    type V = BranchV;

    open spec fn deep_view(&self) -> BranchV {
        self@
    }
}

impl View for Fingerprint {
    type V = FingerprintV;

    open spec fn view(&self) -> FingerprintV {
        FingerprintV {
            head: self.head@,
            root_commits: self.root_commits.deep_view(),
            all_commits: self.all_commits.deep_view(),
            branches: self.branches.deep_view(),
            ahead: self.ahead,
            behind: self.behind,
            dirty_count: self.dirty_count,
            untracked_count: self.untracked_count,
            stash_count: self.stash_count,
            commit_count: self.commit_count,
            last_commit: self.last_commit,
            worktree_size: self.worktree_size,
            dir_mtime: self.dir_mtime,
        }
    }
}

impl View for Copy {
    type V = CopyV;

    open spec fn view(&self) -> CopyV {
        CopyV {
            path: self.path@,
            root: self.root@,
            machine: self.machine@,
            owner: self.owner@,
            repo_name: self.repo_name@,
            remote_url: self.remote_url@,
            fp: self.fp@,
        }
    }
}

impl DeepView for Copy {
    type V = CopyV;

    open spec fn deep_view(&self) -> CopyV {
        self@
    }
}

impl View for Group {
    type V = GroupV;

    open spec fn view(&self) -> GroupV {
        GroupV {
            key: self.key@,
            owner: self.owner@,
            repo_name: self.repo_name@,
            has_remote: self.has_remote,
            remote_url: self.remote_url@,
            copies: self.copies.deep_view(),
        }
    }
}

impl DeepView for Group {
    type V = GroupV;

    open spec fn deep_view(&self) -> GroupV {
        self@
    }
}

impl View for QuarantineItem {
    type V = QuarantineItemV;

    open spec fn view(&self) -> QuarantineItemV {
        QuarantineItemV {
            copy: self.copy@,
            dest_path: self.dest_path@,
            reason: self.reason@,
            unreachable_commits: self.unreachable_commits.deep_view(),
        }
    }
}

impl DeepView for QuarantineItem {
    type V = QuarantineItemV;

    open spec fn deep_view(&self) -> QuarantineItemV {
        self@
    }
}

impl View for UnionRemote {
    type V = UnionRemoteV;

    open spec fn view(&self) -> UnionRemoteV {
        UnionRemoteV { name: self.name@, path: self.path@, branches: self.branches.deep_view() }
    }
}

impl DeepView for UnionRemote {
    type V = UnionRemoteV;

    open spec fn deep_view(&self) -> UnionRemoteV {
        self@
    }
}

impl View for Decision {
    type V = DecisionV;

    open spec fn view(&self) -> DecisionV {
        DecisionV {
            group: self.group@,
            strategy: self.strategy,
            canonical: self.canonical@,
            canonical_reason: self.canonical_reason@,
            dest_path: self.dest_path@,
            quarantine: self.quarantine.deep_view(),
            redundant: self.redundant.deep_view(),
            union_remotes: self.union_remotes.deep_view(),
        }
    }
}

impl DeepView for Decision {
    type V = DecisionV;

    open spec fn deep_view(&self) -> DecisionV {
        self@
    }
}

impl View for ApplyResult {
    type V = ApplyResultV;

    open spec fn view(&self) -> ApplyResultV {
        ApplyResultV {
            copied: self.copied,
            quarantined: self.quarantined,
            unioned: self.unioned,
            skipped: self.skipped,
            skipped_files: self.skipped_files.deep_view(),
            actions: self.actions.deep_view(),
        }
    }
}

impl View for Plan {
    type V = PlanV;

    open spec fn view(&self) -> PlanV {
        PlanV {
            roots: self.roots.deep_view(),
            dest: self.dest@,
            generated_at: self.generated_at@,
            decisions: self.decisions.deep_view(),
            third_party: self.third_party.deep_view(),
        }
    }
}

/// Rust's truncating division of `a` by the positive `d`.
pub open spec fn div_trunc(a: int, d: int) -> int {
    if a >= 0 {
        a / d
    } else {
        -((-a) / d)
    }
}

/// The richness score of a fingerprint: unpushed commits >> dirty >>
/// untracked >> stashes >> recency (in whole days).
pub open spec fn score_spec(fp: FingerprintV) -> int {
    fp.ahead * 1_000_000 + (if fp.dirty_count > 0 {
        100_000 + fp.dirty_count
    } else {
        0
    }) + (if fp.untracked_count > 0 {
        10_000 + fp.untracked_count
    } else {
        0
    }) + fp.stash_count * 1_000 + div_trunc(fp.last_commit.secs as int, 86_400)
}

/// The score of `fp` is representable as an `i64`.
pub open spec fn score_fits(fp: FingerprintV) -> bool {
    i64::MIN <= score_spec(fp) <= i64::MAX
}

/// The view of `Fingerprint::default()`.
pub open spec fn default_fingerprint_v() -> FingerprintV {
    FingerprintV {
        head: Seq::empty(),
        root_commits: Seq::empty(),
        all_commits: Seq::empty(),
        branches: Seq::empty(),
        ahead: 0,
        behind: 0,
        dirty_count: 0,
        untracked_count: 0,
        stash_count: 0,
        commit_count: 0,
        last_commit: Timestamp { secs: year_one_secs() as i64, nanos: 0 },
        worktree_size: 0,
        dir_mtime: Timestamp { secs: year_one_secs() as i64, nanos: 0 },
    }
}

impl Fingerprint {
    /// Score ranks copies for canonical selection. Higher wins.
    pub fn score(&self) -> (s: i64)
        requires
            score_fits(self@),
        ensures
            s == score_spec(self@),
    {
        let mut s: i128 = (self.ahead as i128) * 1_000_000;
        if self.dirty_count > 0 {
            s = s + 100_000 + (self.dirty_count as i128);
        }
        if self.untracked_count > 0 {
            s = s + 10_000 + (self.untracked_count as i128);
        }
        s = s + (self.stash_count as i128) * 1_000;
        let t = self.last_commit.secs as i128;
        let days: i128 = if t >= 0 {
            t / 86_400
        } else {
            -((-t) / 86_400)
        };
        s = s + days;
        s as i64
    }
}

impl Fingerprint {
    /// The score, or `None` when it does not fit in an `i64`.
    pub fn score_checked(&self) -> (r: Option<i64>)
        ensures
            r is Some <==> score_fits(self@),
            r is Some ==> r->0 == score_spec(self@),
    {
        let mut s: i128 = (self.ahead as i128) * 1_000_000;
        if self.dirty_count > 0 {
            s = s + 100_000 + (self.dirty_count as i128);
        }
        if self.untracked_count > 0 {
            s = s + 10_000 + (self.untracked_count as i128);
        }
        s = s + (self.stash_count as i128) * 1_000;
        let t = self.last_commit.secs as i128;
        let days: i128 = if t >= 0 {
            t / 86_400
        } else {
            -((-t) / 86_400)
        };
        s = s + days;
        if s >= -9_223_372_036_854_775_808 && s <= 9_223_372_036_854_775_807 {
            Some(s as i64)
        } else {
            None
        }
    }
}

impl Default for Fingerprint {
    fn default() -> (f: Fingerprint)
        ensures
            f@ == default_fingerprint_v(),
    {
        let z = zero_time();
        let f = Fingerprint {
            head: String::new(),
            root_commits: Vec::new(),
            all_commits: Vec::new(),
            branches: Vec::new(),
            ahead: 0,
            behind: 0,
            dirty_count: 0,
            untracked_count: 0,
            stash_count: 0,
            commit_count: 0,
            last_commit: z,
            worktree_size: 0,
            dir_mtime: z,
        };
        assert(f.root_commits.deep_view() =~= Seq::<Seq<char>>::empty());
        assert(f.all_commits.deep_view() =~= Seq::<Seq<char>>::empty());
        assert(f.branches.deep_view() =~= Seq::<BranchV>::empty());
        f
    }
}

impl Default for StrategyKind {
    fn default() -> (k: StrategyKind)
        ensures
            k == StrategyKind::A,
    {
        StrategyKind::A
    }
}

} // verus!

verus! {

/// An element-by-element copy of a list of strings.
pub fn clone_strings(v: &Vec<String>) -> (r: Vec<String>)
    ensures
        r.deep_view() == v.deep_view(),
{
    let mut r: Vec<String> = Vec::new();
    for i in 0..v.len()
        invariant
            r@.len() == i,
            r.deep_view() == v.deep_view().take(i as int),
    {
        let x = v[i].clone();
        let ghost before = r@;
        r.push(x);
        assert forall|j: int| 0 <= j < i + 1 implies #[trigger] r.deep_view()[j] == v.deep_view()[j] by {
            if j < i {
                assert(r@[j] == before[j]);
                assert(before[j].deep_view() == v.deep_view().take(i as int)[j]);
            }
        }
        assert(r.deep_view() =~= v.deep_view().take(i + 1));
    }
    assert(v.deep_view().take(v.len() as int) =~= v.deep_view());
    r
}

impl Clone for Branch {
    fn clone(&self) -> (r: Branch)
        ensures
            r@ == self@,
    {
        Branch { name: self.name.clone(), tip: self.tip.clone() }
    }
}

/// An element-by-element copy of a list of branches.
pub fn clone_branches(v: &Vec<Branch>) -> (r: Vec<Branch>)
    ensures
        r.deep_view() == v.deep_view(),
{
    let mut r: Vec<Branch> = Vec::new();
    for i in 0..v.len()
        invariant
            r@.len() == i,
            r.deep_view() == v.deep_view().take(i as int),
    {
        let x = v[i].clone();
        let ghost before = r@;
        r.push(x);
        assert forall|j: int| 0 <= j < i + 1 implies #[trigger] r.deep_view()[j] == v.deep_view()[j] by {
            if j < i {
                assert(r@[j] == before[j]);
                assert(before[j].deep_view() == v.deep_view().take(i as int)[j]);
            }
        }
        assert(r.deep_view() =~= v.deep_view().take(i + 1));
    }
    assert(v.deep_view().take(v.len() as int) =~= v.deep_view());
    r
}

impl Clone for Fingerprint {
    fn clone(&self) -> (r: Fingerprint)
        ensures
            r@ == self@,
    {
        Fingerprint {
            head: self.head.clone(),
            root_commits: clone_strings(&self.root_commits),
            all_commits: clone_strings(&self.all_commits),
            branches: clone_branches(&self.branches),
            ahead: self.ahead,
            behind: self.behind,
            dirty_count: self.dirty_count,
            untracked_count: self.untracked_count,
            stash_count: self.stash_count,
            commit_count: self.commit_count,
            last_commit: self.last_commit,
            worktree_size: self.worktree_size,
            dir_mtime: self.dir_mtime,
        }
    }
}

impl Clone for Copy {
    fn clone(&self) -> (r: Copy)
        ensures
            r@ == self@,
    {
        Copy {
            path: self.path.clone(),
            root: self.root.clone(),
            machine: self.machine.clone(),
            owner: self.owner.clone(),
            repo_name: self.repo_name.clone(),
            remote_url: self.remote_url.clone(),
            fp: self.fp.clone(),
        }
    }
}

/// An element-by-element copy of a list of copies.
pub fn clone_copies(v: &Vec<Copy>) -> (r: Vec<Copy>)
    ensures
        r.deep_view() == v.deep_view(),
{
    let mut r: Vec<Copy> = Vec::new();
    for i in 0..v.len()
        invariant
            r@.len() == i,
            r.deep_view() == v.deep_view().take(i as int),
    {
        let x = v[i].clone();
        let ghost before = r@;
        r.push(x);
        assert forall|j: int| 0 <= j < i + 1 implies #[trigger] r.deep_view()[j] == v.deep_view()[j] by {
            if j < i {
                assert(r@[j] == before[j]);
                assert(before[j].deep_view() == v.deep_view().take(i as int)[j]);
            }
        }
        assert(r.deep_view() =~= v.deep_view().take(i + 1));
    }
    assert(v.deep_view().take(v.len() as int) =~= v.deep_view());
    r
}

impl Clone for UnionRemote {
    fn clone(&self) -> (r: UnionRemote)
        ensures
            r@ == self@,
    {
        UnionRemote { name: self.name.clone(), path: self.path.clone(), branches: clone_strings(&self.branches) }
    }
}

/// An element-by-element copy of a list of union remotes.
pub fn clone_union_remotes(v: &Vec<UnionRemote>) -> (r: Vec<UnionRemote>)
    ensures
        r.deep_view() == v.deep_view(),
{
    let mut r: Vec<UnionRemote> = Vec::new();
    for i in 0..v.len()
        invariant
            r@.len() == i,
            r.deep_view() == v.deep_view().take(i as int),
    {
        let x = v[i].clone();
        let ghost before = r@;
        r.push(x);
        assert forall|j: int| 0 <= j < i + 1 implies #[trigger] r.deep_view()[j] == v.deep_view()[j] by {
            if j < i {
                assert(r@[j] == before[j]);
                assert(before[j].deep_view() == v.deep_view().take(i as int)[j]);
            }
        }
        assert(r.deep_view() =~= v.deep_view().take(i + 1));
    }
    assert(v.deep_view().take(v.len() as int) =~= v.deep_view());
    r
}

impl Clone for QuarantineItem {
    fn clone(&self) -> (r: QuarantineItem)
        ensures
            r@ == self@,
    {
        QuarantineItem {
            copy: self.copy.clone(),
            dest_path: self.dest_path.clone(),
            reason: self.reason.clone(),
            unreachable_commits: clone_strings(&self.unreachable_commits),
        }
    }
}

/// An element-by-element copy of a list of quarantined copies.
pub fn clone_quarantine(v: &Vec<QuarantineItem>) -> (r: Vec<QuarantineItem>)
    ensures
        r.deep_view() == v.deep_view(),
{
    let mut r: Vec<QuarantineItem> = Vec::new();
    for i in 0..v.len()
        invariant
            r@.len() == i,
            r.deep_view() == v.deep_view().take(i as int),
    {
        let x = v[i].clone();
        let ghost before = r@;
        r.push(x);
        assert forall|j: int| 0 <= j < i + 1 implies #[trigger] r.deep_view()[j] == v.deep_view()[j] by {
            if j < i {
                assert(r@[j] == before[j]);
                assert(before[j].deep_view() == v.deep_view().take(i as int)[j]);
            }
        }
        assert(r.deep_view() =~= v.deep_view().take(i + 1));
    }
    assert(v.deep_view().take(v.len() as int) =~= v.deep_view());
    r
}

impl Clone for Decision {
    fn clone(&self) -> (r: Decision)
        ensures
            r@ == self@,
    {
        Decision {
            group: self.group.clone(),
            strategy: self.strategy,
            canonical: self.canonical.clone(),
            canonical_reason: self.canonical_reason.clone(),
            dest_path: self.dest_path.clone(),
            quarantine: clone_quarantine(&self.quarantine),
            redundant: clone_strings(&self.redundant),
            union_remotes: clone_union_remotes(&self.union_remotes),
        }
    }
}

/// An element-by-element copy of a list of decisions.
pub fn clone_decisions(v: &Vec<Decision>) -> (r: Vec<Decision>)
    ensures
        r.deep_view() == v.deep_view(),
{
    let mut r: Vec<Decision> = Vec::new();
    for i in 0..v.len()
        invariant
            r@.len() == i,
            r.deep_view() == v.deep_view().take(i as int),
    {
        let x = v[i].clone();
        let ghost before = r@;
        r.push(x);
        assert forall|j: int| 0 <= j < i + 1 implies #[trigger] r.deep_view()[j] == v.deep_view()[j] by {
            if j < i {
                assert(r@[j] == before[j]);
                assert(before[j].deep_view() == v.deep_view().take(i as int)[j]);
            }
        }
        assert(r.deep_view() =~= v.deep_view().take(i + 1));
    }
    assert(v.deep_view().take(v.len() as int) =~= v.deep_view());
    r
}

impl Clone for ApplyResult {
    fn clone(&self) -> (r: ApplyResult)
        ensures
            r@ == self@,
    {
        ApplyResult {
            copied: self.copied,
            quarantined: self.quarantined,
            unioned: self.unioned,
            skipped: self.skipped,
            skipped_files: clone_strings(&self.skipped_files),
            actions: clone_strings(&self.actions),
        }
    }
}

impl Clone for Plan {
    fn clone(&self) -> (r: Plan)
        ensures
            r@ == self@,
    {
        Plan {
            roots: clone_strings(&self.roots),
            dest: self.dest.clone(),
            generated_at: self.generated_at.clone(),
            decisions: clone_decisions(&self.decisions),
            third_party: clone_copies(&self.third_party),
        }
    }
}

impl Clone for Group {
    fn clone(&self) -> (r: Group)
        ensures
            r@ == self@,
    {
        Group {
            key: self.key.clone(),
            owner: self.owner.clone(),
            repo_name: self.repo_name.clone(),
            has_remote: self.has_remote,
            remote_url: self.remote_url.clone(),
            copies: clone_copies(&self.copies),
        }
    }
}

} // verus!

verus! {

/// The view of `Copy::default()`.
pub open spec fn default_copy_v() -> CopyV {
    CopyV {
        path: Seq::empty(),
        root: Seq::empty(),
        machine: Seq::empty(),
        owner: Seq::empty(),
        repo_name: Seq::empty(),
        remote_url: Seq::empty(),
        fp: default_fingerprint_v(),
    }
}

impl Default for Copy {
    fn default() -> (c: Copy)
        ensures
            c@ == default_copy_v(),
    {
        Copy {
            path: String::new(),
            root: String::new(),
            machine: String::new(),
            owner: String::new(),
            repo_name: String::new(),
            remote_url: String::new(),
            fp: Fingerprint::default(),
        }
    }
}

impl Default for Branch {
    fn default() -> (b: Branch)
        ensures
            b@ == (BranchV { name: Seq::empty(), tip: Seq::empty() }),
    {
        Branch { name: String::new(), tip: String::new() }
    }
}

impl Default for Group {
    fn default() -> (g: Group)
        ensures
            g@ == (GroupV {
                key: Seq::empty(),
                owner: Seq::empty(),
                repo_name: Seq::empty(),
                has_remote: false,
                remote_url: Seq::empty(),
                copies: Seq::empty(),
            }),
    {
        let g = Group {
            key: String::new(),
            owner: String::new(),
            repo_name: String::new(),
            has_remote: false,
            remote_url: String::new(),
            copies: Vec::new(),
        };
        assert(g.copies.deep_view() =~= Seq::<CopyV>::empty());
        g
    }
}

impl Default for QuarantineItem {
    fn default() -> (q: QuarantineItem)
        ensures
            q@ == (QuarantineItemV {
                copy: default_copy_v(),
                dest_path: Seq::empty(),
                reason: Seq::empty(),
                unreachable_commits: Seq::empty(),
            }),
    {
        let q = QuarantineItem {
            copy: Copy::default(),
            dest_path: String::new(),
            reason: String::new(),
            unreachable_commits: Vec::new(),
        };
        assert(q.unreachable_commits.deep_view() =~= Seq::<Seq<char>>::empty());
        q
    }
}

impl Default for UnionRemote {
    fn default() -> (u: UnionRemote)
        ensures
            u@ == (UnionRemoteV { name: Seq::empty(), path: Seq::empty(), branches: Seq::empty() }),
    {
        let u = UnionRemote { name: String::new(), path: String::new(), branches: Vec::new() };
        assert(u.branches.deep_view() =~= Seq::<Seq<char>>::empty());
        u
    }
}

impl Default for Decision {
    fn default() -> (d: Decision)
        ensures
            d@.group.copies.len() == 0,
            d@.group.key.len() == 0,
            d@.group.owner.len() == 0,
            d@.group.repo_name.len() == 0,
            d@.group.remote_url.len() == 0,
            !d@.group.has_remote,
            d@.strategy == StrategyKind::A,
            d@.canonical == default_copy_v(),
            d@.canonical_reason.len() == 0,
            d@.dest_path.len() == 0,
            d@.quarantine.len() == 0,
            d@.redundant.len() == 0,
            d@.union_remotes.len() == 0,
    {
        Decision {
            group: Group::default(),
            strategy: StrategyKind::default(),
            canonical: Copy::default(),
            canonical_reason: String::new(),
            dest_path: String::new(),
            quarantine: Vec::new(),
            redundant: Vec::new(),
            union_remotes: Vec::new(),
        }
    }
}

impl Default for ApplyResult {
    fn default() -> (r: ApplyResult)
        ensures
            r@ == (ApplyResultV {
                copied: 0,
                quarantined: 0,
                unioned: 0,
                skipped: 0,
                skipped_files: Seq::empty(),
                actions: Seq::empty(),
            }),
    {
        let r = ApplyResult {
            copied: 0,
            quarantined: 0,
            unioned: 0,
            skipped: 0,
            skipped_files: Vec::new(),
            actions: Vec::new(),
        };
        assert(r.skipped_files.deep_view() =~= Seq::<Seq<char>>::empty());
        assert(r.actions.deep_view() =~= Seq::<Seq<char>>::empty());
        r
    }
}

impl Default for Plan {
    fn default() -> (p: Plan)
        ensures
            p@ == (PlanV {
                roots: Seq::empty(),
                dest: Seq::empty(),
                generated_at: Seq::empty(),
                decisions: Seq::empty(),
                third_party: Seq::empty(),
            }),
    {
        let p = Plan {
            roots: Vec::new(),
            dest: String::new(),
            generated_at: String::new(),
            decisions: Vec::new(),
            third_party: Vec::new(),
        };
        assert(p.roots.deep_view() =~= Seq::<Seq<char>>::empty());
        assert(p.decisions.deep_view() =~= Seq::<DecisionV>::empty());
        assert(p.third_party.deep_view() =~= Seq::<CopyV>::empty());
        p
    }
}

} // verus!
