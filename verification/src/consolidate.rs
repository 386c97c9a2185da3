//! Applying a plan: the decisions of the consolidation run, read-only on the
//! sources and writing only under the destination tree.
//!
//! Applying a plan alternates file-system work (hashing and copying trees)
//! with decisions. The decisions live here as a state machine, [`Applier`]:
//! it asks for one piece of work at a time, through a [`Request`], and takes
//! the outcome back as a [`Reply`]. The git work of folding copies in as
//! union remotes goes through a [`Runner`].
use vstd::prelude::*;

use crate::gitx::{arg_texts, CallV, GitError, GitErrorV, Logged, Runner};
use crate::model::{clone_strings, ApplyResult, ApplyResultV, CopyV, DecisionV, Plan, PlanV, UnionRemote, UnionRemoteV};
use crate::text::{append_str, concat_str, contains_string, count_string, decimal, from_chars, lemma_deep_view_push, to_chars, utf8, utf8_char};

verus! {

// ---------------------------------------------------------------------------
// Options.

/// The regenerable directories skipped unless generated files are included.
pub open spec fn default_excludes_spec() -> Seq<Seq<char>> {
    seq![
        "node_modules"@,
        "vendor"@,
        "dist"@,
        ".next"@,
        "build"@,
        ".gradle"@,
        "target"@,
        "__pycache__"@,
    ]
}

/// The regenerable directories skipped unless generated files are included:
/// `node_modules`, `vendor`, `dist`, `.next`, `build`, `.gradle`, `target`,
/// `__pycache__`.
pub fn default_excludes() -> (r: Vec<String>)
    ensures
        r.deep_view() == default_excludes_spec(),
{
    let r: Vec<String> = vec![
        "node_modules".to_string(),
        "vendor".to_string(),
        "dist".to_string(),
        ".next".to_string(),
        "build".to_string(),
        ".gradle".to_string(),
        "target".to_string(),
        "__pycache__".to_string(),
    ];
    assert(r.deep_view() =~= default_excludes_spec());
    r
}

/// Options of a consolidation run.
///
/// `exclude_dirs` tells "not given" (`None`: the default excludes) from an
/// explicit list, which may be empty.
#[derive(Debug)]
pub struct Options {
    pub dest: String,
    pub dry_run: bool,
    pub include_generated: bool,
    pub exclude_dirs: Option<Vec<String>>,
}

/// View of [`Options`].
pub struct OptionsV {
    pub dest: Seq<char>,
    pub dry_run: bool,
    pub include_generated: bool,
    pub exclude_dirs: Option<Seq<Seq<char>>>,
}

impl View for Options {
    type V = OptionsV;

    open spec fn view(&self) -> OptionsV {
        OptionsV {
            dest: self.dest@,
            dry_run: self.dry_run,
            include_generated: self.include_generated,
            exclude_dirs: match self.exclude_dirs {
                Some(v) => Some(v.deep_view()),
                None => None,
            },
        }
    }
}

impl Default for Options {
    fn default() -> (r: Options)
        ensures
            r@ == (OptionsV { dest: Seq::empty(), dry_run: false, include_generated: false, exclude_dirs: None }),
    {
        let r = Options { dest: String::new(), dry_run: false, include_generated: false, exclude_dirs: None };
        assert(r@.dest =~= Seq::<char>::empty());
        r
    }
}

/// The directories a run passes by: none when generated files are
/// included, else the given list, else the default excludes.
pub open spec fn excludes_spec(o: OptionsV) -> Seq<Seq<char>> {
    if o.include_generated {
        Seq::empty()
    } else {
        match o.exclude_dirs {
            Some(v) => v,
            None => default_excludes_spec(),
        }
    }
}

impl Options {
    /// The directories a run passes by.
    pub fn excludes(&self) -> (r: Vec<String>)
        ensures
            r.deep_view() == excludes_spec(self@),
    {
        if self.include_generated {
            let r: Vec<String> = Vec::new();
            assert(r.deep_view() =~= Seq::<Seq<char>>::empty());
            return r;
        }
        match &self.exclude_dirs {
            Some(v) => clone_strings(v),
            None => default_excludes(),
        }
    }
}

/// The excludes of the canonical copy's hash: the run's excludes and the
/// `_quarantine` directory, which nests quarantined copies under the
/// canonical destination.
pub fn canonical_excludes(ex: &Vec<String>) -> (r: Vec<String>)
    ensures
        r.deep_view() == ex.deep_view().push("_quarantine"@),
{
    let mut r = clone_strings(ex);
    let ghost before = r;
    let q = "_quarantine".to_string();
    let ghost qv = q;
    r.push(q);
    proof {
        lemma_deep_view_push(before, r, qv);
    }
    r
}

/// Whether a destination already holds the source's working tree: its tree
/// hash is not empty (an empty hash means it does not exist) and equals the
/// source's.
pub fn already_consolidated(src_hash: &str, dst_hash: &str) -> (r: bool)
    ensures
        r == (dst_hash@.len() > 0 && src_hash@ == dst_hash@),
{
    let a = to_chars(src_hash);
    let b = to_chars(dst_hash);
    b.len() > 0 && crate::text::chars_eq(&a, &b)
}

// ---------------------------------------------------------------------------
// Errors.

/// Error of a consolidation run: a file-system failure, with its message,
/// or a git failure.
#[derive(Debug)]
pub enum Error {
    Io(String),
    Git(GitError),
}

/// View of an [`Error`].
pub enum ErrorV {
    Io(Seq<char>),
    Git(GitErrorV),
}

impl View for Error {
    type V = ErrorV;

    open spec fn view(&self) -> ErrorV {
        match self {
            Error::Io(m) => ErrorV::Io(m@),
            Error::Git(g) => ErrorV::Git(g@),
        }
    }
}

/// The message of an error, as it is displayed.
pub open spec fn error_message(e: ErrorV) -> Seq<char> {
    match e {
        ErrorV::Io(m) => m,
        ErrorV::Git(g) => crate::gitx::git_error_message(g),
    }
}

impl Error {
    /// The message of the error, as it is displayed.
    pub fn message(&self) -> (m: String)
        ensures
            m@ == error_message(self@),
    {
        match self {
            Error::Io(m) => m.clone(),
            Error::Git(g) => g.message(),
        }
    }
}

// ---------------------------------------------------------------------------
// Destinations.

/// The characters that make up the first `n` bytes of `s`, scanning from
/// character `i` on; `None` when byte `n` falls inside a character.
pub open spec fn byte_cut_from(s: Seq<char>, n: int, i: int) -> Option<Seq<char>>
    decreases s.len() - i,
{
    if i < 0 || utf8(s.take(i)).len() >= n {
        if utf8(s.take(i)).len() == n {
            Some(s.take(i))
        } else {
            None
        }
    } else if i >= s.len() {
        None
    } else {
        byte_cut_from(s, n, i + 1)
    }
}

/// The characters that make up the first `n` bytes of `s` (`None` when byte
/// `n` falls inside a character or `s` is shorter).
pub open spec fn byte_cut(s: Seq<char>, n: int) -> Option<Seq<char>> {
    byte_cut_from(s, n, 0)
}

/// The first root commit of a copy is at least seven bytes long.
pub open spec fn has_long_root(c: CopyV) -> bool {
    c.fp.root_commits.len() > 0 && utf8(c.fp.root_commits[0]).len() >= 7
}

/// Taking the first seven bytes of the copy's first root commit, when it
/// has that many, does not cut a character in two.
pub open spec fn root_id_fits(c: CopyV) -> bool {
    has_long_root(c) ==> byte_cut(c.fp.root_commits[0], 7) is Some
}

/// What tells a copy's destination apart when another item already took it:
/// the first seven bytes of its first root commit, or its machine when that
/// commit is shorter.
pub open spec fn dest_suffix(c: CopyV) -> Seq<char> {
    if has_long_root(c) {
        byte_cut(c.fp.root_commits[0], 7)->0
    } else {
        c.machine
    }
}

/// The destination of an item: the planned one, or, when an earlier item of
/// the run already took it, the planned one followed by `-` and the copy's
/// suffix.
pub open spec fn disambiguated(seen: Seq<Seq<char>>, dest: Seq<char>, c: CopyV) -> Seq<char> {
    if seen.contains(dest) {
        dest + "-"@ + dest_suffix(c)
    } else {
        dest
    }
}

fn short_root(s: &String) -> (r: Option<String>)
    ensures
        r is Some <==> byte_cut(s@, 7) is Some,
        r is Some ==> r->0@ == byte_cut(s@, 7)->0,
{
    let cs = to_chars(s.as_str());
    let mut i: usize = 0;
    let mut w: usize = 0;
    while w < 7 && i < cs.len()
        invariant
            cs@ == s@,
            i <= cs@.len(),
            w == utf8(cs@.take(i as int)).len(),
            w < 7 || i == 0 || utf8(cs@.take(i - 1)).len() < 7,
            byte_cut(s@, 7) == byte_cut_from(s@, 7, i as int),
            w <= 10,
        decreases cs@.len() - i,
    {
        let c = cs[i];
        let v = c as u32;
        let cw: usize = if v < 0x80 {
            1
        } else if v < 0x800 {
            2
        } else if v < 0x10000 {
            3
        } else {
            4
        };
        proof {
            assert(cs@.take(i + 1).drop_last() =~= cs@.take(i as int));
            assert(cs@.take(i + 1).last() == c);
            assert(utf8_char(c).len() == cw);
            assert(utf8(cs@.take(i + 1)) == utf8(cs@.take(i as int)) + utf8_char(c));
        }
        w = w + cw;
        i = i + 1;
    }
    if w == 7 {
        let t = crate::text::sub_chars(&cs, 0, i);
        assert(t@ =~= cs@.take(i as int));
        Some(from_chars(t.as_slice()))
    } else {
        None
    }
}

/// The suffix that tells a copy's destination apart.
pub fn suffix_for(c: &crate::model::Copy) -> (r: String)
    requires
        root_id_fits(c@),
    ensures
        r@ == dest_suffix(c@),
{
    if c.fp.root_commits.len() > 0 {
        let rc0 = &c.fp.root_commits[0];
        assert(c@.fp.root_commits[0] == rc0@);
        let b = crate::text::utf8_bytes(rc0.as_str());
        if b.len() >= 7 {
            match short_root(rc0) {
                Some(t) => return t,
                None => {
                    assert(false);
                },
            }
        }
    }
    c.machine.clone()
}

/// The destination of an item given the destinations taken so far.
pub fn disambiguate(seen: &Vec<String>, dest: &String, c: &crate::model::Copy) -> (r: String)
    requires
        seen.deep_view().contains(dest@) ==> root_id_fits(c@),
    ensures
        r@ == disambiguated(seen.deep_view(), dest@, c@),
{
    if contains_string(seen, dest) {
        let suffix = suffix_for(c);
        let mut v = to_chars(dest.as_str());
        append_str(&mut v, "-");
        append_str(&mut v, suffix.as_str());
        from_chars(v.as_slice())
    } else {
        dest.clone()
    }
}

// ---------------------------------------------------------------------------
// Union remotes.

/// A name tried for a union remote: the planned name, then the planned name
/// followed by `-1`, `-2`, and so on.
pub open spec fn candidate_name(base: Seq<char>, i: nat) -> Seq<char> {
    if i == 0 {
        base
    } else {
        base + "-"@ + decimal(i as int)
    }
}

/// The first candidate from the `i`-th on that no earlier remote took (the
/// `n`-th candidate when all before it are taken, `n` the number taken: one
/// of the first `n + 1` distinct candidates is always free).
pub open spec fn pick_name(base: Seq<char>, used: Seq<Seq<char>>, i: nat) -> Seq<char>
    decreases used.len() - i,
{
    if !used.contains(candidate_name(base, i)) || i >= used.len() {
        candidate_name(base, i)
    } else {
        pick_name(base, used, (i + 1) as nat)
    }
}

/// The name a union remote is added under, given the names taken before.
pub open spec fn unique_name(base: Seq<char>, used: Seq<Seq<char>>) -> Seq<char> {
    pick_name(base, used, 0)
}

/// The names the union remotes of a decision are added under, in order.
pub open spec fn union_names(us: Seq<UnionRemoteV>) -> Seq<Seq<char>>
    decreases us.len(),
{
    if us.len() == 0 {
        Seq::empty()
    } else {
        let prev = union_names(us.drop_last());
        prev.push(unique_name(us.last().name, prev))
    }
}

/// One git command of the union work. When `fatal` holds a context, a
/// failure of the command ends the run with that context before the cause;
/// otherwise its outcome is ignored.
pub struct UnionStep {
    pub args: Vec<String>,
    pub fatal: Option<String>,
}

/// View of a [`UnionStep`].
pub struct UnionStepV {
    pub args: Seq<Seq<char>>,
    pub fatal: Option<Seq<char>>,
}

impl View for UnionStep {
    type V = UnionStepV;

    open spec fn view(&self) -> UnionStepV {
        UnionStepV {
            args: self.args.deep_view(),
            fatal: match self.fatal {
                Some(c) => Some(c@),
                None => None,
            },
        }
    }
}

impl DeepView for UnionStep {
    type V = UnionStepV;

    open spec fn deep_view(&self) -> UnionStepV {
        self@
    }
}

/// The command that points a local branch at a fetched branch of the remote.
pub open spec fn branch_step(name: Seq<char>, b: Seq<char>) -> UnionStepV {
    UnionStepV {
        args: seq!["branch"@, "--force"@, "consolidate/"@ + name + "/"@ + b, name + "/"@ + b],
        fatal: None,
    }
}

/// The commands that fold one copy in under `name`: remove a stale remote
/// of that name (outcome ignored), add the remote, fetch all its branches
/// and tags, and point a local `consolidate/<name>/<branch>` at each of its
/// planned branches (outcomes ignored).
pub open spec fn remote_steps(u: UnionRemoteV, name: Seq<char>) -> Seq<UnionStepV> {
    seq![
        UnionStepV { args: seq!["remote"@, "remove"@, name], fatal: None },
        UnionStepV {
            args: seq!["remote"@, "add"@, name, u.path],
            fatal: Some("add union remote "@ + name),
        },
        UnionStepV {
            args: seq!["fetch"@, name, "+refs/heads/*:refs/remotes/"@ + name + "/*"@, "--tags"@],
            fatal: Some("fetch union remote "@ + name),
        },
    ] + u.branches.map_values(|b: Seq<char>| branch_step(name, b))
}

/// The commands of the union work of a decision, remote by remote.
pub open spec fn union_script(us: Seq<UnionRemoteV>) -> Seq<UnionStepV>
    decreases us.len(),
{
    if us.len() == 0 {
        Seq::empty()
    } else {
        union_script(us.drop_last()) + remote_steps(us.last(), union_names(us).last())
    }
}

/// A git error with `ctx` put before its cause.
pub open spec fn with_context(e: GitErrorV, ctx: Seq<char>) -> GitErrorV {
    GitErrorV { args: e.args, dir: e.dir, cause: ctx + ": "@ + e.cause, stderr: e.stderr }
}

/// The outcome of running the steps in order, where `outs[k]` is the error
/// of step `k` (`None` when it succeeded): the first failure of a fatal
/// step, with its context, or success.
pub open spec fn script_result(steps: Seq<UnionStepV>, outs: Seq<Option<GitErrorV>>) -> Result<(), GitErrorV>
    decreases steps.len(),
{
    if steps.len() == 0 || outs.len() == 0 {
        Ok(())
    } else {
        match script_result(steps.drop_last(), outs.drop_last()) {
            Err(e) => Err(e),
            Ok(()) => match (steps.last().fatal, outs.last()) {
                (Some(ctx), Some(e)) => Err(with_context(e, ctx)),
                _ => Ok(()),
            },
        }
    }
}

fn pick_unique_name(base: &String, used: &Vec<String>) -> (r: String)
    ensures
        r@ == unique_name(base@, used.deep_view()),
{
    let mut i: usize = 0;
    let mut cand = base.clone();
    while i < used.len() && contains_string(used, &cand)
        invariant
            i <= used@.len(),
            cand@ == candidate_name(base@, i as nat),
            pick_name(base@, used.deep_view(), 0) == pick_name(base@, used.deep_view(), i as nat),
        decreases used@.len() - i,
    {
        i = i + 1;
        let n = count_string(i);
        let mut v = to_chars(base.as_str());
        append_str(&mut v, "-");
        append_str(&mut v, n.as_str());
        cand = from_chars(v.as_slice());
    }
    cand
}

fn text_vec(parts: Vec<String>) -> (r: Vec<String>)
    ensures
        r == parts,
{
    parts
}

fn push_remote_steps(out: &mut Vec<UnionStep>, u: &UnionRemote, name: &String)
    ensures
        final(out).deep_view() == old(out).deep_view() + remote_steps(u@, name@),
{
    let ghost start = old(out).deep_view();
    let n = name.as_str();
    let s1 = UnionStep { args: text_vec(vec!["remote".to_string(), "remove".to_string(), name.clone()]), fatal: None };
    let s2 = UnionStep {
        args: text_vec(vec!["remote".to_string(), "add".to_string(), name.clone(), u.path.clone()]),
        fatal: Some(concat_str("add union remote ", n)),
    };
    let refspec = {
        let mut v = to_chars("+refs/heads/*:refs/remotes/");
        append_str(&mut v, n);
        append_str(&mut v, "/*");
        from_chars(v.as_slice())
    };
    let s3 = UnionStep {
        args: text_vec(vec!["fetch".to_string(), name.clone(), refspec, "--tags".to_string()]),
        fatal: Some(concat_str("fetch union remote ", n)),
    };
    let ghost v1 = s1@;
    let ghost v2 = s2@;
    let ghost v3 = s3@;
    proof {
        assert(v1.args =~= seq!["remote"@, "remove"@, name@]);
        assert(v2.args =~= seq!["remote"@, "add"@, name@, u@.path]);
        assert(v3.args =~= seq!["fetch"@, name@, "+refs/heads/*:refs/remotes/"@ + name@ + "/*"@, "--tags"@]);
    }
    out.push(s1);
    out.push(s2);
    out.push(s3);
    let ghost head = seq![v1, v2, v3];
    assert(out.deep_view() =~= start + head);
    let bs = &u.branches;
    for j in 0..bs.len()
        invariant
            bs.deep_view() == u@.branches,
            n@ == name@,
            out.deep_view() == start + head + bs.deep_view().take(j as int).map_values(
                |b: Seq<char>| branch_step(name@, b),
            ),
    {
        let b = bs[j].as_str();
        let mut l = to_chars("consolidate/");
        append_str(&mut l, n);
        append_str(&mut l, "/");
        append_str(&mut l, b);
        let mut r = to_chars(n);
        append_str(&mut r, "/");
        append_str(&mut r, b);
        proof {
            assert(bs.deep_view()[j as int] == bs@[j as int]@);
        }
        let ls = from_chars(l.as_slice());
        let rs = from_chars(r.as_slice());
        assert(ls@ =~= "consolidate/"@ + name@ + "/"@ + bs.deep_view()[j as int]);
        assert(rs@ =~= name@ + "/"@ + bs.deep_view()[j as int]);
        let st = UnionStep {
            args: text_vec(vec!["branch".to_string(), "--force".to_string(), ls, rs]),
            fatal: None,
        };
        let ghost sv = st@;
        let ghost before = out.deep_view();
        out.push(st);
        proof {
            assert(bs.deep_view()[j as int] == b@);
            assert(sv.args =~= branch_step(name@, b@).args);
            assert(sv == branch_step(name@, b@));
            assert(out.deep_view() =~= before.push(sv));
            assert(bs.deep_view().take(j + 1).map_values(|b: Seq<char>| branch_step(name@, b)) =~= bs.deep_view().take(
                j as int,
            ).map_values(|b: Seq<char>| branch_step(name@, b)).push(sv));
        }
    }
    assert(bs.deep_view().take(bs@.len() as int) =~= bs.deep_view());
    assert(out.deep_view() =~= start + remote_steps(u@, name@));
}

/// The commands of the union work of a decision.
pub fn union_steps(us: &Vec<UnionRemote>) -> (r: Vec<UnionStep>)
    ensures
        r.deep_view() == union_script(us.deep_view()),
{
    let mut r: Vec<UnionStep> = Vec::new();
    let mut names: Vec<String> = Vec::new();
    for k in 0..us.len()
        invariant
            names.deep_view() == union_names(us.deep_view().take(k as int)),
            r.deep_view() == union_script(us.deep_view().take(k as int)),
    {
        let u = &us[k];
        let name = pick_unique_name(&u.name, &names);
        proof {
            assert(us.deep_view()[k as int] == u@);
            assert(us.deep_view().take(k + 1).drop_last() =~= us.deep_view().take(k as int));
            assert(us.deep_view().take(k + 1).last() == u@);
        }
        push_remote_steps(&mut r, u, &name);
        let ghost before = names;
        let ghost nv = name;
        names.push(name);
        proof {
            lemma_deep_view_push(before, names, nv);
        }
    }
    assert(us.deep_view().take(us@.len() as int) =~= us.deep_view());
    r
}

/// What each call returned, as the outcome of a step: `None` when it
/// succeeded, its error otherwise.
pub open spec fn outcomes(calls: Seq<CallV>) -> Seq<Option<GitErrorV>> {
    calls.map_values(
        |c: CallV|
            match c.result {
                Ok(_) => None,
                Err(e) => Some(e),
            },
    )
}

/// The calls ran the first steps in `dest`, in order: call `k` has the
/// arguments of step `k`.
pub open spec fn ran_steps(calls: Seq<CallV>, dest: Seq<char>, steps: Seq<UnionStepV>) -> bool {
    &&& calls.len() <= steps.len()
    &&& forall|k: int| 0 <= k < calls.len() ==> #[trigger] calls[k].dir == dest && calls[k].args == steps[k].args
}

/// The view of the outcome of a run of steps.
pub open spec fn unit_result_view(res: Result<(), GitError>) -> Result<(), GitErrorV> {
    match res {
        Ok(()) => Ok(()),
        Err(e) => Err(e@),
    }
}

/// A run of steps made exactly the calls `calls`: the first steps, in `dest`,
/// in order, up to the first failure of a fatal step; its outcome is that
/// failure with its context, or success when every step ran.
pub open spec fn steps_run(
    calls: Seq<CallV>,
    dest: Seq<char>,
    steps: Seq<UnionStepV>,
    res: Result<(), GitErrorV>,
) -> bool {
    &&& ran_steps(calls, dest, steps)
    &&& res == script_result(steps.take(calls.len() as int), outcomes(calls))
    &&& (res is Ok ==> calls.len() == steps.len())
    &&& (res is Err ==> calls.len() > 0 && script_result(
        steps.take(calls.len() - 1),
        outcomes(calls).take(calls.len() - 1),
    ) == Ok::<(), GitErrorV>(()))
}

/// Runs the steps in `dest` in order, through the runner, stopping at the
/// first failure of a fatal step (see [`steps_run`]).
pub fn run_steps<R: Runner>(r: &mut Logged<R>, dest: &str, steps: &Vec<UnionStep>) -> (res: Result<(), GitError>)
    requires
        old(r).wf(),
    ensures
        final(r).wf(),
        final(r).origin() == old(r).origin(),
        final(r).history().take(old(r).history().len() as int) == old(r).history(),
        steps_run(
            final(r).history().skip(old(r).history().len() as int),
            dest@,
            steps.deep_view(),
            unit_result_view(res),
        ),
{
    let ghost h0 = r.history();
    let ghost sv = steps.deep_view();
    for k in 0..steps.len()
        invariant
            sv == steps.deep_view(),
            h0 == old(r).history(),
            r.wf(),
            r.origin() == old(r).origin(),
            r.history().take(h0.len() as int) == h0,
            r.history().len() == h0.len() + k,
            ran_steps(r.history().skip(h0.len() as int), dest@, sv),
            script_result(sv.take(k as int), outcomes(r.history().skip(h0.len() as int))) == Ok::<(), GitErrorV>(()),
    {
        let st = &steps[k];
        let mut a: Vec<&str> = Vec::new();
        for j in 0..st.args.len()
            invariant
                a@.len() == j,
                forall|i: int| 0 <= i < j ==> #[trigger] a@[i]@ == st.args@[i]@,
        {
            a.push(st.args[j].as_str());
        }
        let ghost calls0 = r.history().skip(h0.len() as int);
        let out = r.run(dest, a.as_slice());
        let ghost calls = r.history().skip(h0.len() as int);
        proof {
            assert(sv[k as int] == st@);
            assert(arg_texts(a@) =~= st@.args);
            assert(calls =~= calls0.push(r.history().last()));
            assert(r.history().take(h0.len() as int) =~= h0);
            assert(outcomes(calls) =~= outcomes(calls0).push(outcomes(calls)[k as int]));
            assert(sv.take(k + 1).drop_last() =~= sv.take(k as int));
            assert(sv.take(k + 1).last() == st@);
            assert(outcomes(calls).drop_last() =~= outcomes(calls0));
            assert(calls.len() == k + 1);
            assert forall|i: int| 0 <= i < calls.len() implies #[trigger] calls[i].dir == dest@ && calls[i].args
                == sv[i].args by {
                if i < k {
                    assert(calls[i] == calls0[i]);
                }
            }
        }
        match out {
            Ok(_) => {},
            Err(e) => {
                let ghost ev = e@;
                match &st.fatal {
                    Some(ctx) => {
                        let cause = {
                            let mut v = to_chars(ctx.as_str());
                            append_str(&mut v, ": ");
                            append_str(&mut v, e.cause.as_str());
                            from_chars(v.as_slice())
                        };
                        let w = GitError { args: e.args, dir: e.dir, cause, stderr: e.stderr };
                        assert(w@ == with_context(ev, ctx@));
                        proof {
                            assert(calls[k as int].result == Err::<Seq<char>, GitErrorV>(ev));
                            assert(outcomes(calls)[k as int] == Some(ev));
                            assert(outcomes(calls).last() == Some(ev));
                            assert(script_result(sv.take(k + 1), outcomes(calls)) == Err::<(), GitErrorV>(
                                with_context(ev, ctx@),
                            ));
                            assert(outcomes(calls).take(k as int) =~= outcomes(calls0));
                            assert(sv.take(k + 1).take(k as int) =~= sv.take(k as int));
                        }
                        return Err(w);
                    },
                    None => {},
                }
            },
        }
    }
    assert(sv.take(steps@.len() as int) =~= sv);
    Ok(())
}

/// Folds every copy of a decision into the canonical repository at `dest`
/// as a union remote, under the names [`union_names`] gives, by running
/// [`union_script`] through the runner (see [`steps_run`]); in a dry run no
/// call is made and the work counts as done.
pub fn union_remotes<R: Runner>(r: &mut Logged<R>, dest: &str, remotes: &Vec<UnionRemote>, dry_run: bool) -> (res: Result<(), GitError>)
    requires
        old(r).wf(),
    ensures
        final(r).wf(),
        final(r).origin() == old(r).origin(),
        dry_run ==> res is Ok && *final(r) == *old(r),
        !dry_run ==> final(r).history().take(old(r).history().len() as int) == old(r).history(),
        !dry_run ==> steps_run(
            final(r).history().skip(old(r).history().len() as int),
            dest@,
            union_script(remotes.deep_view()),
            unit_result_view(res),
        ),
{
    if dry_run {
        return Ok(());
    }
    let steps = union_steps(remotes);
    run_steps(r, dest, &steps)
}

// ---------------------------------------------------------------------------
// The run.
//
// Each decision has items: its canonical copy (item 0), then its quarantined
// copies (item `k` is quarantined copy `k - 1`). For each item the run asks
// for the tree hashes of its source and destination; when they differ it asks
// for the copy. After the items it asks for the union work of the decision.

/// What the run waits for.
#[derive(Clone, Copy, Debug, PartialEq, Eq, Structural)]
pub enum Stage {
    Hash,
    Copy,
    Union,
}

/// A piece of work the run asks for.
#[derive(Debug)]
pub enum Request {
    /// The tree hashes of `src` and of `dst`, both passing by the
    /// directories named in `excludes`.
    Hash { src: String, dst: String, excludes: Vec<String> },
    /// An atomic copy of the tree at `src` to `dst`, passing by the
    /// directories named in `excludes` (nothing is written in a dry run).
    Copy { src: String, dst: String, excludes: Vec<String>, dry_run: bool },
    /// The union work of a decision: [`union_remotes`] in `dest`.
    Union { dest: String, remotes: Vec<UnionRemote>, dry_run: bool },
}

/// View of a [`Request`].
pub enum RequestV {
    Hash { src: Seq<char>, dst: Seq<char>, excludes: Seq<Seq<char>> },
    Copy { src: Seq<char>, dst: Seq<char>, excludes: Seq<Seq<char>>, dry_run: bool },
    Union { dest: Seq<char>, remotes: Seq<UnionRemoteV>, dry_run: bool },
}

impl View for Request {
    type V = RequestV;

    open spec fn view(&self) -> RequestV {
        match self {
            Request::Hash { src, dst, excludes } => RequestV::Hash {
                src: src@,
                dst: dst@,
                excludes: excludes.deep_view(),
            },
            Request::Copy { src, dst, excludes, dry_run } => RequestV::Copy {
                src: src@,
                dst: dst@,
                excludes: excludes.deep_view(),
                dry_run: *dry_run,
            },
            Request::Union { dest, remotes, dry_run } => RequestV::Union {
                dest: dest@,
                remotes: remotes.deep_view(),
                dry_run: *dry_run,
            },
        }
    }
}

/// The outcome of a piece of work.
#[derive(Debug)]
pub enum Reply {
    /// Both trees were hashed (an empty hash: the tree does not exist).
    Hashed { src_hash: String, dst_hash: String },
    /// A tree could not be hashed: the source's when `src_side`, else the
    /// destination's.
    HashFailed { src_side: bool, message: String },
    /// The tree was copied; these files could not be read and were skipped.
    Copied(Vec<String>),
    /// The copy failed.
    CopyFailed(String),
    /// The outcome of the union work.
    Unioned(Result<(), GitError>),
}

/// View of a [`Reply`].
pub enum ReplyV {
    Hashed { src_hash: Seq<char>, dst_hash: Seq<char> },
    HashFailed { src_side: bool, message: Seq<char> },
    Copied(Seq<Seq<char>>),
    CopyFailed(Seq<char>),
    Unioned(Result<(), GitErrorV>),
}

impl View for Reply {
    type V = ReplyV;

    open spec fn view(&self) -> ReplyV {
        match self {
            Reply::Hashed { src_hash, dst_hash } => ReplyV::Hashed { src_hash: src_hash@, dst_hash: dst_hash@ },
            Reply::HashFailed { src_side, message } => ReplyV::HashFailed {
                src_side: *src_side,
                message: message@,
            },
            Reply::Copied(v) => ReplyV::Copied(v.deep_view()),
            Reply::CopyFailed(m) => ReplyV::CopyFailed(m@),
            Reply::Unioned(r) => ReplyV::Unioned(
                match r {
                    Ok(()) => Ok(()),
                    Err(e) => Err(e@),
                },
            ),
        }
    }
}

/// The state of a run.
pub struct Applier {
    plan: Plan,
    opts: Options,
    excludes: Vec<String>,
    decision: usize,
    item: usize,
    stage: Stage,
    dest: String,
    target: String,
    seen: Vec<String>,
    result: ApplyResult,
}

/// View of an [`Applier`]: the plan and options of the run, its excludes,
/// the decision and item at hand, what it waits for, the canonical
/// destination of the decision, the destination of the item, the
/// destinations taken so far, and the counts so far.
pub struct ApplierV {
    pub plan: PlanV,
    pub opts: OptionsV,
    pub excludes: Seq<Seq<char>>,
    pub decision: int,
    pub item: int,
    pub stage: Stage,
    pub dest: Seq<char>,
    pub target: Seq<char>,
    pub seen: Seq<Seq<char>>,
    pub result: ApplyResultV,
}

impl View for Applier {
    type V = ApplierV;

    closed spec fn view(&self) -> ApplierV {
        ApplierV {
            plan: self.plan@,
            opts: self.opts@,
            excludes: self.excludes.deep_view(),
            decision: self.decision as int,
            item: self.item as int,
            stage: self.stage,
            dest: self.dest@,
            target: self.target@,
            seen: self.seen.deep_view(),
            result: self.result@,
        }
    }
}

/// Where a run stands.
pub enum Progress {
    /// The run waits for the outcome of the request.
    Pending(Applier, Request),
    /// The run is over: its counts, or the error that ended it.
    Finished(Result<ApplyResult, Error>),
}

/// View of a [`Progress`].
pub enum ProgressV {
    Pending(ApplierV, RequestV),
    Finished(Result<ApplyResultV, ErrorV>),
}

impl View for Progress {
    type V = ProgressV;

    open spec fn view(&self) -> ProgressV {
        match self {
            Progress::Pending(a, r) => ProgressV::Pending(a@, r@),
            Progress::Finished(Ok(res)) => ProgressV::Finished(Ok(res@)),
            Progress::Finished(Err(e)) => ProgressV::Finished(Err(e@)),
        }
    }
}

/// The items of a decision: its canonical copy and its quarantined copies.
pub open spec fn items_of(d: DecisionV) -> int {
    d.quarantine.len() + 1int
}

/// The items of the first `i` decisions.
pub open spec fn items_before(ds: Seq<DecisionV>, i: int) -> int
    decreases i,
{
    if i <= 0 {
        0
    } else {
        items_before(ds, i - 1) + items_of(ds[i - 1])
    }
}

/// The union remotes of the first `i` decisions.
pub open spec fn unions_before(ds: Seq<DecisionV>, i: int) -> int
    decreases i,
{
    if i <= 0 {
        0
    } else {
        unions_before(ds, i - 1) + ds[i - 1].union_remotes.len()
    }
}

/// The copy of item `k` of a decision.
pub open spec fn item_copy(d: DecisionV, k: int) -> CopyV {
    if k == 0 {
        d.canonical
    } else {
        d.quarantine[k - 1].copy
    }
}

/// The planned destination of item `k` of a decision.
pub open spec fn item_dest(d: DecisionV, k: int) -> Seq<char> {
    if k == 0 {
        d.dest_path
    } else {
        d.quarantine[k - 1].dest_path
    }
}

/// The items of a decision can be counted in a `usize`.
pub open spec fn decision_fits(d: DecisionV) -> bool {
    d.quarantine.len() < usize::MAX
}

/// The destinations a run of decisions `ds` has taken once it has entered
/// the first `k` items of decision `i` (all items of the decisions before).
pub open spec fn seen_upto(ds: Seq<DecisionV>, i: int, k: int) -> Seq<Seq<char>>
    decreases i, k,
{
    if k > 0 {
        let s = seen_upto(ds, i, k - 1);
        s.push(disambiguated(s, item_dest(ds[i], k - 1), item_copy(ds[i], k - 1)))
    } else if i > 0 {
        seen_upto(ds, i - 1, items_of(ds[i - 1]))
    } else {
        Seq::empty()
    }
}

/// Item `k` of decision `i` needs no destination suffix, or its suffix does
/// not cut a character in two.
pub open spec fn item_cut_ok(ds: Seq<DecisionV>, i: int, k: int) -> bool {
    seen_upto(ds, i, k).contains(item_dest(ds[i], k)) ==> root_id_fits(item_copy(ds[i], k))
}

/// No destination suffix that a run of `ds` needs cuts a character in two.
pub open spec fn cuts_fit(ds: Seq<DecisionV>) -> bool {
    forall|i: int, k: int| 0 <= i < ds.len() && 0 <= k < items_of(ds[i]) ==> #[trigger] item_cut_ok(ds, i, k)
}

/// The plan can be run without overflowing the counts, every decision
/// fits, and no destination suffix the run needs cuts a character in two.
pub open spec fn plan_fits(p: PlanV) -> bool {
    &&& items_before(p.decisions, p.decisions.len() as int) + unions_before(p.decisions, p.decisions.len() as int)
        <= i64::MAX
    &&& forall|i: int| 0 <= i < p.decisions.len() ==> #[trigger] decision_fits(p.decisions[i])
    &&& cuts_fit(p.decisions)
}

/// The destinations taken once the pending item of a run has been entered.
pub open spec fn seen_now(st: ApplierV) -> Seq<Seq<char>> {
    seen_upto(
        st.plan.decisions,
        st.decision,
        if st.stage == Stage::Union {
            st.item
        } else {
            st.item + 1
        },
    )
}

/// The counts after `i` decisions and `k` more items: each item counted
/// once, as copied, quarantined or skipped; each union remote of the done
/// decisions counted as unioned.
pub open spec fn counts_at(st: ApplierV, i: int, k: int) -> bool {
    &&& st.result.copied >= 0
    &&& st.result.quarantined >= 0
    &&& st.result.skipped >= 0
    &&& st.result.copied + st.result.quarantined + st.result.skipped == items_before(st.plan.decisions, i) + k
    &&& st.result.unioned == unions_before(st.plan.decisions, i)
}

/// The parts of a run's state that do not change with its position.
pub open spec fn applier_base(st: ApplierV) -> bool {
    &&& st.excludes == excludes_spec(st.opts)
    &&& plan_fits(st.plan)
}

/// The decision at hand.
pub open spec fn current(st: ApplierV) -> DecisionV {
    st.plan.decisions[st.decision]
}

/// A well-formed run state.
pub open spec fn applier_wf(st: ApplierV) -> bool {
    &&& applier_base(st)
    &&& 0 <= st.decision < st.plan.decisions.len()
    &&& 0 <= st.item <= items_of(current(st))
    &&& (st.stage == Stage::Union <==> st.item == items_of(current(st)))
    &&& counts_at(st, st.decision, st.item)
    &&& st.seen == seen_now(st)
}

/// The request of a run state.
pub open spec fn request_of(st: ApplierV) -> RequestV {
    let d = current(st);
    match st.stage {
        Stage::Hash => RequestV::Hash {
            src: item_copy(d, st.item).path,
            dst: st.target,
            excludes: if st.item == 0 {
                st.excludes.push("_quarantine"@)
            } else {
                st.excludes
            },
        },
        Stage::Copy => RequestV::Copy {
            src: item_copy(d, st.item).path,
            dst: st.target,
            excludes: st.excludes,
            dry_run: st.opts.dry_run,
        },
        Stage::Union => RequestV::Union { dest: st.dest, remotes: d.union_remotes, dry_run: st.opts.dry_run },
    }
}

/// Moving on to item `k` of the decision at hand: for an item, take its
/// destination and ask for the hashes; after the items, ask for the union
/// work.
pub open spec fn enter_item_spec(st: ApplierV, k: int) -> ProgressV {
    let d = current(st);
    if k < items_of(d) {
        let t = disambiguated(st.seen, item_dest(d, k), item_copy(d, k));
        let st2 = ApplierV {
            item: k,
            stage: Stage::Hash,
            target: t,
            seen: st.seen.push(t),
            dest: if k == 0 {
                t
            } else {
                st.dest
            },
            ..st
        };
        ProgressV::Pending(st2, request_of(st2))
    } else {
        let st2 = ApplierV { item: k, stage: Stage::Union, ..st };
        ProgressV::Pending(st2, request_of(st2))
    }
}

/// Moving on to decision `i`: its first item, or the end of the run.
pub open spec fn enter_decision_spec(st: ApplierV, i: int) -> ProgressV {
    if i < st.plan.decisions.len() {
        enter_item_spec(ApplierV { decision: i, ..st }, 0)
    } else {
        ProgressV::Finished(Ok(st.result))
    }
}

/// The counts before anything is done.
pub open spec fn no_counts() -> ApplyResultV {
    ApplyResultV {
        copied: 0,
        quarantined: 0,
        unioned: 0,
        skipped: 0,
        skipped_files: Seq::empty(),
        actions: Seq::empty(),
    }
}

/// The start of a run of plan `p` with options `o`.
pub open spec fn start_spec(p: PlanV, o: OptionsV) -> ProgressV {
    enter_decision_spec(
        ApplierV {
            plan: p,
            opts: o,
            excludes: excludes_spec(o),
            decision: 0,
            item: 0,
            stage: Stage::Hash,
            dest: Seq::empty(),
            target: Seq::empty(),
            seen: Seq::empty(),
            result: no_counts(),
        },
        0,
    )
}

/// What the message of a failed hash starts with: the item it was for.
pub open spec fn check_context(st: ApplierV) -> Seq<char> {
    let d = current(st);
    if st.item == 0 {
        "check canonical "@ + d.group.repo_name
    } else {
        "check quarantine "@ + d.group.repo_name + "/"@ + item_copy(d, st.item).machine
    }
}

/// The message of a failed hash.
pub open spec fn hash_failure(st: ApplierV, src_side: bool, message: Seq<char>) -> Seq<char> {
    check_context(st) + ": "@ + (if src_side {
        "hash src "@ + item_copy(current(st), st.item).path
    } else {
        "hash dst "@ + st.target
    }) + ": "@ + message
}

/// The message of a failed copy.
pub open spec fn copy_failure(st: ApplierV, message: Seq<char>) -> Seq<char> {
    let d = current(st);
    (if st.item == 0 {
        "copy canonical "@ + d.group.repo_name
    } else {
        "quarantine "@ + d.group.repo_name + "/"@ + item_copy(d, st.item).machine
    }) + ": "@ + message
}

/// The counts after item `k` was copied, with `skipped` files it could not
/// read: the canonical copy counts as copied, any other as quarantined.
pub open spec fn after_copy(r: ApplyResultV, k: int, skipped: Seq<Seq<char>>) -> ApplyResultV {
    ApplyResultV {
        copied: if k == 0 {
            (r.copied + 1) as i64
        } else {
            r.copied
        },
        quarantined: if k == 0 {
            r.quarantined
        } else {
            (r.quarantined + 1) as i64
        },
        skipped_files: r.skipped_files + skipped,
        ..r
    }
}

/// The next step of a run given the outcome of its request. A hashed item
/// whose destination already holds its tree is skipped, else copied; a
/// failure ends the run with its context; after the union work the next
/// decision follows. A reply that does not answer the request leaves the
/// run as it was, asking again.
pub open spec fn resume_spec(st: ApplierV, reply: ReplyV) -> ProgressV {
    match (st.stage, reply) {
        (Stage::Hash, ReplyV::Hashed { src_hash, dst_hash }) => if dst_hash.len() > 0 && src_hash == dst_hash {
            enter_item_spec(
                ApplierV { result: ApplyResultV { skipped: (st.result.skipped + 1) as i64, ..st.result }, ..st },
                st.item + 1,
            )
        } else {
            let st2 = ApplierV { stage: Stage::Copy, ..st };
            ProgressV::Pending(st2, request_of(st2))
        },
        (Stage::Hash, ReplyV::HashFailed { src_side, message }) => ProgressV::Finished(
            Err(ErrorV::Io(hash_failure(st, src_side, message))),
        ),
        (Stage::Copy, ReplyV::Copied(skipped)) => enter_item_spec(
            ApplierV { result: after_copy(st.result, st.item, skipped), ..st },
            st.item + 1,
        ),
        (Stage::Copy, ReplyV::CopyFailed(message)) => ProgressV::Finished(
            Err(ErrorV::Io(copy_failure(st, message))),
        ),
        (Stage::Union, ReplyV::Unioned(Ok(()))) => enter_decision_spec(
            ApplierV {
                result: ApplyResultV {
                    unioned: (st.result.unioned + current(st).union_remotes.len()) as i64,
                    ..st.result
                },
                ..st
            },
            st.decision + 1,
        ),
        (Stage::Union, ReplyV::Unioned(Err(e))) => ProgressV::Finished(Err(ErrorV::Git(e))),
        _ => ProgressV::Pending(st, request_of(st)),
    }
}

/// A pending run is well formed.
pub open spec fn progress_wf(p: ProgressV) -> bool {
    match p {
        ProgressV::Pending(st, _) => applier_wf(st),
        ProgressV::Finished(_) => true,
    }
}

/// The counts of items and of union remotes grow with the number of decisions.
pub proof fn lemma_items_before_grows(ds: Seq<DecisionV>, i: int, j: int)
    requires
        0 <= i <= j,
    ensures
        items_before(ds, i) <= items_before(ds, j),
        unions_before(ds, i) <= unions_before(ds, j),
    decreases j - i,
{
    if i < j {
        lemma_items_before_grows(ds, i, j - 1);
    }
}

fn extend_strings(dst: &mut Vec<String>, src: &Vec<String>)
    ensures
        final(dst).deep_view() == old(dst).deep_view() + src.deep_view(),
{
    let ghost start = old(dst).deep_view();
    for i in 0..src.len()
        invariant
            dst.deep_view() == start + src.deep_view().take(i as int),
    {
        let ghost before = *dst;
        let x = src[i].clone();
        let ghost xv = x;
        dst.push(x);
        proof {
            lemma_deep_view_push(before, *dst, xv);
            assert(src.deep_view()[i as int] == xv@);
            assert(start + src.deep_view().take(i + 1) =~= (start + src.deep_view().take(i as int)).push(xv@));
        }
    }
    assert(src.deep_view().take(src@.len() as int) =~= src.deep_view());
}

impl Applier {
    fn request(&self) -> (r: Request)
        requires
            applier_wf(self@),
        ensures
            r@ == request_of(self@),
    {
        let d = &self.plan.decisions[self.decision];
        proof {
            assert(self@.plan.decisions[self.decision as int] == d@);
        }
        match self.stage {
            Stage::Hash => {
                let src = self.item_src();
                let excludes = if self.item == 0 {
                    canonical_excludes(&self.excludes)
                } else {
                    clone_strings(&self.excludes)
                };
                Request::Hash { src, dst: self.target.clone(), excludes }
            },
            Stage::Copy => Request::Copy {
                src: self.item_src(),
                dst: self.target.clone(),
                excludes: clone_strings(&self.excludes),
                dry_run: self.opts.dry_run,
            },
            Stage::Union => Request::Union {
                dest: self.dest.clone(),
                remotes: crate::model::clone_union_remotes(&d.union_remotes),
                dry_run: self.opts.dry_run,
            },
        }
    }

    fn enter_item(self, k: usize) -> (p: Progress)
        requires
            applier_base(self@),
            0 <= self@.decision < self@.plan.decisions.len(),
            k <= items_of(current(self@)),
            counts_at(self@, self@.decision, k as int),
            self@.seen == seen_upto(self@.plan.decisions, self@.decision, k as int),
        ensures
            p@ == enter_item_spec(self@, k as int),
            progress_wf(p@),
    {
        let mut s = self;
        let ghost st = s@;
        let nq = s.plan.decisions[s.decision].quarantine.len();
        proof {
            assert(st.plan.decisions[st.decision] == s.plan.decisions@[s.decision as int]@);
        }
        if k <= nq {
            let t = {
                let d = &s.plan.decisions[s.decision];
                proof {
                    assert(decision_fits(st.plan.decisions[st.decision]));
                    assert(item_cut_ok(st.plan.decisions, st.decision, k as int));
                }
                if k == 0 {
                    disambiguate(&s.seen, &d.dest_path, &d.canonical)
                } else {
                    let q = &d.quarantine[k - 1];
                    proof {
                        assert(d@.quarantine[k - 1] == q@);
                    }
                    disambiguate(&s.seen, &q.dest_path, &q.copy)
                }
            };
            s.item = k;
            s.stage = Stage::Hash;
            if k == 0 {
                s.dest = t.clone();
            }
            let ghost before = s.seen;
            let t2 = t.clone();
            let ghost tv = t2;
            s.seen.push(t2);
            proof {
                lemma_deep_view_push(before, s.seen, tv);
            }
            s.target = t;
            let r = s.request();
            Progress::Pending(s, r)
        } else {
            s.item = k;
            s.stage = Stage::Union;
            let r = s.request();
            Progress::Pending(s, r)
        }
    }

    fn enter_decision(self, i: usize) -> (p: Progress)
        requires
            applier_base(self@),
            i <= self@.plan.decisions.len(),
            counts_at(self@, i as int, 0),
            i < self@.plan.decisions.len() ==> self@.seen == seen_upto(self@.plan.decisions, i as int, 0),
        ensures
            p@ == enter_decision_spec(self@, i as int),
            progress_wf(p@),
    {
        if i < self.plan.decisions.len() {
            let mut s = self;
            s.decision = i;
            s.enter_item(0)
        } else {
            Progress::Finished(Ok(self.result))
        }
    }

    /// Starts a run of `plan` with `opts`: the first request, or the end of
    /// a run of an empty plan.
    pub fn start(plan: Plan, opts: Options) -> (p: Progress)
        requires
            plan_fits(plan@),
        ensures
            p@ == start_spec(plan@, opts@),
            progress_wf(p@),
    {
        let excludes = opts.excludes();
        let result = ApplyResult::default();
        let s = Applier {
            plan,
            opts,
            excludes,
            decision: 0,
            item: 0,
            stage: Stage::Hash,
            dest: String::new(),
            target: String::new(),
            seen: Vec::new(),
            result,
        };
        proof {
            assert(s@.seen =~= Seq::<Seq<char>>::empty());
            assert(s@.dest =~= Seq::<char>::empty());
            assert(s@.target =~= Seq::<char>::empty());
        }
        s.enter_decision(0)
    }

    /// Takes the outcome of the pending request and goes on to the next
    /// request or to the end of the run.
    pub fn resume(self, reply: Reply) -> (p: Progress)
        requires
            applier_wf(self@),
        ensures
            p@ == resume_spec(self@, reply@),
            progress_wf(p@),
    {
        let mut s = self;
        let ghost st = s@;
        let ghost ds = st.plan.decisions;
        proof {
            lemma_items_before_grows(ds, st.decision + 1, ds.len() as int);
            lemma_items_before_grows(ds, 0, ds.len() as int);
            lemma_items_before_grows(ds, 0, st.decision);
            assert(decision_fits(ds[st.decision]));
            assert(ds[st.decision] == s.plan.decisions@[s.decision as int]@);
        }
        match reply {
            Reply::Hashed { src_hash, dst_hash } => {
                if s.stage != Stage::Hash {
                    let r = s.request();
                    return Progress::Pending(s, r);
                }
                if already_consolidated(src_hash.as_str(), dst_hash.as_str()) {
                    s.result.skipped = s.result.skipped + 1;
                    let k = s.item + 1;
                    s.enter_item(k)
                } else {
                    s.stage = Stage::Copy;
                    let r = s.request();
                    Progress::Pending(s, r)
                }
            },
            Reply::HashFailed { src_side, message } => {
                if s.stage != Stage::Hash {
                    let r = s.request();
                    return Progress::Pending(s, r);
                }
                let m = s.hash_failure_message(src_side, message.as_str());
                Progress::Finished(Err(Error::Io(m)))
            },
            Reply::Copied(skipped) => {
                if s.stage != Stage::Copy {
                    let r = s.request();
                    return Progress::Pending(s, r);
                }
                if s.item == 0 {
                    s.result.copied = s.result.copied + 1;
                } else {
                    s.result.quarantined = s.result.quarantined + 1;
                }
                extend_strings(&mut s.result.skipped_files, &skipped);
                let k = s.item + 1;
                s.enter_item(k)
            },
            Reply::CopyFailed(message) => {
                if s.stage != Stage::Copy {
                    let r = s.request();
                    return Progress::Pending(s, r);
                }
                let m = s.copy_failure_message(message.as_str());
                Progress::Finished(Err(Error::Io(m)))
            },
            Reply::Unioned(res) => {
                if s.stage != Stage::Union {
                    let r = s.request();
                    return Progress::Pending(s, r);
                }
                match res {
                    Ok(()) => {
                        let nd = s.plan.decisions.len();
                        assert(s.decision < nd);
                        let n = s.plan.decisions[s.decision].union_remotes.len();
                        s.result.unioned = s.result.unioned + n as i64;
                        let i = s.decision + 1;
                        s.enter_decision(i)
                    },
                    Err(e) => Progress::Finished(Err(Error::Git(e))),
                }
            },
        }
    }

    fn item_src(&self) -> (r: String)
        requires
            applier_wf(self@),
            self@.stage != Stage::Union,
        ensures
            r@ == item_copy(current(self@), self@.item).path,
    {
        let (_repo, _machine, src) = self.item_names();
        src
    }

    fn item_names(&self) -> (r: (String, String, String))
        requires
            applier_wf(self@),
            self@.stage != Stage::Union,
        ensures
            r.0@ == current(self@).group.repo_name,
            r.1@ == item_copy(current(self@), self@.item).machine,
            r.2@ == item_copy(current(self@), self@.item).path,
    {
        let d = &self.plan.decisions[self.decision];
        proof {
            assert(self@.plan.decisions[self.decision as int] == d@);
        }
        if self.item == 0 {
            (d.group.repo_name.clone(), d.canonical.machine.clone(), d.canonical.path.clone())
        } else {
            let q = &d.quarantine[self.item - 1];
            proof {
                assert(d@.quarantine[self.item - 1] == q@);
            }
            (d.group.repo_name.clone(), q.copy.machine.clone(), q.copy.path.clone())
        }
    }

    fn hash_failure_message(&self, src_side: bool, message: &str) -> (m: String)
        requires
            applier_wf(self@),
            self@.stage == Stage::Hash,
        ensures
            m@ == hash_failure(self@, src_side, message@),
    {
        let (repo, machine, src) = self.item_names();
        let mut v: Vec<char> = Vec::new();
        if self.item == 0 {
            append_str(&mut v, "check canonical ");
            append_str(&mut v, repo.as_str());
        } else {
            append_str(&mut v, "check quarantine ");
            append_str(&mut v, repo.as_str());
            append_str(&mut v, "/");
            append_str(&mut v, machine.as_str());
        }
        let ghost ctx = v@;
        assert(ctx == check_context(self@));
        append_str(&mut v, ": ");
        if src_side {
            append_str(&mut v, "hash src ");
            append_str(&mut v, src.as_str());
        } else {
            append_str(&mut v, "hash dst ");
            append_str(&mut v, self.target.as_str());
        }
        append_str(&mut v, ": ");
        append_str(&mut v, message);
        assert(v@ =~= hash_failure(self@, src_side, message@));
        from_chars(v.as_slice())
    }

    fn copy_failure_message(&self, message: &str) -> (m: String)
        requires
            applier_wf(self@),
            self@.stage == Stage::Copy,
        ensures
            m@ == copy_failure(self@, message@),
    {
        let (repo, machine, _src) = self.item_names();
        let mut v: Vec<char> = Vec::new();
        if self.item == 0 {
            append_str(&mut v, "copy canonical ");
            append_str(&mut v, repo.as_str());
        } else {
            append_str(&mut v, "quarantine ");
            append_str(&mut v, repo.as_str());
            append_str(&mut v, "/");
            append_str(&mut v, machine.as_str());
        }
        append_str(&mut v, ": ");
        append_str(&mut v, message);
        assert(v@ =~= copy_failure(self@, message@));
        from_chars(v.as_slice())
    }
}

fn root_id_fits_exec(c: &crate::model::Copy) -> (r: bool)
    ensures
        r == root_id_fits(c@),
{
    if c.fp.root_commits.len() > 0 {
        let rc0 = &c.fp.root_commits[0];
        assert(c@.fp.root_commits[0] == rc0@);
        let b = crate::text::utf8_bytes(rc0.as_str());
        if b.len() >= 7 {
            return short_root(rc0).is_some();
        }
    }
    true
}

/// Whether a run of `ds` needs no destination suffix that cuts a character
/// in two: the run's destinations, item by item, as the run takes them.
fn cuts_fit_exec(ds: &Vec<crate::model::Decision>) -> (r: bool)
    requires
        forall|i: int| 0 <= i < ds@.len() ==> #[trigger] decision_fits(ds@[i]@),
    ensures
        r == cuts_fit(ds.deep_view()),
{
    let ghost dv = ds.deep_view();
    assert(dv.len() == ds@.len());
    let mut seen: Vec<String> = Vec::new();
    assert(seen.deep_view() =~= seen_upto(dv, 0, 0));
    for i in 0..ds.len()
        invariant
            dv == ds.deep_view(),
            dv.len() == ds@.len(),
            forall|a: int| 0 <= a < ds@.len() ==> #[trigger] decision_fits(ds@[a]@),
            seen.deep_view() == seen_upto(dv, i as int, 0),
            forall|a: int, b: int| 0 <= a < i && 0 <= b < items_of(dv[a]) ==> #[trigger] item_cut_ok(dv, a, b),
    {
        let d = &ds[i];
        proof {
            assert(dv[i as int] == d@);
            assert(decision_fits(ds@[i as int]@));
        }
        let n = d.quarantine.len() + 1;
        for k in 0..n
            invariant
                dv == ds.deep_view(),
                dv.len() == ds@.len(),
                i < dv.len(),
                dv[i as int] == d@,
                n == items_of(d@),
                seen.deep_view() == seen_upto(dv, i as int, k as int),
                forall|b: int| 0 <= b < k ==> #[trigger] item_cut_ok(dv, i as int, b),
        {
            let (dest, c) = if k == 0 {
                (&d.dest_path, &d.canonical)
            } else {
                proof {
                    assert(d@.quarantine[k - 1] == d.quarantine@[k - 1]@);
                }
                (&d.quarantine[k - 1].dest_path, &d.quarantine[k - 1].copy)
            };
            assert(dest@ == item_dest(dv[i as int], k as int) && c@ == item_copy(dv[i as int], k as int));
            let taken = contains_string(&seen, dest);
            if taken && !root_id_fits_exec(c) {
                assert(!item_cut_ok(dv, i as int, k as int));
                return false;
            }
            let t = disambiguate(&seen, dest, c);
            let ghost before = seen;
            let ghost tv = t;
            seen.push(t);
            proof {
                lemma_deep_view_push(before, seen, tv);
            }
        }
        assert(seen_upto(dv, i + 1, 0) == seen_upto(dv, i as int, items_of(dv[i as int])));
    }
    true
}

/// Whether a plan can be run: [`plan_fits`] (no count overflows, and no
/// destination suffix that the run needs cuts a character in two).
pub fn plan_can_run(p: &Plan) -> (r: bool)
    ensures
        r == plan_fits(p@),
{
    let ghost ds = p@.decisions;
    let limit: u128 = 9_223_372_036_854_775_807;
    let mut items: u128 = 0;
    let mut unions: u128 = 0;
    let mut all_fit = true;
    let mut i: usize = 0;
    while i < p.decisions.len()
        invariant
            i <= ds.len(),
            ds == p@.decisions,
            limit == i64::MAX,
            items == items_before(ds, i as int),
            unions == unions_before(ds, i as int),
            items + unions <= limit,
            all_fit == (forall|a: int| 0 <= a < i ==> #[trigger] decision_fits(ds[a])),
        decreases ds.len() - i,
    {
        let d = &p.decisions[i];
        proof {
            assert(ds[i as int] == d@);
        }
        let nq = d.quarantine.len();
        let nu = d.union_remotes.len();
        items = items + nq as u128 + 1;
        unions = unions + nu as u128;
        proof {
            lemma_items_before_grows(ds, i + 1, ds.len() as int);
        }
        if items + unions > limit {
            return false;
        }
        assert(d@.quarantine.len() == d.quarantine@.len());
        let ghost before = all_fit;
        if d.quarantine.len() == usize::MAX {
            all_fit = false;
        }
        proof {
            assert(decision_fits(ds[i as int]) == (d.quarantine@.len() < usize::MAX));
            assert(all_fit == (before && decision_fits(ds[i as int])));
            if all_fit {
                assert forall|a: int| 0 <= a < i + 1 implies #[trigger] decision_fits(ds[a]) by {}
            }
        }
        i = i + 1;
    }
    if !all_fit {
        return false;
    }
    proof {
        assert forall|a: int| 0 <= a < p.decisions@.len() implies #[trigger] decision_fits(p.decisions@[a]@) by {
            assert(ds[a] == p.decisions@[a]@);
        }
    }
    cuts_fit_exec(&p.decisions)
}

} // verus!
