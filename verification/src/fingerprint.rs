//! The fingerprint of a copy, read from git's output.
//!
//! [`fingerprint_from`] turns the outputs of the git queries into a
//! fingerprint with an exact contract; [`compute`] asks a [`Runner`] those
//! queries and records the result.
use vstd::prelude::*;

use crate::clock::{parse_rfc3339, year_one_secs, zero_time, Timestamp};
use crate::gitx::{arg_texts, CallV, GitError, GitErrorV, Logged, Runner};
use crate::model::{Branch, BranchV, Fingerprint, FingerprintV};
use crate::text::{
    find_char, find_char_exec, from_chars, has_prefix, lemma_deep_view_push, lines, lines_spec,
    parse_i64, parse_i64_spec, sort_strings, sort_texts, starts_with, sub_chars, to_chars,
    trim, trim_chars,
};

verus! {

/// The outputs of the git queries for one copy; `None` where the query failed
/// (or, for `counts`, was not asked).
#[derive(Debug)]
pub struct GitOutputs {
    /// `rev-parse HEAD`
    pub head: Option<String>,
    /// `rev-list --max-parents=0 --all`
    pub roots: Option<String>,
    /// `rev-list --all`
    pub all: Option<String>,
    /// `for-each-ref --format=%(refname:short) %(objectname) refs/heads`
    pub refs: Option<String>,
    /// `status --porcelain`
    pub status: Option<String>,
    /// `stash list`
    pub stash: Option<String>,
    /// `rev-parse --abbrev-ref --symbolic-full-name @{u}`
    pub upstream: Option<String>,
    /// `rev-list --count --left-right <upstream>...HEAD`
    pub counts: Option<String>,
    /// `log -1 --format=%cI`
    pub last: Option<String>,
}

/// View of [`GitOutputs`].
pub struct GitOutputsV {
    pub head: Option<Seq<char>>,
    pub roots: Option<Seq<char>>,
    pub all: Option<Seq<char>>,
    pub refs: Option<Seq<char>>,
    pub status: Option<Seq<char>>,
    pub stash: Option<Seq<char>>,
    pub upstream: Option<Seq<char>>,
    pub counts: Option<Seq<char>>,
    pub last: Option<Seq<char>>,
}

/// The view of an optional string.
pub open spec fn opt_view(o: Option<String>) -> Option<Seq<char>> {
    match o {
        Some(s) => Some(s@),
        None => None,
    }
}

impl View for GitOutputs {
    type V = GitOutputsV;

    open spec fn view(&self) -> GitOutputsV {
        GitOutputsV {
            head: opt_view(self.head),
            roots: opt_view(self.roots),
            all: opt_view(self.all),
            refs: opt_view(self.refs),
            status: opt_view(self.status),
            stash: opt_view(self.stash),
            upstream: opt_view(self.upstream),
            counts: opt_view(self.counts),
            last: opt_view(self.last),
        }
    }
}

/// The output text, "" when the query failed.
pub open spec fn or_empty(o: Option<Seq<char>>) -> Seq<char> {
    match o {
        Some(s) => s,
        None => Seq::empty(),
    }
}

/// The branches listed by `for-each-ref`: each line with a space is a name
/// and a tip split at its first space; lines without one are skipped.
pub open spec fn branches_spec(ls: Seq<Seq<char>>) -> Seq<BranchV>
    decreases ls.len(),
{
    if ls.len() == 0 {
        Seq::empty()
    } else {
        let prev = branches_spec(ls.drop_last());
        let ln = ls.last();
        match find_char(ln, ' ') {
            Some(i) => prev.push(BranchV { name: ln.take(i), tip: ln.skip(i + 1) }),
            None => prev,
        }
    }
}

/// How many `status --porcelain` lines are untracked files (start with `??`).
pub open spec fn untracked_spec(ls: Seq<Seq<char>>) -> int
    decreases ls.len(),
{
    if ls.len() == 0 {
        0
    } else {
        untracked_spec(ls.drop_last()) + if starts_with(ls.last(), "??"@) {
            1int
        } else {
            0int
        }
    }
}

/// How many `status --porcelain` lines are changed files (not `??`, not blank).
pub open spec fn dirty_spec(ls: Seq<Seq<char>>) -> int
    decreases ls.len(),
{
    if ls.len() == 0 {
        0
    } else {
        dirty_spec(ls.drop_last()) + if !starts_with(ls.last(), "??"@) && trim(ls.last()).len() > 0 {
            1int
        } else {
            0int
        }
    }
}

/// A number read as `str::parse` reads it, 0 when it does not parse.
pub open spec fn number_or_zero(s: Seq<char>) -> i64 {
    match parse_i64_spec(s) {
        Some(v) => v,
        None => 0,
    }
}

/// `(behind, ahead)`: read from the counts when the copy has a non-empty
/// upstream and the count query answered with a tab-separated pair; else 0.
pub open spec fn divergence_spec(o: GitOutputsV) -> (i64, i64) {
    match o.upstream {
        Some(up) => if up.len() > 0 {
            match o.counts {
                Some(out) => match find_char(out, '\t') {
                    Some(i) => (number_or_zero(trim(out.take(i))), number_or_zero(trim(out.skip(i + 1)))),
                    None => (0, 0),
                },
                None => (0, 0),
            }
        } else {
            (0, 0)
        },
        None => (0, 0),
    }
}

/// The commit date of HEAD: the instant of a non-empty RFC 3339 answer that
/// parses, else the zero instant.
pub open spec fn last_commit_spec(last: Option<Seq<char>>) -> Timestamp {
    let zero = Timestamp { secs: year_one_secs() as i64, nanos: 0 };
    match last {
        Some(iso) => if iso.len() > 0 {
            match crate::clock::rfc3339_instant(iso) {
                Some(t) => Timestamp { secs: t.0, nanos: t.1 },
                None => zero,
            }
        } else {
            zero
        },
        None => zero,
    }
}

/// The fingerprint that the outputs `o` describe.
pub open spec fn fingerprint_spec(o: GitOutputsV) -> FingerprintV {
    let all = lines_spec(or_empty(o.all));
    let st = lines_spec(or_empty(o.status));
    let dv = divergence_spec(o);
    FingerprintV {
        head: or_empty(o.head),
        root_commits: sort_texts(lines_spec(or_empty(o.roots))),
        all_commits: sort_texts(all),
        branches: branches_spec(lines_spec(or_empty(o.refs))),
        ahead: dv.1,
        behind: dv.0,
        dirty_count: dirty_spec(st) as i64,
        untracked_count: untracked_spec(st) as i64,
        stash_count: lines_spec(or_empty(o.stash)).len() as i64,
        commit_count: all.len() as i64,
        last_commit: last_commit_spec(o.last),
        worktree_size: 0,
        dir_mtime: Timestamp { secs: year_one_secs() as i64, nanos: 0 },
    }
}

fn text_of(o: &Option<String>) -> (r: Vec<char>)
    ensures
        r@ == or_empty(opt_view(*o)),
{
    match o {
        Some(s) => to_chars(s.as_str()),
        None => Vec::new(),
    }
}

fn strings_of(ls: &Vec<Vec<char>>) -> (r: Vec<String>)
    ensures
        r.deep_view() == ls.deep_view(),
{
    let mut r: Vec<String> = Vec::new();
    for i in 0..ls.len()
        invariant
            r.deep_view() == ls.deep_view().take(i as int),
    {
        let ghost before = r;
        let s = from_chars(&ls[i]);
        r.push(s);
        proof {
            lemma_deep_view_push(before, r, s);
            assert(ls@[i as int].deep_view() =~= ls@[i as int]@);
            assert(r.deep_view() =~= ls.deep_view().take(i + 1));
        }
    }
    assert(ls.deep_view().take(ls@.len() as int) =~= ls.deep_view());
    r
}

fn line_list(o: &Option<String>) -> (r: Vec<Vec<char>>)
    ensures
        r.deep_view() == lines_spec(or_empty(opt_view(*o))),
{
    let t = text_of(o);
    let s = from_chars(&t);
    lines(s.as_str())
}

fn number_of(v: &Vec<char>) -> (r: i64)
    ensures
        r == number_or_zero(trim(v@)),
{
    let t = trim_chars(v);
    match parse_i64(&t) {
        Some(n) => n,
        None => 0,
    }
}

/// The fingerprint that the outputs of the git queries describe.
pub fn fingerprint_from(o: &GitOutputs) -> (fp: Fingerprint)
    ensures
        fp@ == fingerprint_spec(o@),
{
    let head = from_chars(&text_of(&o.head));
    let roots = sort_strings(&strings_of(&line_list(&o.roots)));
    let all_lines = line_list(&o.all);
    let all = sort_strings(&strings_of(&all_lines));
    let commit_count = all_lines.len() as i64;

    let refs = line_list(&o.refs);
    let mut branches: Vec<Branch> = Vec::new();
    for i in 0..refs.len()
        invariant
            branches.deep_view() == branches_spec(refs.deep_view().take(i as int)),
    {
        let ln = &refs[i];
        proof {
            assert(refs.deep_view().take(i + 1).drop_last() =~= refs.deep_view().take(i as int));
            assert(refs@[i as int].deep_view() =~= ln@);
            assert(refs.deep_view().take(i + 1).last() == ln@);
        }
        match find_char_exec(ln, ' ') {
            Some(k) => {
                let b = Branch {
                    name: from_chars(&sub_chars(ln, 0, k)),
                    tip: from_chars(&sub_chars(ln, k + 1, ln.len())),
                };
                let ghost before = branches;
                let ghost bb = b;
                branches.push(b);
                proof {
                    lemma_deep_view_push(before, branches, bb);
                }
            },
            None => {},
        }
    }
    assert(refs.deep_view().take(refs@.len() as int) =~= refs.deep_view());

    let st = line_list(&o.status);
    let q = to_chars("??");
    let mut untracked: usize = 0;
    let mut dirty: usize = 0;
    for i in 0..st.len()
        invariant
            q@ == "??"@,
            untracked == untracked_spec(st.deep_view().take(i as int)),
            dirty == dirty_spec(st.deep_view().take(i as int)),
            untracked <= i,
            dirty <= i,
    {
        let ln = &st[i];
        proof {
            assert(st.deep_view().take(i + 1).drop_last() =~= st.deep_view().take(i as int));
            assert(st@[i as int].deep_view() =~= ln@);
            assert(st.deep_view().take(i + 1).last() == ln@);
        }
        if has_prefix(ln, &q) {
            untracked = untracked + 1;
        } else if trim_chars(ln).len() > 0 {
            dirty = dirty + 1;
        }
    }
    assert(st.deep_view().take(st@.len() as int) =~= st.deep_view());

    let stash_count = line_list(&o.stash).len() as i64;

    let mut ahead: i64 = 0;
    let mut behind: i64 = 0;
    match &o.upstream {
        Some(up) => {
            if !up.as_str().is_empty() {
                match &o.counts {
                    Some(out) => {
                        let oc = to_chars(out.as_str());
                        match find_char_exec(&oc, '\t') {
                            Some(k) => {
                                behind = number_of(&sub_chars(&oc, 0, k));
                                let n = oc.len();
                                ahead = number_of(&sub_chars(&oc, k + 1, n));
                            },
                            None => {},
                        }
                    },
                    None => {},
                }
            }
        },
        None => {},
    }

    let mut last_commit = zero_time();
    match &o.last {
        Some(iso) => {
            if !iso.as_str().is_empty() {
                match parse_rfc3339(iso.as_str()) {
                    Some(t) => {
                        last_commit = t;
                    },
                    None => {},
                }
            }
        },
        None => {},
    }

    Fingerprint {
        head,
        root_commits: roots,
        all_commits: all,
        branches,
        ahead,
        behind,
        dirty_count: dirty as i64,
        untracked_count: untracked as i64,
        stash_count,
        commit_count,
        last_commit,
        worktree_size: 0,
        dir_mtime: zero_time(),
    }
}

/// Whether the outputs are consistent with how [`compute`] asks: the count
/// query is asked only for a non-empty upstream.
pub open spec fn outputs_asked(o: GitOutputsV) -> bool {
    o.counts is Some ==> (o.upstream matches Some(u) && u.len() > 0)
}

/// The text a call returned, `None` when it failed.
pub open spec fn answer_of(r: Result<Seq<char>, GitErrorV>) -> Option<Seq<char>> {
    match r {
        Ok(t) => Some(t),
        Err(_) => None,
    }
}

/// The queries [`compute`] always asks first, in order: head, root commits,
/// all commits, branches, status, stash, upstream.
pub open spec fn fixed_queries() -> Seq<Seq<Seq<char>>> {
    seq![
        seq!["rev-parse"@, "HEAD"@],
        seq!["rev-list"@, "--max-parents=0"@, "--all"@],
        seq!["rev-list"@, "--all"@],
        seq!["for-each-ref"@, "--format=%(refname:short) %(objectname)"@, "refs/heads"@],
        seq!["status"@, "--porcelain"@],
        seq!["stash"@, "list"@],
        seq!["rev-parse"@, "--abbrev-ref"@, "--symbolic-full-name"@, "@{u}"@],
    ]
}

/// The ahead/behind query against upstream `up`.
pub open spec fn count_query(up: Seq<char>) -> Seq<Seq<char>> {
    seq!["rev-list"@, "--count"@, "--left-right"@, up + "...HEAD"@]
}

/// The query for the time of the last commit.
pub open spec fn last_query() -> Seq<Seq<char>> {
    seq!["log"@, "-1"@, "--format=%cI"@]
}

/// The upstream query (call 6) answered a non-empty upstream, so the count
/// query follows it.
pub open spec fn asks_counts(calls: Seq<CallV>) -> bool {
    calls.len() > 6 && (answer_of(calls[6].result) matches Some(u) && u.len() > 0)
}

/// The calls are those [`compute`] makes in `dir`: the fixed queries, the
/// count query only after a non-empty upstream, and the last-commit query.
pub open spec fn compute_calls(calls: Seq<CallV>, dir: Seq<char>) -> bool {
    &&& calls.len() == (if asks_counts(calls) {
        9int
    } else {
        8int
    })
    &&& forall|k: int| 0 <= k < calls.len() ==> #[trigger] calls[k].dir == dir
    &&& forall|k: int| 0 <= k < 7 ==> #[trigger] calls[k].args == fixed_queries()[k]
    &&& asks_counts(calls) ==> calls[7].args == count_query(answer_of(calls[6].result)->0)
    &&& calls.last().args == last_query()
}

/// The outputs the calls gave, query by query.
pub open spec fn outputs_of(calls: Seq<CallV>) -> GitOutputsV {
    GitOutputsV {
        head: answer_of(calls[0].result),
        roots: answer_of(calls[1].result),
        all: answer_of(calls[2].result),
        refs: answer_of(calls[3].result),
        status: answer_of(calls[4].result),
        stash: answer_of(calls[5].result),
        upstream: answer_of(calls[6].result),
        counts: if asks_counts(calls) {
            answer_of(calls[7].result)
        } else {
            None
        },
        last: answer_of(calls.last().result),
    }
}

fn ask<R: Runner>(r: &mut Logged<R>, dir: &str, args: &[&str]) -> (o: Option<String>)
    requires
        old(r).wf(),
    ensures
        final(r).wf(),
        final(r).origin() == old(r).origin(),
        final(r).history() == old(r).history().push(final(r).history().last()),
        final(r).history().last().dir == dir@,
        final(r).history().last().args == arg_texts(args@),
        opt_view(o) == answer_of(final(r).history().last().result),
{
    let res = r.run(dir, args);
    match res {
        Ok(s) => Some(s),
        Err(_) => None,
    }
}

/// Fills `c.fp` from git (everything except worktree_size/dir_mtime, which
/// keep their zero values), asking in `c.path` exactly the queries of
/// [`compute_calls`], and taking each output from its call's answer (a failed
/// query counts as empty output). Always returns `Ok`.
pub fn compute<R: Runner>(r: &mut Logged<R>, c: &mut crate::model::Copy) -> (res: Result<(), GitError>)
    requires
        old(r).wf(),
    ensures
        res is Ok,
        final(r).wf(),
        final(r).origin() == old(r).origin(),
        final(r).history().take(old(r).history().len() as int) == old(r).history(),
        compute_calls(final(r).history().skip(old(r).history().len() as int), old(c)@.path),
        final(c)@.fp == fingerprint_spec(outputs_of(final(r).history().skip(old(r).history().len() as int))),
        final(c)@.path == old(c)@.path,
        final(c)@.root == old(c)@.root,
        final(c)@.machine == old(c)@.machine,
        final(c)@.owner == old(c)@.owner,
        final(c)@.repo_name == old(c)@.repo_name,
        final(c)@.remote_url == old(c)@.remote_url,
{
    let ghost h0 = r.history();
    let dir = c.path.clone();
    let q0: [&str; 2] = ["rev-parse", "HEAD"];
    let q1: [&str; 3] = ["rev-list", "--max-parents=0", "--all"];
    let q2: [&str; 2] = ["rev-list", "--all"];
    let q3: [&str; 3] = ["for-each-ref", "--format=%(refname:short) %(objectname)", "refs/heads"];
    let q4: [&str; 2] = ["status", "--porcelain"];
    let q5: [&str; 2] = ["stash", "list"];
    let q6: [&str; 4] = ["rev-parse", "--abbrev-ref", "--symbolic-full-name", "@{u}"];
    let q8: [&str; 3] = ["log", "-1", "--format=%cI"];
    proof {
        assert(arg_texts(q0@) =~= fixed_queries()[0]);
        assert(arg_texts(q1@) =~= fixed_queries()[1]);
        assert(arg_texts(q2@) =~= fixed_queries()[2]);
        assert(arg_texts(q3@) =~= fixed_queries()[3]);
        assert(arg_texts(q4@) =~= fixed_queries()[4]);
        assert(arg_texts(q5@) =~= fixed_queries()[5]);
        assert(arg_texts(q6@) =~= fixed_queries()[6]);
        assert(arg_texts(q8@) =~= last_query());
    }
    let head = ask(r, dir.as_str(), &q0);
    let ghost c0 = r.history().last();
    let roots = ask(r, dir.as_str(), &q1);
    let ghost c1 = r.history().last();
    let all = ask(r, dir.as_str(), &q2);
    let ghost c2 = r.history().last();
    let refs = ask(r, dir.as_str(), &q3);
    let ghost c3 = r.history().last();
    let status = ask(r, dir.as_str(), &q4);
    let ghost c4 = r.history().last();
    let stash = ask(r, dir.as_str(), &q5);
    let ghost c5 = r.history().last();
    let upstream = ask(r, dir.as_str(), &q6);
    let ghost c6 = r.history().last();
    let ghost first = seq![c0, c1, c2, c3, c4, c5, c6];
    assert(r.history() =~= h0 + first);
    let ghost mut middle: Seq<CallV> = Seq::empty();
    let mut counts: Option<String> = None;
    match &upstream {
        Some(up) => {
            if !up.as_str().is_empty() {
                let range = crate::text::concat_str(up.as_str(), "...HEAD");
                let q7: [&str; 4] = ["rev-list", "--count", "--left-right", range.as_str()];
                assert(arg_texts(q7@) =~= count_query(up@));
                counts = ask(r, dir.as_str(), &q7);
                proof {
                    middle = seq![r.history().last()];
                }
            }
        },
        None => {},
    }
    assert(r.history() =~= h0 + first + middle);
    let last = ask(r, dir.as_str(), &q8);
    let ghost c8 = r.history().last();
    let ghost calls = first + middle + seq![c8];
    proof {
        assert(r.history() =~= h0 + calls);
        assert(r.history().take(h0.len() as int) =~= h0);
        assert(r.history().skip(h0.len() as int) =~= calls);
        assert(calls[6] == c6);
        assert(asks_counts(calls) == (middle.len() == 1));
        assert forall|k: int| 0 <= k < calls.len() implies #[trigger] calls[k].dir == dir@ by {}
        assert forall|k: int| 0 <= k < 7 implies #[trigger] calls[k].args == fixed_queries()[k] by {}
    }
    let o = GitOutputs { head, roots, all, refs, status, stash, upstream, counts, last };
    assert(o@ == outputs_of(calls));
    let fp = fingerprint_from(&o);
    c.fp = fp;
    Ok(())
}

} // verus!
