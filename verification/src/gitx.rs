//! The git runner interface, its error, and a scripted runner for tests.
//!
//! The runner that spawns the real `git` binary lives in the application;
//! the library only issues commands through [`Runner`].
use vstd::prelude::*;

use crate::model::clone_strings;
use crate::text::{append_str, from_chars, join, lemma_deep_view_push, to_chars, trim, trim_str};

verus! {

/// Error returned by a git invocation.
#[derive(Debug)]
pub struct GitError {
    /// The git subcommand args (without the prepended `-c safe.directory=*`).
    pub args: Vec<String>,
    /// The working directory the command ran in.
    pub dir: String,
    /// The underlying cause (exit status text or OS spawn error).
    pub cause: String,
    /// Trimmed stderr from git.
    pub stderr: String,
}

/// View of a [`GitError`].
pub struct GitErrorV {
    pub args: Seq<Seq<char>>,
    pub dir: Seq<char>,
    pub cause: Seq<char>,
    pub stderr: Seq<char>,
}

impl View for GitError {
    type V = GitErrorV;

    open spec fn view(&self) -> GitErrorV {
        GitErrorV { args: self.args.deep_view(), dir: self.dir@, cause: self.cause@, stderr: self.stderr@ }
    }
}

/// The message of a git error:
/// `git <args joined by space> (in <dir>): <cause>: <stderr>`.
pub open spec fn git_error_message(e: GitErrorV) -> Seq<char> {
    "git "@ + join(e.args, " "@) + " (in "@ + e.dir + "): "@ + e.cause + ": "@ + e.stderr
}

impl GitError {
    /// The error message, as the error is displayed.
    pub fn message(&self) -> (m: String)
        ensures
            m@ == git_error_message(self@),
    {
        let mut v = to_chars("git ");
        let a = crate::text::join_strings(&self.args, " ");
        append_str(&mut v, a.as_str());
        append_str(&mut v, " (in ");
        append_str(&mut v, self.dir.as_str());
        append_str(&mut v, "): ");
        append_str(&mut v, self.cause.as_str());
        append_str(&mut v, ": ");
        append_str(&mut v, self.stderr.as_str());
        from_chars(&v)
    }
}

/// The cause of a git run that exited without success: `exit status <code>`,
/// or `signal: killed` when it has no exit code.
pub open spec fn exit_cause(code: Option<i32>) -> Seq<char> {
    match code {
        Some(c) => "exit status "@ + crate::text::decimal(c as int),
        None => "signal: killed"@,
    }
}

/// The cause of a git run that exited without success.
pub fn exit_status_text(code: Option<i32>) -> (r: String)
    ensures
        r@ == exit_cause(code),
{
    match code {
        Some(c) => {
            let d = crate::text::decimal_string(c as i64);
            let mut v = to_chars("exit status ");
            append_str(&mut v, d.as_str());
            from_chars(&v)
        },
        None => "signal: killed".to_string(),
    }
}

/// The texts of a list of string slices.
pub open spec fn arg_texts(args: Seq<&str>) -> Seq<Seq<char>> {
    Seq::new(args.len(), |i: int| args[i]@)
}

/// One git call a runner answered: where it ran, its arguments, and what it
/// returned.
pub struct CallV {
    pub dir: Seq<char>,
    pub args: Seq<Seq<char>>,
    pub result: Result<Seq<char>, GitErrorV>,
}

/// The record of a call of `run` in `dir` with `args` that returned `r`.
pub open spec fn call_of(dir: Seq<char>, args: Seq<Seq<char>>, r: Result<Seq<char>, GitErrorV>) -> CallV {
    CallV { dir, args, result: r }
}

/// Runner runs git in a given working directory and returns trimmed stdout.
/// Each call's answer is one that [`Runner::answers`] allows, and a call does
/// not change which answers the runner may give.
pub trait Runner {
    /// Whether this runner may answer a call in `dir` with `args` by `r`.
    /// A runner that states nothing of its answers (the default) may give
    /// any; the scripted [`Fake`] gives exactly what was scripted.
    open spec fn answers(&self, dir: Seq<char>, args: Seq<Seq<char>>, r: Result<Seq<char>, GitErrorV>) -> bool {
        true
    }

    fn run(&mut self, dir: &str, args: &[&str]) -> (r: Result<String, GitError>)
        ensures
            old(self).answers(dir@, arg_texts(args@), result_view(r)),
            forall|d: Seq<char>, a: Seq<Seq<char>>, x: Result<Seq<char>, GitErrorV>|
                #[trigger] final(self).answers(d, a, x) == old(self).answers(d, a, x),
    ;
}

/// Whether runner `o` may give the answer recorded in call `c`.
pub open spec fn answered<R: Runner>(o: R, c: CallV) -> bool {
    o.answers(c.dir, c.args, c.result)
}

/// A runner together with the history of the calls made through it: every
/// call of [`Logged::run`] hands its directory and arguments to the runner and
/// records them with the runner's answer.
pub struct Logged<R> {
    runner: R,
    origin: Ghost<R>,
    history: Ghost<Seq<CallV>>,
}

impl<R: Runner> Logged<R> {
    /// The calls made through this runner so far, in order, with their
    /// answers.
    pub closed spec fn history(&self) -> Seq<CallV> {
        self.history@
    }

    /// The runner inside.
    pub closed spec fn inner(&self) -> R {
        self.runner
    }

    /// The runner as it was handed to [`Logged::new`].
    pub closed spec fn origin(&self) -> R {
        self.origin@
    }

    /// Every recorded answer is one the original runner may give, and the
    /// runner inside answers as the original one does.
    pub open spec fn wf(&self) -> bool {
        &&& forall|k: int| 0 <= k < self.history().len() ==> answered(self.origin(), #[trigger] self.history()[k])
        &&& forall|d: Seq<char>, a: Seq<Seq<char>>, x: Result<Seq<char>, GitErrorV>|
            #[trigger] self.inner().answers(d, a, x) == self.origin().answers(d, a, x)
    }

    /// `runner`, with no call made yet.
    pub fn new(runner: R) -> (l: Logged<R>)
        ensures
            l.wf(),
            l.history() == Seq::<CallV>::empty(),
            l.inner() == runner,
            l.origin() == runner,
    {
        let ghost o = runner;
        Logged { runner, origin: Ghost(o), history: Ghost(Seq::empty()) }
    }

    /// The runner inside.
    pub fn runner(&self) -> (r: &R)
        ensures
            *r == self.inner(),
    {
        &self.runner
    }

    /// The runner inside, given back.
    pub fn into_runner(self) -> (r: R)
        ensures
            r == self.inner(),
    {
        self.runner
    }

    /// Runs git in `dir` with `args` through the runner and records the call
    /// with its answer.
    pub fn run(&mut self, dir: &str, args: &[&str]) -> (r: Result<String, GitError>)
        requires
            old(self).wf(),
        ensures
            final(self).wf(),
            final(self).origin() == old(self).origin(),
            final(self).history() == old(self).history().push(call_of(dir@, arg_texts(args@), result_view(r))),
    {
        let ghost before = self.runner;
        let r = self.runner.run(dir, args);
        let ghost c = call_of(dir@, arg_texts(args@), result_view(r));
        assert(before.answers(c.dir, c.args, c.result));
        assert(old(self).inner() == before);
        let ghost h = self.history@.push(c);
        self.history = Ghost(h);
        assert(answered(self.origin(), c));
        assert forall|d: Seq<char>, a: Seq<Seq<char>>, x: Result<Seq<char>, GitErrorV>|
            #[trigger] self.inner().answers(d, a, x) == self.origin().answers(d, a, x) by {
            assert(self.runner.answers(d, a, x) == before.answers(d, a, x));
            assert(old(self).inner().answers(d, a, x) == old(self).origin().answers(d, a, x));
        }
        assert forall|k: int| 0 <= k < self.history().len() implies answered(self.origin(), #[trigger] self.history()[k]) by {
            if k < self.history().len() - 1 {
                assert(self.history()[k] == old(self).history()[k]);
            }
        }
        r
    }
}

/// Owned copies of the arguments.
pub fn owned_args(args: &[&str]) -> (r: Vec<String>)
    ensures
        r.deep_view() == arg_texts(args@),
{
    let mut r: Vec<String> = Vec::new();
    for i in 0..args.len()
        invariant
            r.deep_view() == arg_texts(args@).take(i as int),
    {
        let ghost before = r;
        let s = args[i].to_string();
        r.push(s);
        proof {
            lemma_deep_view_push(before, r, s);
            assert(r.deep_view() =~= arg_texts(args@).take(i + 1));
        }
    }
    assert(arg_texts(args@).take(args@.len() as int) =~= arg_texts(args@));
    r
}

/// The key under which scripted answers are looked up: the arguments
/// joined by single spaces.
pub fn args_key(args: &[&str]) -> (k: String)
    ensures
        k@ == join(arg_texts(args@), " "@),
{
    let owned = owned_args(args);
    crate::text::join_strings(&owned, " ")
}

/// One scripted answer: a key and its text.
#[derive(Debug)]
struct Canned {
    key: String,
    value: String,
}

impl View for Canned {
    type V = (Seq<char>, Seq<char>);

    closed spec fn view(&self) -> (Seq<char>, Seq<char>) {
        (self.key@, self.value@)
    }
}

impl DeepView for Canned {
    type V = (Seq<char>, Seq<char>);

    closed spec fn deep_view(&self) -> (Seq<char>, Seq<char>) {
        self@
    }
}

/// The text scripted for `key`: that of its first entry.
pub open spec fn lookup(entries: Seq<(Seq<char>, Seq<char>)>, key: Seq<char>) -> Option<Seq<char>>
    decreases entries.len(),
{
    if entries.len() == 0 {
        None
    } else if entries[0].0 == key {
        Some(entries[0].1)
    } else {
        lookup(entries.drop_first(), key)
    }
}

/// The position of the first entry for `key`, if any.
pub open spec fn lookup_index(entries: Seq<(Seq<char>, Seq<char>)>, key: Seq<char>) -> Option<int>
    decreases entries.len(),
{
    if entries.len() == 0 {
        None
    } else if entries[0].0 == key {
        Some(0)
    } else {
        match lookup_index(entries.drop_first(), key) {
            Some(i) => Some(i + 1),
            None => None,
        }
    }
}

/// The entries with `key` scripted to `value`: its first entry replaced, or
/// a new entry at the end.
pub open spec fn store(entries: Seq<(Seq<char>, Seq<char>)>, key: Seq<char>, value: Seq<char>) -> Seq<(Seq<char>, Seq<char>)> {
    match lookup_index(entries, key) {
        Some(i) => entries.update(i, (key, value)),
        None => entries.push((key, value)),
    }
}

/// View of a [`Fake`].
pub struct FakeV {
    pub responses: Seq<(Seq<char>, Seq<char>)>,
    pub errs: Seq<(Seq<char>, Seq<char>)>,
    pub calls: Seq<Seq<char>>,
}

/// Fake is a `Runner` for tests. It matches on args joined by " ".
#[derive(Debug)]
pub struct Fake {
    /// Canned responses keyed by the joined args string.
    responses: Vec<Canned>,
    /// Canned errors keyed by the joined args string.
    errs: Vec<Canned>,
    /// Every call's joined-args key, in order.
    calls: Vec<String>,
}

impl View for Fake {
    type V = FakeV;

    closed spec fn view(&self) -> FakeV {
        FakeV {
            responses: self.responses.deep_view(),
            errs: self.errs.deep_view(),
            calls: self.calls.deep_view(),
        }
    }
}

proof fn lemma_lookup_index(entries: Seq<(Seq<char>, Seq<char>)>, key: Seq<char>)
    ensures
        lookup_index(entries, key) matches Some(i) ==> 0 <= i < entries.len() && entries[i].0 == key
            && forall|k: int| 0 <= k < i ==> (#[trigger] entries[k]).0 != key,
        lookup_index(entries, key) is None ==> forall|k: int| 0 <= k < entries.len() ==> (#[trigger] entries[k]).0 != key,
        lookup(entries, key) == match lookup_index(entries, key) {
            Some(i) => Some(entries[i].1),
            None => None,
        },
    decreases entries.len(),
{
    if entries.len() > 0 {
        lemma_lookup_index(entries.drop_first(), key);
        if entries[0].0 != key {
            assert forall|k: int| 1 <= k < entries.len() implies entries[k] == entries.drop_first()[k - 1] by {}
        }
    }
}

proof fn lemma_lookup_at(entries: Seq<(Seq<char>, Seq<char>)>, key: Seq<char>, i: int)
    requires
        0 <= i < entries.len(),
        entries[i].0 == key,
        forall|k: int| 0 <= k < i ==> (#[trigger] entries[k]).0 != key,
    ensures
        lookup_index(entries, key) == Some(i),
    decreases entries.len(),
{
    if i > 0 {
        assert forall|k: int| 0 <= k < i - 1 implies (#[trigger] entries.drop_first()[k]).0 != key by {
            assert(entries.drop_first()[k] == entries[k + 1]);
        }
        lemma_lookup_at(entries.drop_first(), key, i - 1);
    }
}

proof fn lemma_lookup_none(entries: Seq<(Seq<char>, Seq<char>)>, key: Seq<char>)
    requires
        forall|k: int| 0 <= k < entries.len() ==> (#[trigger] entries[k]).0 != key,
    ensures
        lookup_index(entries, key) is None,
    decreases entries.len(),
{
    if entries.len() > 0 {
        assert forall|k: int| 0 <= k < entries.len() - 1 implies (#[trigger] entries.drop_first()[k]).0 != key by {
            assert(entries.drop_first()[k] == entries[k + 1]);
        }
        lemma_lookup_none(entries.drop_first(), key);
    }
}

/// A scripted answer read back: storing `value` under `key` makes `key`
/// look up to `value`.
pub proof fn lemma_store_lookup(entries: Seq<(Seq<char>, Seq<char>)>, key: Seq<char>, value: Seq<char>)
    ensures
        lookup(store(entries, key, value), key) == Some(value),
{
    lemma_lookup_index(entries, key);
    let s = store(entries, key, value);
    match lookup_index(entries, key) {
        Some(i) => {
            assert forall|k: int| 0 <= k < i implies (#[trigger] s[k]).0 != key by {
                assert(s[k] == entries[k]);
            }
            lemma_lookup_at(s, key, i);
            lemma_lookup_index(s, key);
        },
        None => {
            assert forall|k: int| 0 <= k < entries.len() implies (#[trigger] s[k]).0 != key by {
                assert(s[k] == entries[k]);
            }
            lemma_lookup_at(s, key, entries.len() as int);
            lemma_lookup_index(s, key);
        },
    }
}

/// Storing under one key leaves the answers of every other key unchanged.
pub proof fn lemma_store_other(entries: Seq<(Seq<char>, Seq<char>)>, key: Seq<char>, value: Seq<char>, other: Seq<char>)
    requires
        other != key,
    ensures
        lookup(store(entries, key, value), other) == lookup(entries, other),
{
    lemma_lookup_index(entries, key);
    lemma_lookup_index(entries, other);
    let s = store(entries, key, value);
    assert forall|k: int| 0 <= k < s.len() && k < entries.len() implies ((#[trigger] s[k]).0 == other
        <==> entries[k].0 == other) by {}
    match lookup_index(entries, other) {
        Some(j) => {
            assert forall|k: int| 0 <= k < j implies (#[trigger] s[k]).0 != other by {
                assert(entries[k].0 != other);
            }
            assert(s[j].0 == other);
            lemma_lookup_at(s, other, j);
            lemma_lookup_index(s, other);
        },
        None => {
            assert forall|k: int| 0 <= k < s.len() implies (#[trigger] s[k]).0 != other by {
                if k < entries.len() {
                    assert(entries[k].0 != other);
                }
            }
            lemma_lookup_none(s, other);
            lemma_lookup_index(s, other);
        },
    }
}

/// The position of the first entry for `key`.
fn find_entry(entries: &Vec<Canned>, key: &String) -> (r: Option<usize>)
    ensures
        r matches Some(i) ==> lookup_index(entries.deep_view(), key@) == Some(i as int) && i < entries@.len(),
        r is None ==> lookup_index(entries.deep_view(), key@) is None,
{
    for i in 0..entries.len()
        invariant
            forall|k: int| 0 <= k < i ==> (#[trigger] entries.deep_view()[k]).0 != key@,
    {
        proof {
            assert(entries.deep_view()[i as int] == entries@[i as int]@);
        }
        if entries[i].key == *key {
            proof {
                lemma_lookup_at(entries.deep_view(), key@, i as int);
            }
            return Some(i);
        }
    }
    proof {
        lemma_lookup_none(entries.deep_view(), key@);
    }
    None
}

fn store_entry(entries: &mut Vec<Canned>, key: &str, value: &str)
    ensures
        final(entries).deep_view() == store(old(entries).deep_view(), key@, value@),
{
    let k = key.to_string();
    let ghost before = *entries;
    match find_entry(entries, &k) {
        Some(i) => {
            let e = Canned { key: k, value: value.to_string() };
            let ghost ev = e;
            entries.set(i, e);
            proof {
                assert forall|j: int| 0 <= j < entries@.len() implies #[trigger] entries.deep_view()[j] == store(
                    before.deep_view(),
                    key@,
                    value@,
                )[j] by {
                    if j != i {
                        assert(entries@[j] == before@[j]);
                    }
                }
                assert(entries.deep_view() =~= store(before.deep_view(), key@, value@));
            }
        },
        None => {
            let e = Canned { key: k, value: value.to_string() };
            let ghost ev = e;
            entries.push(e);
            proof {
                lemma_deep_view_push(before, *entries, ev);
            }
        },
    }
}

fn lookup_entry(entries: &Vec<Canned>, key: &String) -> (r: Option<String>)
    ensures
        r matches Some(v) ==> lookup(entries.deep_view(), key@) == Some(v@),
        r is None ==> lookup(entries.deep_view(), key@) is None,
{
    proof {
        lemma_lookup_index(entries.deep_view(), key@);
    }
    match find_entry(entries, key) {
        Some(i) => {
            proof {
                assert(entries.deep_view()[i as int] == entries@[i as int]@);
            }
            Some(entries[i].value.clone())
        },
        None => None,
    }
}

impl Fake {
    /// Returns an initialized Fake.
    pub fn new() -> (f: Fake)
        ensures
            f@.responses.len() == 0,
            f@.errs.len() == 0,
            f@.calls.len() == 0,
    {
        Fake { responses: Vec::new(), errs: Vec::new(), calls: Vec::new() }
    }

    /// Builder helper: register a canned response for a joined-args key.
    pub fn with_response(self, key: &str, value: &str) -> (f: Fake)
        ensures
            f@.responses == store(self@.responses, key@, value@),
            f@.errs == self@.errs,
            f@.calls == self@.calls,
    {
        let mut f = self;
        store_entry(&mut f.responses, key, value);
        f
    }

    /// Builder helper: register a canned error for a joined-args key.
    pub fn with_error(self, key: &str, value: &str) -> (f: Fake)
        ensures
            f@.errs == store(self@.errs, key@, value@),
            f@.responses == self@.responses,
            f@.calls == self@.calls,
    {
        let mut f = self;
        store_entry(&mut f.errs, key, value);
        f
    }

    /// Returns a snapshot of the recorded call keys.
    pub fn calls(&self) -> (c: Vec<String>)
        ensures
            c.deep_view() == self@.calls,
    {
        clone_strings(&self.calls)
    }
}

impl Default for Fake {
    fn default() -> (f: Fake)
        ensures
            f@.responses.len() == 0,
            f@.errs.len() == 0,
            f@.calls.len() == 0,
    {
        Fake::new()
    }
}

/// What the fake answers to a call with the joined-args key `key` in `dir`:
/// the scripted error if there is one (the cause is the scripted text,
/// stderr is empty), else the scripted response trimmed, "" if none.
pub open spec fn fake_answer(f: FakeV, dir: Seq<char>, args: Seq<Seq<char>>, key: Seq<char>) -> Result<Seq<char>, GitErrorV> {
    match lookup(f.errs, key) {
        Some(cause) => Err(GitErrorV { args, dir, cause, stderr: Seq::empty() }),
        None => Ok(
            trim(
                match lookup(f.responses, key) {
                    Some(v) => v,
                    None => Seq::empty(),
                },
            ),
        ),
    }
}

/// The view of a runner's result.
pub open spec fn result_view(r: Result<String, GitError>) -> Result<Seq<char>, GitErrorV> {
    match r {
        Ok(s) => Ok(s@),
        Err(e) => Err(e@),
    }
}

impl Runner for Fake {
    open spec fn answers(&self, dir: Seq<char>, args: Seq<Seq<char>>, r: Result<Seq<char>, GitErrorV>) -> bool {
        r == fake_answer(self@, dir, args, join(args, " "@))
    }

    fn run(&mut self, dir: &str, args: &[&str]) -> (r: Result<String, GitError>)
        ensures
            final(self)@.responses == old(self)@.responses,
            final(self)@.errs == old(self)@.errs,
            final(self)@.calls == old(self)@.calls.push(join(arg_texts(args@), " "@)),
            result_view(r) == fake_answer(old(self)@, dir@, arg_texts(args@), join(arg_texts(args@), " "@)),
    {
        let key = args_key(args);
        let ghost before = self.calls;
        let k2 = key.clone();
        self.calls.push(k2);
        proof {
            lemma_deep_view_push(before, self.calls, k2);
        }
        let res = match lookup_entry(&self.errs, &key) {
            Some(cause) => Err(GitError { args: owned_args(args), dir: dir.to_string(), cause, stderr: String::new() }),
            None => match lookup_entry(&self.responses, &key) {
                Some(v) => Ok(trim_str(v.as_str())),
                None => {
                    let e = String::new();
                    let t = trim_str(e.as_str());
                    Ok(t)
                },
            },
        };
        res
    }
}

} // verus!
