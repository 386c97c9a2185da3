//! Classification of discovered repositories: remote URL normalization,
//! owner/repo parsing, machine labels, source discriminators and scope.
//!
//! Walking the file system and asking git for the remote happen in the
//! application; everything that decides what a found repository is stands here.
use vstd::prelude::*;

use crate::digest::{hex_lower, is_hex_lower, lemma_hex_chars, lemma_hex_len, sha256, sha256_digest};
use crate::digest::hex_encode;
use crate::model::{default_fingerprint_v, CopyV, Fingerprint};
use crate::text::{
    append_str, ascii_lower, ascii_lower_exec, contains, contains_chars, contains_str,
    eq_ignore_ascii_case, find_char, find_char_exec, from_chars, is_separator_choice,
    lowercase, main_separator, rfind_char, rfind_char_exec, split_chars, split_on,
    str_is, string_chars, strip_prefix_str, strip_suffix_str, sub_chars, to_chars, to_lower,
    to_slash, to_slash_chars, trim, trim_chars, trim_prefix,
    trim_suffix,
};
use vstd::utf8::encode_utf8;

verus! {

/// Scope decides which discovered repos are in-scope vs third-party.
#[derive(Debug)]
pub struct Scope {
    /// Matched against the parsed owner, ignoring ASCII case.
    pub in_scope_owners: Vec<String>,
    /// Path substrings that mark re-cloneable upstreams.
    pub third_party_dirs: Vec<String>,
}

/// View of a [`Scope`].
pub struct ScopeV {
    pub in_scope_owners: Seq<Seq<char>>,
    pub third_party_dirs: Seq<Seq<char>>,
}

impl View for Scope {
    type V = ScopeV;

    open spec fn view(&self) -> ScopeV {
        ScopeV {
            in_scope_owners: self.in_scope_owners.deep_view(),
            third_party_dirs: self.third_party_dirs.deep_view(),
        }
    }
}

/// The scope of the consolidation design, for a platform whose path
/// separator is `sep`.
pub open spec fn default_scope_spec(sep: char) -> ScopeV {
    ScopeV {
        in_scope_owners: seq![
            "london-bridge"@,
            "lb-conn"@,
            "lb-common"@,
            "inovacc"@,
            "dyammarcano"@,
        ],
        third_party_dirs: seq![seq![sep] + "public_repos"@ + seq![sep]],
    }
}

/// The default scope for a platform whose path separator is `sep`.
pub fn default_scope_for(sep: char) -> (s: Scope)
    ensures
        s@ == default_scope_spec(sep),
{
    let mut owners: Vec<String> = Vec::new();
    owners.push("london-bridge".to_string());
    owners.push("lb-conn".to_string());
    owners.push("lb-common".to_string());
    owners.push("inovacc".to_string());
    owners.push("dyammarcano".to_string());
    let mut dir: Vec<char> = Vec::new();
    dir.push(sep);
    append_str(&mut dir, "public_repos");
    dir.push(sep);
    assert(dir@ =~= seq![sep] + "public_repos"@ + seq![sep]);
    let mut dirs: Vec<String> = Vec::new();
    dirs.push(from_chars(&dir));
    assert(dirs@.len() == 1);
    let s = Scope { in_scope_owners: owners, third_party_dirs: dirs };
    assert(s@.in_scope_owners =~= default_scope_spec(sep).in_scope_owners);
    assert(s@.third_party_dirs =~= default_scope_spec(sep).third_party_dirs);
    s
}

/// DefaultScope reflects the consolidation design: the owners of the
/// projects, and `<sep>public_repos<sep>` as the third-party directory.
pub fn default_scope() -> (s: Scope)
    ensures
        exists|sep: char| is_separator_choice(sep) && s@ == default_scope_spec(sep),
{
    let sep = main_separator();
    default_scope_for(sep)
}

/// The normal form `host/owner/repo` of a remote URL: no scheme, no user,
/// no `.git`, no trailing slash.
pub open spec fn normalize_spec(raw: Seq<char>) -> Seq<char> {
    let u = trim(raw);
    if u.len() == 0 {
        Seq::empty()
    } else {
        let u1 = trim_suffix(u, ".git"@);
        let u2 = trim_prefix(u1, "ssh://"@);
        let u3 = trim_prefix(u2, "https://"@);
        let u4 = trim_prefix(u3, "http://"@);
        let u5 = trim_prefix(u4, "git@"@);
        let u6 = match find_char(u5, ':') {
            Some(i) => u5.update(i, '/'),
            None => u5,
        };
        let slash = match find_char(u6, '/') {
            Some(j) => j,
            None => u6.len() as int,
        };
        let u7 = match find_char(u6, '@') {
            Some(at) => if at < slash {
                u6.skip(at + 1)
            } else {
                u6
            },
            None => u6,
        };
        trim_suffix(u7, "/"@)
    }
}

/// NormalizeURL canonicalizes a git remote URL to host/owner/repo (no scheme,
/// no .git).
pub fn normalize_url(u: &str) -> (r: String)
    ensures
        r@ == normalize_spec(u@),
{
    let raw = to_chars(u);
    let t = trim_chars(&raw);
    if t.len() == 0 {
        return String::new();
    }
    let u1 = strip_suffix_str(&t, ".git");
    let u2 = strip_prefix_str(&u1, "ssh://");
    let u3 = strip_prefix_str(&u2, "https://");
    let u4 = strip_prefix_str(&u3, "http://");
    let mut u5 = strip_prefix_str(&u4, "git@");
    let ghost g5 = u5@;
    match find_char_exec(&u5, ':') {
        Some(i) => {
            u5.set(i, '/');
        },
        None => {},
    }
    let u6 = u5;
    assert(u6@ == match find_char(g5, ':') {
        Some(i) => g5.update(i, '/'),
        None => g5,
    });
    let slash = match find_char_exec(&u6, '/') {
        Some(j) => j,
        None => u6.len(),
    };
    let u7 = match find_char_exec(&u6, '@') {
        Some(at) => if at < slash {
            sub_chars(&u6, at + 1, u6.len())
        } else {
            sub_chars(&u6, 0, u6.len())
        },
        None => sub_chars(&u6, 0, u6.len()),
    };
    assert(u6@.subrange(0, u6@.len() as int) =~= u6@);
    let u8 = strip_suffix_str(&u7, "/");
    from_chars(&u8)
}

/// The owner and repo that a normalized URL names, falling back to the
/// basename with no owner.
pub open spec fn owner_repo_spec(norm: Seq<char>, basename: Seq<char>) -> (Seq<char>, Seq<char>) {
    if norm.len() == 0 {
        (Seq::empty(), basename)
    } else {
        let parts = split_on(norm, '/');
        if parts.len() >= 3 {
            (parts[parts.len() - 2], parts[parts.len() - 1])
        } else {
            (Seq::empty(), basename)
        }
    }
}

/// ParseOwnerRepo extracts owner/repo from a normalized URL, falling back to
/// basename.
pub fn parse_owner_repo(norm_url: &str, basename: &str) -> (r: (String, String))
    ensures
        (r.0@, r.1@) == owner_repo_spec(norm_url@, basename@),
{
    if norm_url.is_empty() {
        return (String::new(), basename.to_string());
    }
    let n = to_chars(norm_url);
    let parts = split_chars(&n, '/');
    if parts.len() >= 3 {
        let k = parts.len();
        proof {
            assert(parts@[k - 2]@ == parts.deep_view()[k - 2]);
            assert(parts@[k - 1]@ == parts.deep_view()[k - 1]);
        }
        return (from_chars(&parts[k - 2]), from_chars(&parts[k - 1]));
    }
    (String::new(), basename.to_string())
}

/// The machine label of a slash-separated, lowercased path.
pub open spec fn machine_label(p: Seq<char>) -> Seq<char> {
    if contains(p, "/development/personal"@) || contains(p, "/development/corporate"@) {
        if contains(p, "/corporate/dell/"@) {
            "dell"@
        } else {
            "live"@
        }
    } else if contains(p, "/acer/"@) {
        "acer"@
    } else if contains(p, "/dell/"@) {
        "dell"@
    } else if contains(p, "/my drive"@) {
        "drive"@
    } else {
        "unknown"@
    }
}

/// The machine label of a path that is already slash-separated and
/// lowercased; the order of the checks is significant.
pub fn classify_machine(p: &str) -> (r: String)
    ensures
        r@ == machine_label(p@),
{
    let v = to_chars(p);
    if contains_str(&v, "/development/personal") || contains_str(&v, "/development/corporate") {
        if contains_str(&v, "/corporate/dell/") {
            return "dell".to_string();
        }
        "live".to_string()
    } else if contains_str(&v, "/acer/") {
        "acer".to_string()
    } else if contains_str(&v, "/dell/") {
        "dell".to_string()
    } else if contains_str(&v, "/my drive") {
        "drive".to_string()
    } else {
        "unknown".to_string()
    }
}

/// The machine label of `path` on a platform whose separator is `sep`.
pub open spec fn infer_machine_spec(sep: char, path: Seq<char>) -> Seq<char> {
    machine_label(lowercase(to_slash(sep, path)))
}

/// InferMachine derives a source label from the path: separators to `/`
/// first, then lowercase, then the checks of [`classify_machine`].
pub fn infer_machine(path: &str) -> (r: String)
    ensures
        exists|sep: char| is_separator_choice(sep) && r@ == infer_machine_spec(sep, path@),
{
    let sep = main_separator();
    let v = to_chars(path);
    let slashed = from_chars(&to_slash_chars(&v, sep));
    let lower = to_lower(slashed.as_str());
    let r = classify_machine(lower.as_str());
    assert(is_separator_choice(sep) && r@ == infer_machine_spec(sep, path@));
    r
}

/// The parent directory of a slash-separated path: a single trailing `/`
/// dropped (unless the path is a single character), then cut at the last `/`.
pub open spec fn dir_of_spec(s: Seq<char>) -> Seq<char> {
    let t = if s.len() > 1 && s.last() == '/' {
        s.drop_last()
    } else {
        s
    };
    match rfind_char(t, '/') {
        Some(i) => t.take(i),
        None => t,
    }
}

/// The parent directory of a slash-separated path.
fn dir_of(s: &Vec<char>) -> (r: Vec<char>)
    ensures
        r@ == dir_of_spec(s@),
{
    let n = s.len();
    let t = if n > 1 && s[n - 1] == '/' {
        sub_chars(s, 0, n - 1)
    } else {
        sub_chars(s, 0, n)
    };
    assert(s@.subrange(0, n as int) =~= s@);
    assert(n > 1 ==> s@.subrange(0, n - 1) =~= s@.drop_last());
    match rfind_char_exec(&t, '/') {
        Some(i) => sub_chars(&t, 0, i),
        None => t,
    }
}

/// The source discriminator of `path` on a platform whose separator is
/// `sep`: the first 6 hex characters of the SHA-256 of its parent directory.
pub open spec fn source_disc_spec(sep: char, path: Seq<char>) -> Seq<char> {
    hex_lower(sha256_digest(encode_utf8(dir_of_spec(to_slash(sep, path))))).take(6)
}

/// The source discriminator of `path` for the separator `sep`.
pub fn source_disc_for(path: &str, sep: char) -> (r: String)
    ensures
        r@ == source_disc_spec(sep, path@),
        r@.len() == 6,
        forall|i: int| 0 <= i < 6 ==> is_hex_lower(#[trigger] r@[i]),
{
    let v = to_chars(path);
    let slashed = to_slash_chars(&v, sep);
    let dir = from_chars(&dir_of(&slashed));
    let d = sha256(dir.as_str().as_bytes());
    proof {
        lemma_hex_len(d@);
        lemma_hex_chars(d@);
    }
    let encoded = hex_encode(d.as_slice());
    let e = to_chars(encoded.as_str());
    from_chars(&sub_chars(&e, 0, 6))
}

/// SourceDisc derives a short, deterministic, filesystem-safe token: the
/// first 6 hex chars of sha256 of the path's parent directory.
pub fn source_disc(path: &str) -> (r: String)
    ensures
        exists|sep: char| is_separator_choice(sep) && r@ == source_disc_spec(sep, path@),
        r@.len() == 6,
        forall|i: int| 0 <= i < 6 ==> is_hex_lower(#[trigger] r@[i]),
{
    let sep = main_separator();
    let r = source_disc_for(path, sep);
    assert(is_separator_choice(sep) && r@ == source_disc_spec(sep, path@));
    r
}

/// isThirdParty: the path lies under a third-party dir, or the repo has an
/// owner that is not in scope.
pub open spec fn third_party_spec(path: Seq<char>, owner: Seq<char>, scope: ScopeV) -> bool {
    if exists|i: int| 0 <= i < scope.third_party_dirs.len() && contains(path, #[trigger] scope.third_party_dirs[i]) {
        true
    } else if owner.len() == 0 {
        false
    } else {
        !exists|j: int| 0 <= j < scope.in_scope_owners.len() && eq_ignore_ascii_case(
            #[trigger] scope.in_scope_owners[j],
            owner,
        )
    }
}

/// Whether two texts are equal up to ASCII case.
pub fn eq_ignore_case(a: &Vec<char>, b: &Vec<char>) -> (r: bool)
    ensures
        r == eq_ignore_ascii_case(a@, b@),
{
    if a.len() != b.len() {
        return false;
    }
    let mut i: usize = 0;
    while i < a.len()
        invariant
            a@.len() == b@.len(),
            i <= a@.len(),
            forall|k: int| 0 <= k < i ==> ascii_lower(a@[k]) == ascii_lower(b@[k]),
        decreases a@.len() - i,
    {
        if ascii_lower_exec(a[i]) != ascii_lower_exec(b[i]) {
            return false;
        }
        i = i + 1;
    }
    true
}

/// isThirdParty: path under a third-party dir, or an out-of-scope owner.
pub fn is_third_party(path: &str, owner: &str, scope: &Scope) -> (r: bool)
    ensures
        r == third_party_spec(path@, owner@, scope@),
{
    let p = to_chars(path);
    for i in 0..scope.third_party_dirs.len()
        invariant
            p@ == path@,
            forall|k: int| 0 <= k < i ==> !contains(p@, #[trigger] scope@.third_party_dirs[k]),
    {
        let d = string_chars(&scope.third_party_dirs[i]);
        if contains_chars(&p, &d) {
            assert(scope@.third_party_dirs[i as int] == d@);
            return true;
        }
    }
    if owner.is_empty() {
        return false;
    }
    let o = to_chars(owner);
    for j in 0..scope.in_scope_owners.len()
        invariant
            o@ == owner@,
            p@ == path@,
            forall|k: int| 0 <= k < scope@.third_party_dirs.len() ==> !contains(p@, #[trigger] scope@.third_party_dirs[k]),
            forall|k: int| 0 <= k < j ==> !eq_ignore_ascii_case(#[trigger] scope@.in_scope_owners[k], o@),
    {
        let w = string_chars(&scope.in_scope_owners[j]);
        if eq_ignore_case(&w, &o) {
            assert(scope@.in_scope_owners[j as int] == w@);
            assert(eq_ignore_ascii_case(scope@.in_scope_owners[j as int], owner@));
            return false;
        }
    }
    true
}

/// The view of the Copy that discovery records for a repository found at
/// `path` under `root`, whose raw `origin` URL is `url` and whose directory
/// name is `basename`, on a platform whose separator is `sep`.
pub open spec fn found_copy_spec(
    sep: char,
    path: Seq<char>,
    root: Seq<char>,
    url: Seq<char>,
    basename: Seq<char>,
) -> CopyV {
    let norm = normalize_spec(url);
    let or = owner_repo_spec(norm, basename);
    CopyV {
        path,
        root,
        machine: infer_machine_spec(sep, path),
        owner: or.0,
        repo_name: or.1,
        remote_url: norm,
        fp: default_fingerprint_v(),
    }
}

/// The Copy that discovery records for a repository found at `path` under
/// `root`, with raw `origin` URL `url` ("" when it has none) and directory
/// name `basename`; its fingerprint is left at the default.
pub fn found_copy(path: &str, root: &str, url: &str, basename: &str) -> (c: crate::model::Copy)
    ensures
        exists|sep: char|
            is_separator_choice(sep) && c@ == found_copy_spec(sep, path@, root@, url@, basename@),
{
    let norm = normalize_url(url);
    let (owner, repo) = parse_owner_repo(norm.as_str(), basename);
    let machine = infer_machine(path);
    crate::model::Copy {
        path: path.to_string(),
        root: root.to_string(),
        machine,
        owner,
        repo_name: repo,
        remote_url: norm,
        fp: Fingerprint::default(),
    }
}

/// What the walk does with one directory entry.
#[derive(Clone, Copy, Debug, PartialEq, Eq, Structural)]
pub enum WalkStep {
    /// not a directory, or a directory that is no repository: keep walking
    Continue,
    /// an excluded directory or a `.git` directory: do not descend into it
    SkipSubtree,
    /// a repository: record it and do not descend into it
    RecordAndSkip,
    /// a repository: record it and keep descending (nested discovery)
    RecordAndDescend,
}

/// The decision of the walk for one entry named `name`.
pub open spec fn walk_step_spec(
    is_dir: bool,
    name: Seq<char>,
    excludes: Seq<Seq<char>>,
    is_repo: bool,
    include_nested: bool,
) -> WalkStep {
    if !is_dir {
        WalkStep::Continue
    } else if excludes.contains(name) || name == ".git"@ {
        WalkStep::SkipSubtree
    } else if !is_repo {
        WalkStep::Continue
    } else if include_nested {
        WalkStep::RecordAndDescend
    } else {
        WalkStep::RecordAndSkip
    }
}

/// The decision of the walk for one entry: excluded names and `.git` are
/// pruned, repositories are recorded, and descent below a repository stops
/// unless nested discovery is on.
pub fn walk_step(
    is_dir: bool,
    name: &str,
    excludes: &Vec<String>,
    is_repo: bool,
    include_nested: bool,
) -> (w: WalkStep)
    ensures
        w == walk_step_spec(is_dir, name@, excludes.deep_view(), is_repo, include_nested),
{
    if !is_dir {
        return WalkStep::Continue;
    }
    let mut excluded = false;
    for i in 0..excludes.len()
        invariant
            excluded == excludes.deep_view().take(i as int).contains(name@),
    {
        proof {
            assert(excludes.deep_view().take(i + 1) =~= excludes.deep_view().take(i as int).push(
                excludes.deep_view()[i as int],
            ));
        }
        if excludes[i] == name.to_string() {
            excluded = true;
        }
        proof {
            let t = excludes.deep_view().take(i + 1);
            if excluded {
                if excludes.deep_view()[i as int] == name@ {
                    assert(t[i as int] == name@);
                } else {
                    let k = choose|k: int| 0 <= k < i && excludes.deep_view().take(i as int)[k] == name@;
                    assert(t[k] == name@);
                }
            } else {
                assert forall|k: int| 0 <= k < t.len() implies t[k] != name@ by {
                    if k < i {
                        assert(excludes.deep_view().take(i as int)[k] == t[k]);
                    }
                }
            }
        }
    }
    assert(excludes.deep_view().take(excludes@.len() as int) =~= excludes.deep_view());
    if excluded || str_is(name, ".git") {
        return WalkStep::SkipSubtree;
    }
    if !is_repo {
        return WalkStep::Continue;
    }
    if include_nested {
        WalkStep::RecordAndDescend
    } else {
        WalkStep::RecordAndSkip
    }
}

} // verus!
