//! The normal form of remote URLs: the usual ways of writing one remote
//! (HTTPS with `.git`, scp-like SSH, `ssh://` with a user, HTTP with a user)
//! all normalize to `host/owner/repo`, and a blank URL to nothing.
use vstd::prelude::*;

use crate::discover::normalize_spec;
use crate::text::{ends_with, find_char, is_white_space, trim, trim_end, trim_start};

verus! {

/// A URL component: not empty, and without `/`, `:`, `@` or white space.
pub open spec fn plain_part(x: Seq<char>) -> bool {
    &&& x.len() > 0
    &&& forall|i: int|
        0 <= i < x.len() ==> {
            let c = #[trigger] x[i];
            c != '/' && c != ':' && c != '@' && !is_white_space(c)
        }
}

/// `host/owner/repo`.
pub open spec fn host_path(h: Seq<char>, o: Seq<char>, n: Seq<char>) -> Seq<char> {
    h + "/"@ + o + "/"@ + n
}

proof fn lemma_trim_keeps(s: Seq<char>)
    requires
        s.len() > 0,
        !is_white_space(s[0]),
        !is_white_space(s.last()),
    ensures
        trim(s) == s,
{
    assert(trim_start(s) == s);
    assert(trim_end(s) == s);
}

proof fn lemma_find_none(s: Seq<char>, c: char)
    requires
        forall|i: int| 0 <= i < s.len() ==> #[trigger] s[i] != c,
    ensures
        find_char(s, c) is None,
    decreases s.len(),
{
    if s.len() > 0 {
        lemma_find_none(s.drop_first(), c);
    }
}

/// The first `c` in `s` is at `k` when `s[k]` is `c` and no earlier
/// character is.
pub proof fn lemma_find_at(s: Seq<char>, c: char, k: int)
    requires
        0 <= k < s.len(),
        s[k] == c,
        forall|i: int| 0 <= i < k ==> #[trigger] s[i] != c,
    ensures
        find_char(s, c) == Some(k),
    decreases k,
{
    if k > 0 {
        lemma_find_at(s.drop_first(), c, k - 1);
    }
}

/// Facts on the characters of `host/owner/repo`.
proof fn lemma_host_path(h: Seq<char>, o: Seq<char>, n: Seq<char>)
    requires
        plain_part(h),
        plain_part(o),
        plain_part(n),
    ensures
        ({
            let t = host_path(h, o, n);
            &&& t.len() == h.len() + o.len() + n.len() + 2
            &&& t.len() >= 5
            &&& forall|i: int| 0 <= i < t.len() ==> #[trigger] t[i] != ':' && t[i] != '@'
            &&& t[h.len() as int] == '/'
            &&& forall|i: int| 0 <= i < h.len() ==> #[trigger] t[i] == h[i]
            &&& t.last() == n.last()
            &&& !is_white_space(t[0])
            &&& !is_white_space(t.last())
        }),
{
    reveal_strlit("/");
    let t = host_path(h, o, n);
    assert forall|i: int| 0 <= i < t.len() implies #[trigger] t[i] != ':' && t[i] != '@' by {
        if i < h.len() {
            assert(t[i] == h[i]);
        } else if i == h.len() {
        } else if i < h.len() + 1 + o.len() {
            assert(t[i] == o[i - h.len() - 1]);
        } else if i == h.len() + 1 + o.len() {
        } else {
            assert(t[i] == n[i - h.len() - 2 - o.len()]);
        }
    }
    assert(t[0] == h[0]);
    assert(t.last() == n[n.len() - 1]);
}

/// A text that ends in `/` followed by a plain name that does not end in
/// `.git` does not end in `.git`.
proof fn lemma_no_git_suffix(pre: Seq<char>, n: Seq<char>)
    requires
        pre.len() > 0,
        pre.last() == '/',
        plain_part(n),
        !ends_with(n, ".git"@),
    ensures
        !ends_with(pre + n, ".git"@),
{
    reveal_strlit(".git");
    let s = pre + n;
    if ends_with(s, ".git"@) {
        if n.len() >= 4 {
            assert(n.skip(n.len() - 4) =~= s.skip(s.len() - 4));
        } else {
            let j = 3 - n.len();
            assert(s.skip(s.len() - 4)[j] == s[pre.len() - 1]);
            assert(".git"@[j] != '/');
        }
    }
}

/// `https://host/owner/repo.git` normalizes to `host/owner/repo`.
pub proof fn https_url_normalizes(h: Seq<char>, o: Seq<char>, n: Seq<char>)
    requires
        plain_part(h),
        plain_part(o),
        plain_part(n),
    ensures
        normalize_spec("https://"@ + host_path(h, o, n) + ".git"@) == host_path(h, o, n),
{
    reveal_strlit("https://");
    reveal_strlit("/");
    reveal_strlit(".git");
    reveal_strlit("ssh://");
    reveal_strlit("http://");
    reveal_strlit("git@");
    let t = host_path(h, o, n);
    lemma_host_path(h, o, n);
    let s = "https://"@ + t + ".git"@;
    assert(s[0] == 'h');
    assert(s.last() == 't');
    lemma_trim_keeps(s);
    assert(s.skip(s.len() - 4) =~= ".git"@);
    let u1 = "https://"@ + t;
    assert(s.take(s.len() - 4) =~= u1);
    assert(u1.take(6)[0] != "ssh://"@[0]);
    assert(u1.take(8) =~= "https://"@);
    assert(u1.skip(8) =~= t);
    if t.len() >= 7 {
        assert(t.take(7)[4] != "http://"@[4]);
    }
    assert(t.take(4)[3] != "git@"@[3]);
    lemma_find_none(t, ':');
    lemma_find_none(t, '@');
    assert(!ends_with(t, "/"@)) by {
        if ends_with(t, "/"@) {
            assert(t.skip(t.len() - 1)[0] == t.last());
        }
    }
}

/// `git@host:owner/repo.git` normalizes to `host/owner/repo`.
pub proof fn scp_url_normalizes(h: Seq<char>, o: Seq<char>, n: Seq<char>)
    requires
        plain_part(h),
        plain_part(o),
        plain_part(n),
    ensures
        normalize_spec("git@"@ + h + ":"@ + o + "/"@ + n + ".git"@) == host_path(h, o, n),
{
    reveal_strlit("git@");
    reveal_strlit(":");
    reveal_strlit("/");
    reveal_strlit(".git");
    reveal_strlit("ssh://");
    reveal_strlit("https://");
    reveal_strlit("http://");
    let t = host_path(h, o, n);
    lemma_host_path(h, o, n);
    let v = h + ":"@ + o + "/"@ + n;
    let s = "git@"@ + v + ".git"@;
    assert(s =~= "git@"@ + h + ":"@ + o + "/"@ + n + ".git"@);
    assert(s[0] == 'g');
    assert(s.last() == 't');
    lemma_trim_keeps(s);
    assert(s.skip(s.len() - 4) =~= ".git"@);
    let u1 = "git@"@ + v;
    assert(s.take(s.len() - 4) =~= u1);
    assert(u1.take(6)[0] != "ssh://"@[0]);
    assert(u1.take(8)[0] != "https://"@[0]);
    assert(u1.take(7)[0] != "http://"@[0]);
    assert(u1.take(4) =~= "git@"@);
    assert(u1.skip(4) =~= v);
    assert(forall|i: int| 0 <= i < h.len() ==> #[trigger] v[i] == h[i]);
    lemma_find_at(v, ':', h.len() as int);
    assert(v.update(h.len() as int, '/') =~= t);
    lemma_find_none(t, '@');
    assert(!ends_with(t, "/"@)) by {
        if ends_with(t, "/"@) {
            assert(t.skip(t.len() - 1)[0] == t.last());
        }
    }
}

/// `ssh://git@host/owner/repo` normalizes to `host/owner/repo`.
pub proof fn ssh_url_normalizes(h: Seq<char>, o: Seq<char>, n: Seq<char>)
    requires
        plain_part(h),
        plain_part(o),
        plain_part(n),
        !ends_with(n, ".git"@),
    ensures
        normalize_spec("ssh://git@"@ + host_path(h, o, n)) == host_path(h, o, n),
{
    reveal_strlit("ssh://git@");
    reveal_strlit("/");
    reveal_strlit("ssh://");
    reveal_strlit("git@");
    reveal_strlit("https://");
    reveal_strlit("http://");
    reveal_strlit(".git");
    let t = host_path(h, o, n);
    lemma_host_path(h, o, n);
    let s = "ssh://git@"@ + t;
    assert(s[0] == 's');
    assert(s.last() == t.last());
    lemma_trim_keeps(s);
    let pre = "ssh://git@"@ + h + "/"@ + o + "/"@;
    assert(s =~= pre + n);
    lemma_no_git_suffix(pre, n);
    assert(s.take(6) =~= "ssh://"@);
    let u2 = "git@"@ + t;
    assert(s.skip(6) =~= u2);
    assert(u2.take(8)[0] != "https://"@[0]);
    assert(u2.take(7)[0] != "http://"@[0]);
    assert(u2.take(4) =~= "git@"@);
    assert(u2.skip(4) =~= t);
    lemma_find_none(t, ':');
    lemma_find_none(t, '@');
    assert(!ends_with(t, "/"@)) by {
        if ends_with(t, "/"@) {
            assert(t.skip(t.len() - 1)[0] == t.last());
        }
    }
}

/// `http://user@host/owner/repo` normalizes to `host/owner/repo`.
#[verifier::rlimit(40)]
pub proof fn http_user_url_normalizes(h: Seq<char>, o: Seq<char>, n: Seq<char>)
    requires
        plain_part(h),
        plain_part(o),
        plain_part(n),
        !ends_with(n, ".git"@),
    ensures
        normalize_spec("http://user@"@ + host_path(h, o, n)) == host_path(h, o, n),
{
    reveal_strlit("http://user@");
    reveal_strlit("/");
    reveal_strlit("ssh://");
    reveal_strlit("https://");
    reveal_strlit("http://");
    reveal_strlit("user@");
    reveal_strlit("git@");
    reveal_strlit(".git");
    let t = host_path(h, o, n);
    lemma_host_path(h, o, n);
    let s = "http://user@"@ + t;
    assert(s[0] == 'h');
    assert(s.last() == t.last());
    lemma_trim_keeps(s);
    let pre = "http://user@"@ + h + "/"@ + o + "/"@;
    assert(s =~= pre + n);
    lemma_no_git_suffix(pre, n);
    assert(s.take(6)[0] != "ssh://"@[0]);
    assert(s.take(8)[4] != "https://"@[4]);
    assert(s.take(7) =~= "http://"@);
    let u4 = "user@"@ + t;
    assert(s.skip(7) =~= u4);
    assert(u4.take(4)[0] != "git@"@[0]);
    assert forall|i: int| 0 <= i < u4.len() implies #[trigger] u4[i] != ':' by {
        if i >= 5 {
            assert(u4[i] == t[i - 5]);
        }
    }
    lemma_find_none(u4, ':');
    assert forall|i: int| 0 <= i < 5 + h.len() implies #[trigger] u4[i] != '/' by {
        if i >= 5 {
            assert(u4[i] == h[i - 5]);
        }
    }
    lemma_find_at(u4, '/', (5 + h.len()) as int);
    lemma_find_at(u4, '@', 4);
    assert(u4.skip(5) =~= t);
    assert(!ends_with(t, "/"@)) by {
        if ends_with(t, "/"@) {
            assert(t.skip(t.len() - 1)[0] == t.last());
        }
    }
}

/// A URL that is blank (empty once trimmed) normalizes to nothing.
pub proof fn blank_url_normalizes_to_nothing(s: Seq<char>)
    requires
        trim(s).len() == 0,
    ensures
        normalize_spec(s) == Seq::<char>::empty(),
{
}

} // verus!
