//! The content hash of a working tree and the rules of the tree walks that
//! copy and hash trees: which directories are pruned and where an atomic copy
//! is staged. Reading the files is left to the caller, which hands over each
//! file's path, mode bits and content digest.
use vstd::prelude::*;

use crate::digest::{hex_encode, hex_lower, lemma_hex_len, sha256, sha256_digest};
use crate::text::{append_chars, append_str, concat_str, contains_string, from_chars, octal, octal_chars, string_less, text_lt, utf8, utf8_bytes};

verus! {

/// One file of a working tree: its slash-separated path below the root, its
/// mode bits and the SHA-256 digest of its content.
pub struct FileDigest {
    pub rel: String,
    pub mode: u32,
    pub sha: Vec<u8>,
}

/// View of a [`FileDigest`].
pub struct FileDigestV {
    pub rel: Seq<char>,
    pub mode: u32,
    pub sha: Seq<u8>,
}

impl View for FileDigest {
    type V = FileDigestV;

    open spec fn view(&self) -> FileDigestV {
        FileDigestV { rel: self.rel@, mode: self.mode, sha: self.sha@ }
    }
}

impl DeepView for FileDigest {
    type V = FileDigestV;

    open spec fn deep_view(&self) -> FileDigestV {
        self@
    }
}

/// The SHA-256 digest of a file's content.
pub fn file_digest(content: &[u8]) -> (r: Vec<u8>)
    ensures
        r@ == sha256_digest(content@),
        r@.len() == 32,
{
    sha256(content)
}

/// The record of one file that goes into the tree hash.
pub open spec fn frame(e: FileDigestV) -> Seq<char> {
    "path:"@ + e.rel + "\0mode:"@ + octal(e.mode as nat) + "\0sha256:"@ + hex_lower(e.sha) + "\0"@
}

/// The records of the files, in order.
pub open spec fn frames(es: Seq<FileDigestV>) -> Seq<char>
    decreases es.len(),
{
    if es.len() == 0 {
        Seq::empty()
    } else {
        frames(es.drop_last()) + frame(es.last())
    }
}

/// `x` inserted into `s` after every file whose path does not sort after
/// its own (a step of a stable insertion sort by path).
pub open spec fn insert_by_rel(s: Seq<FileDigestV>, x: FileDigestV) -> Seq<FileDigestV>
    decreases s.len(),
{
    if s.len() == 0 {
        seq![x]
    } else if !text_lt(x.rel, s.last().rel) {
        s.push(x)
    } else {
        insert_by_rel(s.drop_last(), x).push(s.last())
    }
}

/// The files in ascending order of path, equal paths in their given order.
pub open spec fn sort_by_rel(s: Seq<FileDigestV>) -> Seq<FileDigestV>
    decreases s.len(),
{
    if s.len() == 0 {
        Seq::empty()
    } else {
        insert_by_rel(sort_by_rel(s.drop_last()), s.last())
    }
}

/// The tree hash: the lowercase hex SHA-256 digest of the records of the
/// files in order of path.
pub open spec fn tree_hash_text(es: Seq<FileDigestV>) -> Seq<char> {
    hex_lower(sha256_digest(utf8(frames(sort_by_rel(es)))))
}

proof fn lemma_insert_by_rel_at(s: Seq<FileDigestV>, x: FileDigestV, j: int)
    requires
        0 <= j <= s.len(),
        forall|k: int| j <= k < s.len() ==> text_lt(x.rel, #[trigger] s[k].rel),
        j == 0 || !text_lt(x.rel, s[j - 1].rel),
    ensures
        insert_by_rel(s, x) == s.insert(j, x),
    decreases s.len(),
{
    if s.len() == 0 {
        assert(s.insert(j, x) =~= seq![x]);
    } else if j == s.len() {
        assert(s.insert(j, x) =~= s.push(x));
    } else {
        lemma_insert_by_rel_at(s.drop_last(), x, j);
        assert(s.drop_last().insert(j, x).push(s.last()) =~= s.insert(j, x));
    }
}

impl Clone for FileDigest {
    fn clone(&self) -> (r: FileDigest)
        ensures
            r@ == self@,
    {
        let sha = self.sha.clone();
        assert(sha@ =~= self.sha@);
        FileDigest { rel: self.rel.clone(), mode: self.mode, sha }
    }
}

/// The files sorted by path (stable).
fn sort_files(v: &Vec<FileDigest>) -> (r: Vec<FileDigest>)
    ensures
        r.deep_view() == sort_by_rel(v.deep_view()),
{
    let mut r: Vec<FileDigest> = Vec::new();
    for i in 0..v.len()
        invariant
            r.deep_view() == sort_by_rel(v.deep_view().take(i as int)),
    {
        let x = v[i].clone();
        let mut j = r.len();
        while j > 0 && string_less(&x.rel, &r[j - 1].rel)
            invariant
                j <= r@.len(),
                forall|k: int| j <= k < r@.len() ==> text_lt(x@.rel, #[trigger] r.deep_view()[k].rel),
            decreases j,
        {
            proof {
                assert(r.deep_view()[j - 1] == r@[j - 1]@);
            }
            j = j - 1;
        }
        let ghost before = r.deep_view();
        let ghost before_raw = r@;
        proof {
            if j > 0 {
                assert(r.deep_view()[j - 1] == r@[j - 1]@);
            }
            lemma_insert_by_rel_at(before, x@, j as int);
            assert(v.deep_view().take(i + 1).drop_last() =~= v.deep_view().take(i as int));
            assert(v.deep_view()[i as int] == x@);
        }
        r.insert(j, x);
        proof {
            assert forall|k: int| 0 <= k < r@.len() implies #[trigger] r.deep_view()[k] == before.insert(
                j as int,
                x@,
            )[k] by {
                if k < j {
                    assert(r@[k] == before_raw[k]);
                } else if k > j {
                    assert(r@[k] == before_raw[k - 1]);
                }
            }
            assert(r.deep_view() =~= before.insert(j as int, x@));
        }
    }
    assert(v.deep_view().take(v@.len() as int) =~= v.deep_view());
    r
}

/// The tree hash of a working tree whose readable files are `entries` (in
/// any order): each file's path, octal mode bits and hex content digest,
/// framed as `path:<rel>\0mode:<octal>\0sha256:<hex>\0`, in order of path,
/// fed into one SHA-256 digest, written in lowercase hex.
pub fn tree_hash_of(entries: &Vec<FileDigest>) -> (r: String)
    ensures
        r@ == tree_hash_text(entries.deep_view()),
        r@.len() == 64,
{
    let sorted = sort_files(entries);
    let mut v: Vec<char> = Vec::new();
    for i in 0..sorted.len()
        invariant
            v@ == frames(sorted.deep_view().take(i as int)),
    {
        let e = &sorted[i];
        let oct = octal_chars(e.mode);
        let hx = hex_encode(e.sha.as_slice());
        let ghost before = v@;
        append_str(&mut v, "path:");
        append_str(&mut v, e.rel.as_str());
        append_str(&mut v, "\0mode:");
        append_chars(&mut v, &oct);
        append_str(&mut v, "\0sha256:");
        append_str(&mut v, hx.as_str());
        append_str(&mut v, "\0");
        proof {
            assert(sorted.deep_view()[i as int] == e@);
            assert(sorted.deep_view().take(i + 1).drop_last() =~= sorted.deep_view().take(i as int));
            assert(v@ =~= before + frame(e@));
        }
    }
    assert(sorted.deep_view().take(sorted@.len() as int) =~= sorted.deep_view());
    let text = from_chars(v.as_slice());
    let bytes = utf8_bytes(text.as_str());
    let d = sha256(bytes.as_slice());
    proof {
        lemma_hex_len(d@);
    }
    hex_encode(d.as_slice())
}

/// Whether a tree walk passes by a directory instead of entering it: a
/// directory other than the root whose name is listed in `skip`.
pub fn prunes_dir(name: &String, skip: &Vec<String>, is_root: bool) -> (r: bool)
    ensures
        r == (!is_root && skip.deep_view().contains(name@)),
{
    !is_root && contains_string(skip, name)
}

/// The directories the tree hash passes by: `.git`, then those in `skip`.
pub fn hash_skips(skip: &Vec<String>) -> (r: Vec<String>)
    ensures
        r.deep_view() == seq![".git"@] + skip.deep_view(),
{
    let mut r: Vec<String> = Vec::new();
    r.push(".git".to_string());
    for i in 0..skip.len()
        invariant
            r.deep_view() == seq![".git"@] + skip.deep_view().take(i as int),
    {
        let ghost before = r;
        let s = skip[i].clone();
        let ghost sv = s;
        r.push(s);
        proof {
            crate::text::lemma_deep_view_push(before, r, sv);
            assert(skip.deep_view()[i as int] == sv@);
            assert(seq![".git"@] + skip.deep_view().take(i + 1) =~= (seq![".git"@] + skip.deep_view().take(
                i as int,
            )).push(sv@));
        }
    }
    assert(skip.deep_view().take(skip@.len() as int) =~= skip.deep_view());
    r
}

/// Where an atomic copy to `dst` is staged before it is renamed into place.
pub fn staging_dir(dst: &str) -> (r: String)
    ensures
        r@ == dst@ + ".reposmerge-tmp"@,
{
    concat_str(dst, ".reposmerge-tmp")
}

} // verus!
