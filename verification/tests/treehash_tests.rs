use reposmerge::digest::sha256_hex;
use reposmerge::treehash::{file_digest, hash_skips, prunes_dir, staging_dir, tree_hash_of, FileDigest};

fn entry(rel: &str, mode: u32, content: &str) -> FileDigest {
    FileDigest { rel: rel.to_string(), mode, sha: file_digest(content.as_bytes()) }
}

/// The files of a tree that the tree hash reads: those not below a pruned
/// directory (the path's directories, root excluded, checked by name).
fn walked(files: &[(&str, &str)], skip: &[String]) -> Vec<FileDigest> {
    let skips = hash_skips(&skip.to_vec());
    let mut out = Vec::new();
    'files: for (rel, content) in files {
        let parts: Vec<&str> = rel.split('/').collect();
        for dir in &parts[..parts.len() - 1] {
            if prunes_dir(&dir.to_string(), &skips, false) {
                continue 'files;
            }
        }
        out.push(entry(rel, 0o644, content));
    }
    out
}

#[test]
fn tree_hash_stable_across_calls() {
    let files = [("a.txt", "hello"), ("sub/b.txt", "world")];
    let h1 = tree_hash_of(&walked(&files, &[]));
    let h2 = tree_hash_of(&walked(&files, &[]));
    assert!(!h1.is_empty() && h1 == h2, "expected stable non-empty hash, got {h1:?} vs {h2:?}");
}

#[test]
fn tree_hash_equal_for_identical_trees_different_paths() {
    let ha = tree_hash_of(&walked(&[("a.txt", "hello")], &[]));
    let hb = tree_hash_of(&walked(&[("a.txt", "hello")], &[]));
    assert!(!ha.is_empty() && ha == hb, "expected equal hashes, got {ha:?} vs {hb:?}");
}

#[test]
fn tree_hash_differs_on_content_change() {
    let h1 = tree_hash_of(&walked(&[("a.txt", "hello")], &[]));
    let h2 = tree_hash_of(&walked(&[("a.txt", "goodbye")], &[]));
    assert!(h1 != h2, "expected different hash after content change");
}

#[test]
fn tree_hash_unaffected_by_git_and_excluded_dir() {
    let skip = vec!["node_modules".to_string()];
    let a = [("a.txt", "hello"), (".git/HEAD", "ref: refs/heads/main"), ("node_modules/junk.js", "junk")];
    let b = [("a.txt", "hello"), (".git/HEAD", "ref: refs/heads/DIFFERENT"), ("node_modules/junk.js", "totally different")];
    let ha = tree_hash_of(&walked(&a, &skip));
    let hb = tree_hash_of(&walked(&b, &skip));
    assert!(!ha.is_empty() && ha == hb, "expected .git/node_modules divergence to not affect hash, got {ha:?} vs {hb:?}");
}

#[test]
fn tree_hash_does_not_depend_on_walk_order() {
    let x = vec![entry("b.txt", 0o644, "B"), entry("a.txt", 0o755, "A"), entry("sub/c", 0o644, "C")];
    let y = vec![entry("sub/c", 0o644, "C"), entry("a.txt", 0o755, "A"), entry("b.txt", 0o644, "B")];
    assert_eq!(tree_hash_of(&x), tree_hash_of(&y));
}

#[test]
fn tree_hash_exact_framing() {
    let content_hex = sha256_hex(b"hello");
    let framed = format!("path:a.txt\0mode:644\0sha256:{content_hex}\0");
    let want = sha256_hex(framed.as_bytes());
    assert_eq!(tree_hash_of(&vec![entry("a.txt", 0o644, "hello")]), want);
    // mode bits count
    assert_ne!(tree_hash_of(&vec![entry("a.txt", 0o755, "hello")]), want);
    // an empty tree hashes the empty input
    assert_eq!(tree_hash_of(&Vec::new()), sha256_hex(b""));
    assert_eq!(
        sha256_hex(b""),
        "e3b0c44298fc1c149afbf4c8996fb92427ae41e4649b934ca495991b7852b855"
    );
}

#[test]
fn walk_rules_prune_listed_dirs_but_never_the_root() {
    let skip = vec!["node_modules".to_string()];
    assert!(prunes_dir(&"node_modules".to_string(), &skip, false));
    assert!(!prunes_dir(&"node_modules".to_string(), &skip, true));
    assert!(!prunes_dir(&"src".to_string(), &skip, false));
    assert_eq!(hash_skips(&skip), vec![".git".to_string(), "node_modules".to_string()]);
    assert_eq!(staging_dir("/d/out"), "/d/out.reposmerge-tmp");
}
