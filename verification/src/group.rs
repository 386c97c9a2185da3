//! Grouping of discovered copies into logical repositories.
//!
//! A repository's identity is its root-commit lineage, which every clone
//! shares whatever its remote; repositories without history fall back to a
//! case-insensitive remote key, else their lowercased name. Groups come out in
//! first-seen order.
use vstd::prelude::*;

use crate::model::{CopyV, Group, GroupV};
use crate::text::{
    append_str, from_chars, join, join_strings, lemma_deep_view_push, lowercase, sort_strings,
    sort_texts, to_chars, to_lower,
};

verus! {

/// The grouping key of a copy.
pub open spec fn group_key_spec(c: CopyV) -> Seq<char> {
    let rc = sort_texts(c.fp.root_commits);
    if rc.len() > 0 {
        "lineage:"@ + join(rc, ","@)
    } else if c.remote_url.len() > 0 {
        "remote:"@ + lowercase(c.remote_url)
    } else {
        "noremote:"@ + lowercase(c.repo_name) + ":EMPTY"@
    }
}

/// groupKey is the root-commit lineage when the repo has any history (so
/// clones unify across remote/local and URL case), else a case-insensitive
/// remote key, else the lowercased name.
pub fn group_key(c: &crate::model::Copy) -> (k: String)
    ensures
        k@ == group_key_spec(c@),
{
    let rc = sort_strings(&c.fp.root_commits);
    if rc.len() > 0 {
        let mut v = to_chars("lineage:");
        let j = join_strings(&rc, ",");
        append_str(&mut v, j.as_str());
        from_chars(&v)
    } else if !c.remote_url.as_str().is_empty() {
        let mut v = to_chars("remote:");
        let l = to_lower(c.remote_url.as_str());
        append_str(&mut v, l.as_str());
        from_chars(&v)
    } else {
        let mut v = to_chars("noremote:");
        let l = to_lower(c.repo_name.as_str());
        append_str(&mut v, l.as_str());
        append_str(&mut v, ":EMPTY");
        from_chars(&v)
    }
}

/// The first group whose key is `key`, if any.
pub open spec fn find_group(gs: Seq<GroupV>, key: Seq<char>) -> Option<int>
    decreases gs.len(),
{
    if gs.len() == 0 {
        None
    } else {
        match find_group(gs.drop_last(), key) {
            Some(i) => Some(i),
            None => if gs.last().key == key {
                Some(gs.len() - 1)
            } else {
                None
            },
        }
    }
}

/// A new group seeded by copy `c`, without copies yet.
pub open spec fn seed_group(key: Seq<char>, c: CopyV) -> GroupV {
    GroupV {
        key,
        owner: c.owner,
        repo_name: c.repo_name,
        has_remote: c.remote_url.len() > 0,
        remote_url: c.remote_url,
        copies: Seq::empty(),
    }
}

/// `g` with copy `c` added: a group without a remote takes its identity
/// (owner, repo, remote) from the first remote-bearing copy that joins.
pub open spec fn join_group(g: GroupV, c: CopyV) -> GroupV {
    if !g.has_remote && c.remote_url.len() > 0 {
        GroupV {
            key: g.key,
            owner: c.owner,
            repo_name: c.repo_name,
            has_remote: true,
            remote_url: c.remote_url,
            copies: g.copies.push(c),
        }
    } else {
        GroupV { copies: g.copies.push(c), ..g }
    }
}

/// The groups of the first `n` copies.
pub open spec fn build_spec(copies: Seq<CopyV>, n: int) -> Seq<GroupV>
    decreases n,
{
    if n <= 0 {
        Seq::empty()
    } else {
        let gs = build_spec(copies, n - 1);
        let c = copies[n - 1];
        let key = group_key_spec(c);
        match find_group(gs, key) {
            Some(i) => gs.update(i, join_group(gs[i], c)),
            None => gs.push(join_group(seed_group(key, c), c)),
        }
    }
}

proof fn lemma_find_group_found(gs: Seq<GroupV>, key: Seq<char>, i: int)
    requires
        0 <= i < gs.len(),
        gs[i].key == key,
        forall|k: int| 0 <= k < i ==> (#[trigger] gs[k]).key != key,
    ensures
        find_group(gs, key) == Some(i),
    decreases gs.len(),
{
    if i < gs.len() - 1 {
        lemma_find_group_found(gs.drop_last(), key, i);
    } else {
        lemma_find_group_none(gs.drop_last(), key);
    }
}

proof fn lemma_find_group_none(gs: Seq<GroupV>, key: Seq<char>)
    requires
        forall|k: int| 0 <= k < gs.len() ==> (#[trigger] gs[k]).key != key,
    ensures
        find_group(gs, key) is None,
    decreases gs.len(),
{
    if gs.len() > 0 {
        lemma_find_group_none(gs.drop_last(), key);
    }
}

/// The position of the group whose key is `key`, if any: the first such group,
/// before which no group has that key.
fn position_of_key(groups: &Vec<Group>, key: &String) -> (r: Option<usize>)
    ensures
        r matches Some(i) ==> i < groups@.len() && groups.deep_view()[i as int].key == key@
            && forall|k: int| 0 <= k < i ==> (#[trigger] groups.deep_view()[k]).key != key@,
        r is None ==> forall|k: int| 0 <= k < groups@.len() ==> (#[trigger] groups.deep_view()[k]).key != key@,
{
    for gi in 0..groups.len()
        invariant
            forall|k: int| 0 <= k < gi ==> (#[trigger] groups.deep_view()[k]).key != key@,
    {
        proof {
            assert(groups.deep_view()[gi as int] == groups@[gi as int]@);
        }
        if groups[gi].key == *key {
            return Some(gi);
        }
    }
    None
}

/// Build groups copies into logical repos, in first-seen key order.
pub fn build(copies: Vec<crate::model::Copy>) -> (gs: Vec<Group>)
    ensures
        gs.deep_view() == build_spec(copies.deep_view(), copies@.len() as int),
{
    let mut groups: Vec<Group> = Vec::new();
    for ci in 0..copies.len()
        invariant
            groups.deep_view() == build_spec(copies.deep_view(), ci as int),
    {
        let c = copies[ci].clone();
        proof {
            assert(copies.deep_view()[ci as int] == c@);
        }
        let key = group_key(&c);
        let found = position_of_key(&groups, &key);
        let ghost gs = groups.deep_view();
        match found {
            Some(i) => {
                proof {
                    lemma_find_group_found(gs, key@, i as int);
                }
                let ghost gv = gs[i as int];
                if !groups[i].has_remote && !c.remote_url.as_str().is_empty() {
                    groups[i].has_remote = true;
                    groups[i].remote_url = c.remote_url.clone();
                    groups[i].owner = c.owner.clone();
                    groups[i].repo_name = c.repo_name.clone();
                }
                let ghost before = groups[i as int].copies;
                let ghost cc = c;
                groups[i].copies.push(c);
                proof {
                    lemma_deep_view_push(before, groups@[i as int].copies, cc);
                    assert(groups@[i as int]@ == join_group(gv, cc@));
                    assert(groups.deep_view() =~= gs.update(i as int, join_group(gv, cc@)));
                }
            },
            None => {
                proof {
                    lemma_find_group_none(gs, key@);
                }
                let has_remote = !c.remote_url.as_str().is_empty();
                let mut g = Group {
                    key,
                    owner: c.owner.clone(),
                    repo_name: c.repo_name.clone(),
                    has_remote,
                    remote_url: c.remote_url.clone(),
                    copies: Vec::new(),
                };
                let ghost seed = g;
                let ghost cc = c;
                g.copies.push(c);
                proof {
                    lemma_deep_view_push(seed.copies, g.copies, cc);
                    assert(seed.copies.deep_view() =~= Seq::<CopyV>::empty());
                    assert(g@ == join_group(seed_group(key@, cc@), cc@));
                }
                let ghost before = groups;
                let ghost gg = g;
                groups.push(g);
                proof {
                    lemma_deep_view_push(before, groups, gg);
                }
            },
        }
    }
    groups
}

} // verus!
