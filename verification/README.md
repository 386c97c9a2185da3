# reposmerge

Consolidates scattered working-tree copies of git repositories into one
canonical tree without losing a commit: `scan` finds and fingerprints the
copies and groups them, `plan` decides per group how to merge them, `apply`
carries the plan out (a dry run unless confirmed), and `verify` proves that
every source commit is still reachable.

## Layout

- `src/` — the library, verified with Verus. Functions state their results
  in their contracts; those that talk to git state them over the history of
  calls made through a `Logged` runner (each call's directory, arguments and
  answer), and a runner says in `answers` what it may reply:
  - `model` — copies, fingerprints, groups, decisions, plans, and their
    mathematical views;
  - `text`, `clock`, `digest` — character-level text, time stamps, SHA-256
    and hex (the last two through the `chrono`, `sha2` and `hex` crates);
  - `gitx` — the git runner interface, git errors and a scripted runner;
  - `fingerprint`, `discover`, `group`, `strategy` — reading a copy's git
    state, recognising and classifying repositories, grouping copies by
    lineage, and deciding each group (richest copy wins; with a remote,
    divergent copies are quarantined; without one they are folded in as
    union remotes, or kept verbatim when their root commits differ);
  - `safety` — the reachability proofs that no commit is lost;
  - `consolidate` — a run of a plan, as a state machine that asks for file
    work one request at a time and does the git work of union remotes;
  - `treehash`, `report`, `pipeline`, `config` — the working-tree hash, the
    report artifacts, the computing steps of the commands, and seed values;
  - `laws`, `run_laws`, `order_laws` — proved properties that span
    functions: no decision loses a commit, grouping partitions the copies,
    a matching destination is skipped, a dry run writes nothing, union
    remote names are distinct, every run comes to an end, the tree hash
    ignores walk order, and more.
- `app/` — the command line (`clap`), the runner that spawns `git`, the file
  system walks and copies, and the JSON form of a plan (`serde`).
- `tests/` — tests of the library on concrete values.
