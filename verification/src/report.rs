//! The report artifacts: inventory CSV documents, the divergence report, the
//! checksum listing and the consolidation manifest, as exact texts and bytes.
//! Writing them to files is left to the caller.
use vstd::prelude::*;

use crate::digest::{hex_lower, sha256_digest, sha256_hex};
use crate::model::{ApplyResult, CopyV, DecisionV, Plan, PlanV, QuarantineItemV, StrategyKind, UnionRemoteV};
use crate::text::{append_str, count_string, decimal, decimal_string, from_chars, join, join_strings, utf8};

verus! {

// ---------------------------------------------------------------------------
// Shared pieces.

/// The name a strategy is written under in every report.
pub open spec fn strategy_name(s: StrategyKind) -> Seq<char> {
    match s {
        StrategyKind::A => "A-richest-quarantine"@,
        StrategyKind::B => "B-union-branches"@,
        StrategyKind::C => "C-snapshot"@,
    }
}

/// The name a strategy is written under in every report.
pub fn strategy_str(s: StrategyKind) -> (r: &'static str)
    ensures
        r@ == strategy_name(s),
{
    match s {
        StrategyKind::A => "A-richest-quarantine",
        StrategyKind::B => "B-union-branches",
        StrategyKind::C => "C-snapshot",
    }
}

/// A list of texts written as `[a b c]`: the items between square brackets,
/// separated by single spaces (`[]` for none).
pub open spec fn bracket_list(items: Seq<Seq<char>>) -> Seq<char> {
    "["@ + join(items, " "@) + "]"@
}

/// A list of texts written as `[a b c]`.
pub fn go_slice_v(items: &Vec<String>) -> (r: String)
    ensures
        r@ == bracket_list(items.deep_view()),
{
    let inner = join_strings(items, " ");
    let mut v: Vec<char> = Vec::new();
    append_str(&mut v, "[");
    append_str(&mut v, inner.as_str());
    append_str(&mut v, "]");
    from_chars(v.as_slice())
}

// ---------------------------------------------------------------------------
// Inventory CSV.

/// A field holds a byte that the writer must quote: a comma, a double
/// quote, CR or LF. (No other character's UTF-8 bytes include these.)
pub open spec fn csv_needs_quotes(f: Seq<char>) -> bool {
    exists|i: int| 0 <= i < f.len() && (f[i] == ',' || f[i] == '"' || f[i] == '\r' || f[i] == '\n')
}

/// A field with every double quote doubled.
pub open spec fn csv_double_quotes(f: Seq<char>) -> Seq<char>
    decreases f.len(),
{
    if f.len() == 0 {
        Seq::empty()
    } else {
        csv_double_quotes(f.drop_last()) + if f.last() == '"' {
            "\"\""@
        } else {
            seq![f.last()]
        }
    }
}

/// A field as written: quoted, with its quotes doubled, where it needs
/// quotes; else as it is.
pub open spec fn csv_field(f: Seq<char>) -> Seq<char> {
    if csv_needs_quotes(f) {
        "\""@ + csv_double_quotes(f) + "\""@
    } else {
        f
    }
}

/// The text of one record: its fields as written, joined by commas, then
/// `\n`; a record that would otherwise be empty (no field, or one empty
/// field) is written as `""`.
pub open spec fn csv_record_text(fields: Seq<Seq<char>>) -> Seq<char> {
    if fields.len() == 0 || (fields.len() == 1 && fields[0].len() == 0) {
        "\"\"\n"@
    } else {
        join(fields.map_values(|f: Seq<char>| csv_field(f)), ","@) + "\n"@
    }
}

/// The bytes of one record: the UTF-8 encoding of its text.
pub open spec fn csv_record_bytes(fields: Seq<Seq<char>>) -> Seq<u8> {
    utf8(csv_record_text(fields))
}

/// Writes one record with a fresh `csv::Writer` over a byte vector, with `\n`
/// as the record terminator, and returns the bytes. The contract claims what
/// `csv::Writer::write_record` writes with the default settings (quote only
/// where needed, doubled quotes, no comment character): see
/// [`csv_record_text`]. Writing into memory cannot fail and a first record
/// cannot have a wrong field count, so the error arms are not taken.
#[verifier::external_body]
fn csv_record(fields: &Vec<String>) -> (r: Vec<u8>)
    ensures
        r@ == csv_record_bytes(fields.deep_view()),
{
    let mut w = csv::WriterBuilder::new().terminator(csv::Terminator::Any(b'\n')).from_writer(Vec::new());
    if w.write_record(fields).is_err() {
        return Vec::new();
    }
    match w.into_inner() {
        Ok(v) => v,
        Err(_) => Vec::new(),
    }
}

/// The bytes of consecutive records.
pub open spec fn csv_document(records: Seq<Seq<Seq<char>>>) -> Seq<u8>
    decreases records.len(),
{
    if records.len() == 0 {
        Seq::empty()
    } else {
        csv_document(records.drop_last()) + csv_record_bytes(records.last())
    }
}

/// The column names of an inventory.
pub open spec fn inventory_header() -> Seq<Seq<char>> {
    seq![
        "owner"@,
        "repo"@,
        "machine"@,
        "remote"@,
        "head"@,
        "commits"@,
        "ahead"@,
        "dirty"@,
        "untracked"@,
        "path"@,
    ]
}

/// The inventory row of one copy.
pub open spec fn inventory_row(c: CopyV) -> Seq<Seq<char>> {
    seq![
        c.owner,
        c.repo_name,
        c.machine,
        c.remote_url,
        c.fp.head,
        decimal(c.fp.commit_count as int),
        decimal(c.fp.ahead as int),
        decimal(c.fp.dirty_count as int),
        decimal(c.fp.untracked_count as int),
        c.path,
    ]
}

/// The records of an inventory: the header, then one row per copy.
pub open spec fn inventory_records(copies: Seq<CopyV>) -> Seq<Seq<Seq<char>>> {
    seq![inventory_header()] + copies.map_values(|c: CopyV| inventory_row(c))
}

fn header_fields() -> (r: Vec<String>)
    ensures
        r.deep_view() == inventory_header(),
{
    let r: Vec<String> = vec![
        "owner".to_string(),
        "repo".to_string(),
        "machine".to_string(),
        "remote".to_string(),
        "head".to_string(),
        "commits".to_string(),
        "ahead".to_string(),
        "dirty".to_string(),
        "untracked".to_string(),
        "path".to_string(),
    ];
    assert(r.deep_view() =~= inventory_header());
    r
}

fn row_fields(c: &crate::model::Copy) -> (r: Vec<String>)
    ensures
        r.deep_view() == inventory_row(c@),
{
    let r: Vec<String> = vec![
        c.owner.clone(),
        c.repo_name.clone(),
        c.machine.clone(),
        c.remote_url.clone(),
        c.fp.head.clone(),
        decimal_string(c.fp.commit_count),
        decimal_string(c.fp.ahead),
        decimal_string(c.fp.dirty_count),
        decimal_string(c.fp.untracked_count),
        c.path.clone(),
    ];
    assert(r.deep_view() =~= inventory_row(c@));
    r
}

/// Appends the inventory CSV document of `copies` to `out`.
fn write_csv(out: &mut Vec<u8>, copies: &Vec<crate::model::Copy>)
    ensures
        final(out)@ == old(out)@ + csv_document(inventory_records(copies.deep_view())),
{
    let ghost recs = inventory_records(copies.deep_view());
    let ghost start = old(out)@;
    let h = header_fields();
    let hb = csv_record(&h);
    out.extend_from_slice(hb.as_slice());
    proof {
        assert(recs.take(1).drop_last() =~= Seq::<Seq<Seq<char>>>::empty());
        assert(recs.take(1).last() == inventory_header());
        assert(csv_document(recs.take(1)) == csv_document(Seq::<Seq<Seq<char>>>::empty()) + hb@);
        assert(csv_document(recs.take(1)) =~= hb@);
        assert(out@ =~= start + csv_document(recs.take(1)));
    }
    for i in 0..copies.len()
        invariant
            recs == inventory_records(copies.deep_view()),
            recs.len() == copies@.len() + 1,
            out@ == start + csv_document(recs.take(i + 1)),
    {
        let rf = row_fields(&copies[i]);
        let rb = csv_record(&rf);
        let ghost before = out@;
        out.extend_from_slice(rb.as_slice());
        proof {
            assert(copies.deep_view()[i as int] == copies@[i as int]@);
            assert(recs[i + 1] == inventory_row(copies@[i as int]@));
            assert(recs.take(i + 2).drop_last() =~= recs.take(i + 1));
            assert(recs.take(i + 2).last() == recs[i + 1]);
            assert(out@ =~= before + rb@);
        }
    }
    assert(recs.take(copies@.len() + 1 as int) =~= recs);
}

/// Writes the inventory CSV documents: the copies in scope to `inventory`
/// and the third-party copies to `third_party_out`, each after a header row.
pub fn write_inventory(
    in_scope: &Vec<crate::model::Copy>,
    third_party: &Vec<crate::model::Copy>,
    inventory: &mut Vec<u8>,
    third_party_out: &mut Vec<u8>,
)
    ensures
        final(inventory)@ == old(inventory)@ + csv_document(inventory_records(in_scope.deep_view())),
        final(third_party_out)@ == old(third_party_out)@ + csv_document(
            inventory_records(third_party.deep_view()),
        ),
{
    write_csv(inventory, in_scope);
    write_csv(third_party_out, third_party);
}

// ---------------------------------------------------------------------------
// Divergence report.

/// The line of one quarantined copy.
pub open spec fn quarantine_line(q: QuarantineItemV) -> Seq<char> {
    "- quarantine "@ + q.copy.machine + ": "@ + q.reason + " ("@ + decimal(
        q.unreachable_commits.len() as int,
    ) + " unreachable commits)\n"@
}

/// The line of one union remote.
pub open spec fn union_line(u: UnionRemoteV) -> Seq<char> {
    "- union "@ + u.name + ": branches "@ + bracket_list(u.branches) + "\n"@
}

/// The lines of the quarantined copies, in order.
pub open spec fn quarantine_lines(qs: Seq<QuarantineItemV>) -> Seq<char>
    decreases qs.len(),
{
    if qs.len() == 0 {
        Seq::empty()
    } else {
        quarantine_lines(qs.drop_last()) + quarantine_line(qs.last())
    }
}

/// The lines of the union remotes, in order.
pub open spec fn union_lines(us: Seq<UnionRemoteV>) -> Seq<char>
    decreases us.len(),
{
    if us.len() == 0 {
        Seq::empty()
    } else {
        union_lines(us.drop_last()) + union_line(us.last())
    }
}

/// The section of one decision: nothing when it neither quarantines nor
/// unions anything, else a heading, the canonical copy, the quarantined
/// copies, the union remotes and a blank line.
pub open spec fn divergence_section(d: DecisionV) -> Seq<char> {
    if d.quarantine.len() == 0 && d.union_remotes.len() == 0 {
        Seq::empty()
    } else {
        "## "@ + d.group.owner + "/"@ + d.group.repo_name + " \u{2014} strategy "@ + strategy_name(d.strategy)
            + "\n"@ + "- canonical: "@ + d.canonical.machine + " ("@ + d.canonical_reason + ")\n"@
            + quarantine_lines(d.quarantine) + union_lines(d.union_remotes) + "\n"@
    }
}

/// The sections of the decisions, in order.
pub open spec fn divergence_sections(ds: Seq<DecisionV>) -> Seq<char>
    decreases ds.len(),
{
    if ds.len() == 0 {
        Seq::empty()
    } else {
        divergence_sections(ds.drop_last()) + divergence_section(ds.last())
    }
}

/// The divergence report of a plan.
pub open spec fn divergence_text(p: PlanV) -> Seq<char> {
    "# Divergence report\n\n"@ + divergence_sections(p.decisions)
}

fn push_quarantine_lines(v: &mut Vec<char>, qs: &Vec<crate::model::QuarantineItem>)
    ensures
        final(v)@ == old(v)@ + quarantine_lines(qs.deep_view()),
{
    let ghost start = old(v)@;
    for i in 0..qs.len()
        invariant
            v@ == start + quarantine_lines(qs.deep_view().take(i as int)),
    {
        let q = &qs[i];
        let n = count_string(q.unreachable_commits.len());
        let ghost before = v@;
        append_str(v, "- quarantine ");
        append_str(v, q.copy.machine.as_str());
        append_str(v, ": ");
        append_str(v, q.reason.as_str());
        append_str(v, " (");
        append_str(v, n.as_str());
        append_str(v, " unreachable commits)\n");
        proof {
            assert(qs.deep_view()[i as int] == q@);
            assert(q@.unreachable_commits.len() == q.unreachable_commits@.len());
            assert(qs.deep_view().take(i + 1).drop_last() =~= qs.deep_view().take(i as int));
            assert(v@ =~= before + quarantine_line(q@));
        }
    }
    assert(qs.deep_view().take(qs@.len() as int) =~= qs.deep_view());
}

fn push_union_lines(v: &mut Vec<char>, us: &Vec<crate::model::UnionRemote>)
    ensures
        final(v)@ == old(v)@ + union_lines(us.deep_view()),
{
    let ghost start = old(v)@;
    for i in 0..us.len()
        invariant
            v@ == start + union_lines(us.deep_view().take(i as int)),
    {
        let u = &us[i];
        let bl = go_slice_v(&u.branches);
        let ghost before = v@;
        append_str(v, "- union ");
        append_str(v, u.name.as_str());
        append_str(v, ": branches ");
        append_str(v, bl.as_str());
        append_str(v, "\n");
        proof {
            assert(us.deep_view()[i as int] == u@);
            assert(us.deep_view().take(i + 1).drop_last() =~= us.deep_view().take(i as int));
            assert(v@ =~= before + union_line(u@));
        }
    }
    assert(us.deep_view().take(us@.len() as int) =~= us.deep_view());
}

#[verifier::rlimit(50)]
fn push_section(v: &mut Vec<char>, d: &crate::model::Decision)
    ensures
        final(v)@ == old(v)@ + divergence_section(d@),
{
    if d.quarantine.len() > 0 || d.union_remotes.len() > 0 {
        append_str(v, "## ");
        append_str(v, d.group.owner.as_str());
        append_str(v, "/");
        append_str(v, d.group.repo_name.as_str());
        append_str(v, " \u{2014} strategy ");
        append_str(v, strategy_str(d.strategy));
        append_str(v, "\n");
        append_str(v, "- canonical: ");
        append_str(v, d.canonical.machine.as_str());
        append_str(v, " (");
        append_str(v, d.canonical_reason.as_str());
        append_str(v, ")\n");
        push_quarantine_lines(v, &d.quarantine);
        push_union_lines(v, &d.union_remotes);
        append_str(v, "\n");
        assert(v@ =~= old(v)@ + divergence_section(d@));
    } else {
        assert(divergence_section(d@) =~= Seq::<char>::empty());
        assert(v@ =~= old(v)@ + divergence_section(d@));
    }
}

/// The divergence report of a plan: one section per decision that
/// quarantines or unions something.
pub fn divergence_markdown(p: &Plan) -> (r: String)
    ensures
        r@ == divergence_text(p@),
{
    let mut v: Vec<char> = Vec::new();
    append_str(&mut v, "# Divergence report\n\n");
    let ghost start = v@;
    for i in 0..p.decisions.len()
        invariant
            start == "# Divergence report\n\n"@,
            v@ == start + divergence_sections(p@.decisions.take(i as int)),
    {
        let d = &p.decisions[i];
        let ghost before = v@;
        push_section(&mut v, d);
        proof {
            assert(p@.decisions[i as int] == d@);
            assert(p@.decisions.take(i + 1).drop_last() =~= p@.decisions.take(i as int));
            assert(v@ =~= before + divergence_section(d@));
        }
    }
    assert(p@.decisions.take(p@.decisions.len() as int) =~= p@.decisions);
    from_chars(v.as_slice())
}

// ---------------------------------------------------------------------------
// Consolidation manifest.

/// The table row of one decision.
pub open spec fn manifest_row(d: DecisionV) -> Seq<char> {
    "| "@ + d.group.owner + " | "@ + d.group.repo_name + " | "@ + strategy_name(d.strategy) + " | "@
        + d.canonical.machine + " | "@ + decimal(d.quarantine.len() as int) + " | "@ + decimal(
        d.redundant.len() as int,
    ) + " |\n"@
}

/// The table rows of the decisions, in order.
pub open spec fn manifest_rows(ds: Seq<DecisionV>) -> Seq<char>
    decreases ds.len(),
{
    if ds.len() == 0 {
        Seq::empty()
    } else {
        manifest_rows(ds.drop_last()) + manifest_row(ds.last())
    }
}

/// One listed file per line.
pub open spec fn file_lines(fs: Seq<Seq<char>>) -> Seq<char>
    decreases fs.len(),
{
    if fs.len() == 0 {
        Seq::empty()
    } else {
        file_lines(fs.drop_last()) + "- "@ + fs.last() + "\n"@
    }
}

/// The most unreadable files the manifest lists by name.
pub open spec fn listed_limit() -> int {
    50
}

/// The part on unreadable files: nothing when there are none, else a
/// heading with their number, the first fifty of them, and how many more
/// there are when that is not all.
pub open spec fn skipped_files_text(fs: Seq<Seq<char>>) -> Seq<char> {
    let n = fs.len() as int;
    if n == 0 {
        Seq::empty()
    } else {
        "\n## Unreadable files skipped ("@ + decimal(n) + ")\n\n"@ + file_lines(
            fs.take(if n > listed_limit() { listed_limit() } else { n }),
        ) + if n > listed_limit() {
            "- ... and "@ + decimal(n - listed_limit()) + " more\n"@
        } else {
            Seq::empty()
        }
    }
}

/// The consolidation manifest of a plan and of what applying it did.
pub open spec fn manifest_text(p: PlanV, res: crate::model::ApplyResultV) -> Seq<char> {
    "# Consolidation manifest\n\nGenerated: "@ + p.generated_at + "\nRoots: "@ + bracket_list(p.roots)
        + "\nDest: "@ + p.dest + "\n\n"@ + "Copied: "@ + decimal(res.copied as int) + "  Quarantined: "@
        + decimal(res.quarantined as int) + "  Unioned: "@ + decimal(res.unioned as int) + "  Skipped: "@
        + decimal(res.skipped as int) + "\n\n"@
        + "| owner | repo | strategy | canonical | quarantined | redundant |\n"@
        + "|---|---|---|---|---|---|\n"@ + manifest_rows(p.decisions) + skipped_files_text(
        res.skipped_files,
    )
}

fn push_manifest_row(v: &mut Vec<char>, d: &crate::model::Decision)
    ensures
        final(v)@ == old(v)@ + manifest_row(d@),
{
    let nq = count_string(d.quarantine.len());
    let nr = count_string(d.redundant.len());
    append_str(v, "| ");
    append_str(v, d.group.owner.as_str());
    append_str(v, " | ");
    append_str(v, d.group.repo_name.as_str());
    append_str(v, " | ");
    append_str(v, strategy_str(d.strategy));
    append_str(v, " | ");
    append_str(v, d.canonical.machine.as_str());
    append_str(v, " | ");
    append_str(v, nq.as_str());
    append_str(v, " | ");
    append_str(v, nr.as_str());
    append_str(v, " |\n");
    assert(d@.quarantine.len() == d.quarantine@.len());
    assert(d@.redundant.len() == d.redundant@.len());
    assert(v@ =~= old(v)@ + manifest_row(d@));
}

fn push_manifest_rows(v: &mut Vec<char>, ds: &Vec<crate::model::Decision>)
    ensures
        final(v)@ == old(v)@ + manifest_rows(ds.deep_view()),
{
    let ghost start = old(v)@;
    for i in 0..ds.len()
        invariant
            v@ == start + manifest_rows(ds.deep_view().take(i as int)),
    {
        let d = &ds[i];
        let ghost before = v@;
        push_manifest_row(v, d);
        proof {
            assert(ds.deep_view()[i as int] == d@);
            assert(ds.deep_view().take(i + 1).drop_last() =~= ds.deep_view().take(i as int));
            assert(v@ =~= before + manifest_row(d@));
        }
    }
    assert(ds.deep_view().take(ds@.len() as int) =~= ds.deep_view());
}

fn push_skipped_files(v: &mut Vec<char>, fs: &Vec<String>)
    ensures
        final(v)@ == old(v)@ + skipped_files_text(fs.deep_view()),
{
    let n = fs.len();
    if n == 0 {
        assert(skipped_files_text(fs.deep_view()) =~= Seq::<char>::empty());
        return;
    }
    let ns = count_string(n);
    append_str(v, "\n## Unreadable files skipped (");
    append_str(v, ns.as_str());
    append_str(v, ")\n\n");
    let limit: usize = if n > 50 { 50 } else { n };
    let ghost mid = v@;
    for i in 0..limit
        invariant
            limit <= fs@.len(),
            v@ == mid + file_lines(fs.deep_view().take(i as int)),
    {
        let ghost before = v@;
        append_str(v, "- ");
        append_str(v, fs[i].as_str());
        append_str(v, "\n");
        proof {
            assert(fs.deep_view()[i as int] == fs@[i as int]@);
            assert(fs.deep_view().take(i + 1).drop_last() =~= fs.deep_view().take(i as int));
            assert(fs.deep_view().take(i + 1).last() == fs@[i as int]@);
            assert(file_lines(fs.deep_view().take(i + 1)) == file_lines(fs.deep_view().take(i as int)) + "- "@
                + fs@[i as int]@ + "\n"@);
            assert(v@ =~= mid + file_lines(fs.deep_view().take(i + 1)));
        }
    }
    let ghost listed = v@;
    if n > 50 {
        let more = count_string(n - 50);
        append_str(v, "- ... and ");
        append_str(v, more.as_str());
        append_str(v, " more\n");
    }
    assert(v@ =~= old(v)@ + skipped_files_text(fs.deep_view()));
}

/// The consolidation manifest: when the plan was made, its roots and
/// destination, the counts of what applying it did, one table row per
/// decision, and the unreadable files that were skipped (at most fifty by
/// name).
pub fn manifest_markdown(p: &Plan, res: &ApplyResult) -> (r: String)
    ensures
        r@ == manifest_text(p@, res@),
{
    let roots = go_slice_v(&p.roots);
    let copied = decimal_string(res.copied);
    let quarantined = decimal_string(res.quarantined);
    let unioned = decimal_string(res.unioned);
    let skipped = decimal_string(res.skipped);
    let mut v: Vec<char> = Vec::new();
    append_str(&mut v, "# Consolidation manifest\n\nGenerated: ");
    append_str(&mut v, p.generated_at.as_str());
    append_str(&mut v, "\nRoots: ");
    append_str(&mut v, roots.as_str());
    append_str(&mut v, "\nDest: ");
    append_str(&mut v, p.dest.as_str());
    append_str(&mut v, "\n\n");
    append_str(&mut v, "Copied: ");
    append_str(&mut v, copied.as_str());
    append_str(&mut v, "  Quarantined: ");
    append_str(&mut v, quarantined.as_str());
    append_str(&mut v, "  Unioned: ");
    append_str(&mut v, unioned.as_str());
    append_str(&mut v, "  Skipped: ");
    append_str(&mut v, skipped.as_str());
    append_str(&mut v, "\n\n");
    append_str(&mut v, "| owner | repo | strategy | canonical | quarantined | redundant |\n");
    append_str(&mut v, "|---|---|---|---|---|---|\n");
    push_manifest_rows(&mut v, &p.decisions);
    push_skipped_files(&mut v, &res.skipped_files);
    assert(v@ =~= manifest_text(p@, res@));
    from_chars(v.as_slice())
}

// ---------------------------------------------------------------------------
// Checksum listing.

/// The line of one file in a `sha256sum` listing: the hex digest of its
/// content, two spaces, its path.
pub open spec fn checksum_line_text(rel: Seq<char>, content: Seq<u8>) -> Seq<char> {
    hex_lower(sha256_digest(content)) + "  "@ + rel + "\n"@
}

/// The `sha256sum` line of a file with path `rel` and the given content.
pub fn checksum_line(rel: &str, content: &[u8]) -> (r: String)
    ensures
        r@ == checksum_line_text(rel@, content@),
{
    let h = sha256_hex(content);
    let mut v: Vec<char> = Vec::new();
    append_str(&mut v, h.as_str());
    append_str(&mut v, "  ");
    append_str(&mut v, rel);
    append_str(&mut v, "\n");
    from_chars(v.as_slice())
}

/// The view of a listed file: its path and its content.
pub open spec fn listed_files(files: Seq<(String, Vec<u8>)>) -> Seq<(Seq<char>, Seq<u8>)> {
    files.map_values(|e: (String, Vec<u8>)| (e.0@, e.1@))
}

/// A `sha256sum` listing: the line of each file, in the order given.
pub open spec fn checksum_listing_text(files: Seq<(Seq<char>, Seq<u8>)>) -> Seq<char>
    decreases files.len(),
{
    if files.len() == 0 {
        Seq::empty()
    } else {
        checksum_listing_text(files.drop_last()) + checksum_line_text(files.last().0, files.last().1)
    }
}

/// The `sha256sum` listing of the given files (path, content), one line
/// each in the order given; the caller lists them in order of path
/// (see `crate::text::sort_strings`) and leaves out what it could not read.
/// No file gives the empty listing.
pub fn checksum_listing(files: &Vec<(String, Vec<u8>)>) -> (r: String)
    ensures
        r@ == checksum_listing_text(listed_files(files@)),
{
    let mut v: Vec<char> = Vec::new();
    let mut i: usize = 0;
    while i < files.len()
        invariant
            i <= files@.len(),
            v@ == checksum_listing_text(listed_files(files@).take(i as int)),
        decreases files@.len() - i,
    {
        let line = checksum_line(files[i].0.as_str(), files[i].1.as_slice());
        append_str(&mut v, line.as_str());
        assert(listed_files(files@).take(i + 1).drop_last() =~= listed_files(files@).take(i as int));
        i = i + 1;
    }
    assert(listed_files(files@).take(i as int) =~= listed_files(files@));
    from_chars(v.as_slice())
}

} // verus!
