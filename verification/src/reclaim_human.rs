//! The human-readable reclaim report: a summary of the totals, one block
//! per filesystem with its table of targets, and the table of global and
//! unassigned actions. Usage percentages are floating point; they come in
//! already formatted, one per filesystem.
use vstd::prelude::*;
use crate::reclaim::{ReclaimTotals, ReclaimFilesystem, ReclaimTarget, row_text, format_target_row};
use crate::text::{copy_str, push_str, push_char, padded, push_padded, size_text, human_size, joined, join};
use crate::text::{decimal, decimal_string};
use crate::tokens::views;

verus! {

broadcast use vstd::string::group_string_axioms;

/// `n` dashes.
pub open spec fn dashes(n: nat) -> Seq<char> {
    Seq::new(n, |i: int| '-')
}

/// The column titles of a target table, padded as the rows are.
pub open spec fn table_titles_text() -> Seq<char> {
    "  "@ + padded("Target"@, 36) + " "@ + padded("Tier"@, 11) + " "@ + padded("Est. Yield"@, 12) + " "@
        + padded("Status"@, 10) + " "@ + padded("Surface"@, 18) + " "@ + "Notes"@ + "\n"@
}

/// The two header lines of a target table: the column titles and a rule
/// of 112 dashes.
pub open spec fn table_header_text() -> Seq<char> {
    table_titles_text() + "  "@ + dashes(112) + "\n"@
}

/// The rows of `targets`, in order.
pub open spec fn rows_text(targets: Seq<ReclaimTarget>) -> Seq<char>
    decreases targets.len(),
{
    if targets.len() == 0 {
        Seq::empty()
    } else {
        rows_text(targets.drop_last()) + row_text(targets.last())
    }
}

/// The summary at the head of the report; the line on gated bytes stands
/// only when some were held back.
pub open spec fn summary_text(t: ReclaimTotals) -> Seq<char> {
    "Reclaim summary\n"@ + "  Filesystems: "@ + decimal(t.filesystems_over_threshold as nat)
        + " over threshold  Targets: "@ + decimal(t.targets_total as nat) + " total ("@ + decimal(
        t.skipped_targets as nat,
    ) + " skipped by tier policy)\n"@ + "  Estimated reclaim: "@ + size_text(
        t.total_estimated_freed_bytes as nat,
    ) + "  Goal: "@ + size_text(t.total_target_free_bytes as nat) + "  Remaining shortfall: "@
        + size_text(t.total_goal_shortfall_bytes as nat) + "\n\n"@ + if t.skipped_estimated_freed_bytes > 0 {
        "  Gated by tier policy: "@ + size_text(t.skipped_estimated_freed_bytes as nat)
            + " (use --force to include confirm/risky/report-only targets)\n\n"@
    } else {
        Seq::empty()
    }
}

/// What a filesystem block says after its table once cleanup ran: the
/// bytes freed, whether the goal was met, and what is available now.
pub open spec fn result_text(fs: ReclaimFilesystem) -> Seq<char> {
    match fs.actual_freed_bytes {
        Some(actual) => "\n  Result: "@ + size_text(actual as nat) + " freed (goal: "@ + (if fs.goal_met
            == Some(true) {
            "MET"@
        } else {
            "NOT MET"@
        }) + ")\n"@ + match fs.final_available_bytes {
            Some(available) => "  Final available: "@ + size_text(available as nat) + "\n"@,
            None => Seq::empty(),
        },
        None => Seq::empty(),
    }
}

/// The block of one filesystem: device and type with the usage `usage`
/// (a percentage with one decimal), its mounts, its sizes, and the table
/// of its targets.
pub open spec fn filesystem_text(fs: ReclaimFilesystem, usage: Seq<char>) -> Seq<char> {
    "Filesystem: "@ + fs.device@ + " ("@ + fs.fstype@ + ") ["@ + usage + "% full]\n"@ + "  Mounts: "@ + joined(
        views(fs.mounts@),
        ", "@,
    ) + "\n"@ + "  Size: "@ + size_text(fs.total_bytes as nat) + "  Used: "@ + size_text(fs.used_bytes as nat)
        + "  Available: "@ + size_text(fs.available_bytes as nat) + "  Target: "@ + size_text(
        fs.target_free_bytes as nat,
    ) + "  Est. reclaim: "@ + size_text(fs.estimated_freed_bytes as nat) + "\n"@ + if fs.targets@.len() == 0 {
        "  No filesystem-local targets found.\n\n"@
    } else {
        "\n"@ + table_header_text() + rows_text(fs.targets@) + result_text(fs) + "\n"@
    }
}

/// The blocks of `filesystems`, each with its usage, in order.
pub open spec fn filesystems_text(filesystems: Seq<ReclaimFilesystem>, usages: Seq<Seq<char>>) -> Seq<char>
    decreases filesystems.len(),
{
    if filesystems.len() == 0 {
        Seq::empty()
    } else {
        filesystems_text(filesystems.drop_last(), usages.take(filesystems.len() - 1)) + filesystem_text(
            filesystems.last(),
            usages[filesystems.len() - 1],
        )
    }
}

/// The table of global and unassigned actions, absent when there are none.
pub open spec fn unassigned_text(targets: Seq<ReclaimTarget>) -> Seq<char> {
    if targets.len() == 0 {
        Seq::empty()
    } else {
        "Global and unassigned actions\n"@ + table_header_text() + rows_text(targets) + "\n"@
    }
}

/// The report up to the remaining-pressure section.
pub open spec fn report_body_text(
    totals: ReclaimTotals,
    filesystems: Seq<ReclaimFilesystem>,
    usages: Seq<Seq<char>>,
    unassigned: Seq<ReclaimTarget>,
) -> Seq<char> {
    summary_text(totals) + filesystems_text(filesystems, usages) + unassigned_text(unassigned)
}

fn push_table_titles(out: &mut String)
    ensures
        final(out)@ == old(out)@ + table_titles_text(),
{
    push_str(out, "  ");
    push_padded(out, "Target", 36);
    push_str(out, " ");
    push_padded(out, "Tier", 11);
    push_str(out, " ");
    push_padded(out, "Est. Yield", 12);
    push_str(out, " ");
    push_padded(out, "Status", 10);
    push_str(out, " ");
    push_padded(out, "Surface", 18);
    push_str(out, " ");
    push_str(out, "Notes");
    push_str(out, "\n");
    assert(out@ =~= old(out)@ + table_titles_text());
}

fn push_dashes(out: &mut String, n: usize)
    ensures
        final(out)@ == old(out)@ + dashes(n as nat),
{
    let mut k: usize = 0;
    while k < n
        invariant
            k <= n,
            out@ == old(out)@ + dashes(k as nat),
        decreases n - k,
    {
        push_char(out, '-');
        k = k + 1;
        assert(out@ =~= old(out)@ + dashes(k as nat));
    }
}

fn push_table_header(out: &mut String)
    ensures
        final(out)@ == old(out)@ + table_header_text(),
{
    push_table_titles(out);
    push_str(out, "  ");
    push_dashes(out, 112);
    push_str(out, "\n");
    assert(out@ =~= old(out)@ + table_header_text());
}

fn push_rows(out: &mut String, targets: &Vec<ReclaimTarget>)
    ensures
        final(out)@ == old(out)@ + rows_text(targets@),
{
    let ghost start = out@;
    let mut i: usize = 0;
    while i < targets.len()
        invariant
            i <= targets@.len(),
            out@ == start + rows_text(targets@.take(i as int)),
        decreases targets.len() - i,
    {
        let row = format_target_row(&targets[i]);
        push_str(out, row.as_str());
        proof {
            let t = targets@.take(i + 1);
            assert(t.drop_last() =~= targets@.take(i as int));
            assert(t.last() == targets@[i as int]);
        }
        i = i + 1;
        assert(out@ =~= start + rows_text(targets@.take(i as int)));
    }
    assert(targets@.take(targets@.len() as int) =~= targets@);
}

/// The summary at the head of the report.
pub fn format_summary(t: &ReclaimTotals) -> (r: String)
    ensures
        r@ == summary_text(*t),
{
    let mut r = copy_str("Reclaim summary\n");
    push_str(&mut r, "  Filesystems: ");
    push_str(&mut r, decimal_string(t.filesystems_over_threshold as u64).as_str());
    push_str(&mut r, " over threshold  Targets: ");
    push_str(&mut r, decimal_string(t.targets_total as u64).as_str());
    push_str(&mut r, " total (");
    push_str(&mut r, decimal_string(t.skipped_targets as u64).as_str());
    push_str(&mut r, " skipped by tier policy)\n");
    push_str(&mut r, "  Estimated reclaim: ");
    push_str(&mut r, human_size(t.total_estimated_freed_bytes).as_str());
    push_str(&mut r, "  Goal: ");
    push_str(&mut r, human_size(t.total_target_free_bytes).as_str());
    push_str(&mut r, "  Remaining shortfall: ");
    push_str(&mut r, human_size(t.total_goal_shortfall_bytes).as_str());
    push_str(&mut r, "\n\n");
    if t.skipped_estimated_freed_bytes > 0 {
        push_str(&mut r, "  Gated by tier policy: ");
        push_str(&mut r, human_size(t.skipped_estimated_freed_bytes).as_str());
        push_str(&mut r, " (use --force to include confirm/risky/report-only targets)\n\n");
    }
    assert(r@ =~= summary_text(*t));
    r
}

fn push_result(out: &mut String, fs: &ReclaimFilesystem)
    ensures
        final(out)@ == old(out)@ + result_text(*fs),
{
    match fs.actual_freed_bytes {
        Some(actual) => {
            push_str(out, "\n  Result: ");
            push_str(out, human_size(actual).as_str());
            push_str(out, " freed (goal: ");
            let met = match fs.goal_met {
                Some(m) => m,
                None => false,
            };
            if met {
                push_str(out, "MET");
            } else {
                push_str(out, "NOT MET");
            }
            push_str(out, ")\n");
            match fs.final_available_bytes {
                Some(available) => {
                    push_str(out, "  Final available: ");
                    push_str(out, human_size(available).as_str());
                    push_str(out, "\n");
                },
                None => {},
            }
        },
        None => {},
    }
    assert(out@ =~= old(out)@ + result_text(*fs));
}

/// The block of one filesystem, with its usage already formatted.
pub fn format_filesystem(fs: &ReclaimFilesystem, usage: &str) -> (r: String)
    ensures
        r@ == filesystem_text(*fs, usage@),
{
    let mut r = copy_str("Filesystem: ");
    push_str(&mut r, fs.device.as_str());
    push_str(&mut r, " (");
    push_str(&mut r, fs.fstype.as_str());
    push_str(&mut r, ") [");
    push_str(&mut r, usage);
    push_str(&mut r, "% full]\n");
    push_str(&mut r, "  Mounts: ");
    let mounts = join(&fs.mounts, ", ");
    assert(fs.mounts@.map_values(|p: String| p@) =~= views(fs.mounts@));
    push_str(&mut r, mounts.as_str());
    push_str(&mut r, "\n");
    push_str(&mut r, "  Size: ");
    push_str(&mut r, human_size(fs.total_bytes).as_str());
    push_str(&mut r, "  Used: ");
    push_str(&mut r, human_size(fs.used_bytes).as_str());
    push_str(&mut r, "  Available: ");
    push_str(&mut r, human_size(fs.available_bytes).as_str());
    push_str(&mut r, "  Target: ");
    push_str(&mut r, human_size(fs.target_free_bytes).as_str());
    push_str(&mut r, "  Est. reclaim: ");
    push_str(&mut r, human_size(fs.estimated_freed_bytes).as_str());
    push_str(&mut r, "\n");
    if fs.targets.len() == 0 {
        push_str(&mut r, "  No filesystem-local targets found.\n\n");
    } else {
        push_str(&mut r, "\n");
        push_table_header(&mut r);
        push_rows(&mut r, &fs.targets);
        push_result(&mut r, fs);
        push_str(&mut r, "\n");
    }
    assert(r@ =~= filesystem_text(*fs, usage@));
    r
}

/// The table of global and unassigned actions (empty when there are none).
pub fn format_unassigned(targets: &Vec<ReclaimTarget>) -> (r: String)
    ensures
        r@ == unassigned_text(targets@),
{
    let mut r = String::new();
    if targets.len() > 0 {
        push_str(&mut r, "Global and unassigned actions\n");
        push_table_header(&mut r);
        push_rows(&mut r, targets);
        push_str(&mut r, "\n");
    }
    assert(r@ =~= unassigned_text(targets@));
    r
}

proof fn lemma_filesystems_step(filesystems: Seq<ReclaimFilesystem>, usages: Seq<Seq<char>>, i: int)
    requires
        0 <= i < filesystems.len(),
        usages.len() == filesystems.len(),
    ensures
        filesystems_text(filesystems.take(i + 1), usages.take(i + 1)) == filesystems_text(
            filesystems.take(i),
            usages.take(i),
        ) + filesystem_text(filesystems[i], usages[i]),
{
    let f = filesystems.take(i + 1);
    let u = usages.take(i + 1);
    assert(f.drop_last() =~= filesystems.take(i));
    assert(u.take(f.len() - 1) =~= usages.take(i));
}

/// The report up to the remaining-pressure section: the summary, each
/// filesystem with its usage `usages[i]`, and the unassigned actions.
pub fn format_report_body(
    totals: &ReclaimTotals,
    filesystems: &Vec<ReclaimFilesystem>,
    usages: &Vec<String>,
    unassigned: &Vec<ReclaimTarget>,
) -> (r: String)
    requires
        usages@.len() == filesystems@.len(),
    ensures
        r@ == report_body_text(*totals, filesystems@, views(usages@), unassigned@),
{
    let mut r = format_summary(totals);
    let ghost head = r@;
    let ghost uv = views(usages@);
    let mut i: usize = 0;
    assert(filesystems@.take(0) =~= Seq::<ReclaimFilesystem>::empty());
    while i < filesystems.len()
        invariant
            i <= filesystems@.len(),
            usages@.len() == filesystems@.len(),
            uv == views(usages@),
            r@ == head + filesystems_text(filesystems@.take(i as int), uv.take(i as int)),
        decreases filesystems.len() - i,
    {
        let block = format_filesystem(&filesystems[i], usages[i].as_str());
        push_str(&mut r, block.as_str());
        proof {
            lemma_filesystems_step(filesystems@, uv, i as int);
            assert(uv[i as int] == usages@[i as int]@);
        }
        i = i + 1;
        assert(r@ =~= head + filesystems_text(filesystems@.take(i as int), uv.take(i as int)));
    }
    assert(filesystems@.take(filesystems@.len() as int) =~= filesystems@);
    assert(uv.take(filesystems@.len() as int) =~= uv);
    let tail = format_unassigned(unassigned);
    push_str(&mut r, tail.as_str());
    assert(r@ =~= report_body_text(*totals, filesystems@, views(usages@), unassigned@));
    r
}

} // verus!
