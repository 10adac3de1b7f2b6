//! The report of `analyze opencode`: what a finished metadata walk adds up
//! to, and the text printed for a person. The walk itself (the held
//! directory handles) is the caller's; it hands over the per-entry records,
//! the scan-wide sums and the issue log.
use vstd::prelude::*;
use crate::analyze::{
    Entry, IssueLog, Options, ReviewItem, ScanTotals, SortMode, aged_out, bound_issues, class_counts, classify,
    matching_entries, ranked_shown, review_queue, review_rows, review_shown, review_view, log_wf, counts_total,
    one_if, ranked_with, by_name_with,
};
use crate::reclaim::total;
use crate::text::{copy_str, push_str, decimal, decimal_string};
use crate::tokens::views;

verus! {

broadcast use vstd::string::group_string_axioms;

/// What every report says of itself.
pub const SCAN_CAVEAT: &'static str = "Live metadata scan, not a snapshot or deletion authorization. Logical file bytes are not reclaimable disk space; hardlinks count per pathname. Symlinks, other devices and special files are skipped. Partial scans are lower bounds; bounded traversal order is filesystem-dependent. Modification age does not prove inactivity.";

/// A lower-case hexadecimal digit.
pub open spec fn hex_digit(n: int) -> char {
    if n < 10 {
        (('0' as int) + n) as char
    } else {
        (('a' as int) + n - 10) as char
    }
}

/// How serde_json writes one character inside a string literal: `"` and
/// `\` behind a backslash, the five short control escapes (`\b`, `\t`,
/// `\n`, `\f`, `\r`), every other character below U+0020 as `\u00xx` in
/// lower-case hex, and everything else as it is.
pub open spec fn json_escaped_char(c: char) -> Seq<char> {
    if c == '"' {
        seq!['\\', '"']
    } else if c == '\\' {
        seq!['\\', '\\']
    } else if c == '\u{8}' {
        seq!['\\', 'b']
    } else if c == '\t' {
        seq!['\\', 't']
    } else if c == '\n' {
        seq!['\\', 'n']
    } else if c == '\u{c}' {
        seq!['\\', 'f']
    } else if c == '\r' {
        seq!['\\', 'r']
    } else if (c as int) < 0x20 {
        seq!['\\', 'u', '0', '0', hex_digit((c as int) / 16), hex_digit((c as int) % 16)]
    } else {
        seq![c]
    }
}

/// The characters of `s`, each as serde_json escapes it.
pub open spec fn json_escaped(s: Seq<char>) -> Seq<char>
    decreases s.len(),
{
    if s.len() == 0 {
        Seq::empty()
    } else {
        json_escaped(s.drop_last()) + json_escaped_char(s.last())
    }
}

/// What `serde_json::to_string` makes of a string: the escaped characters
/// between double quotes.
#[verifier::opaque]
pub open spec fn json_string(s: Seq<char>) -> Seq<char> {
    seq!['"'] + json_escaped(s) + seq!['"']
}

/// Calls `serde_json::to_string` on a string slice. Claimed: the text is
/// `json_string` of the characters, as serde_json's string serializer
/// writes it (its escape table and `write_char_escape`). Serializing a `str` has no error case
/// in serde_json (`Serializer::serialize_str` only writes the escaped
/// text), so the error arm is never taken.
#[verifier::external_body]
fn json_quoted(s: &str) -> (r: String)
    ensures
        r@ == json_string(s@),
{
    serde_json::to_string(s).unwrap_or_default()
}

/// The report of a scan.
#[derive(Debug)]
pub struct ScanReport {
    pub schema_version: u32,
    pub mode: String,
    pub root: String,
    pub scanned_at: String,
    pub max_entries: u32,
    pub max_depth: u32,
    pub older_than_days: Option<u32>,
    pub limit: u32,
    pub max_issues: u32,
    pub sort: String,
    pub logical_bytes: u64,
    pub observed_entries: u64,
    pub discovered_entries: usize,
    pub complete: bool,
    pub matching_entries: usize,
    pub complete_entries: usize,
    pub incomplete_entries: usize,
    pub skipped_entries: usize,
    pub entries: Vec<Entry>,
    pub review_queue_total: usize,
    pub review_queue: Vec<ReviewItem>,
    pub issues_total: usize,
    pub issues_omitted: usize,
    /// Each reason with its count, ascending by reason.
    pub issues_by_reason: Vec<(String, usize)>,
    pub issues: Vec<String>,
    pub caveat: String,
}

/// The name of a sort mode.
pub open spec fn sort_text(m: SortMode) -> Seq<char> {
    match m {
        SortMode::Size => "size"@,
        SortMode::Oldest => "oldest"@,
    }
}

/// The first `max` of `issues` (all of them when there are fewer).
pub open spec fn issues_shown(issues: Seq<String>, max: nat) -> Seq<String> {
    issues.take(if max < issues.len() {
        max as int
    } else {
        issues.len() as int
    })
}

/// `r` is the report of a walk that found `discovered` top-level names,
/// of which `unnamed` could not be named, produced the records `all`, the
/// sums `totals` and the issue log `log`, shown as `options` asks.
pub open spec fn summarized(
    r: ScanReport,
    options: Options,
    scanned_at: Seq<char>,
    totals: ScanTotals,
    discovered: nat,
    unnamed: nat,
    all: Seq<Entry>,
    log: IssueLog,
) -> bool {
    &&& r.schema_version == 2
    &&& r.mode@ == (if options.inventory {
        "inventory"@
    } else {
        "subtree"@
    })
    &&& r.root@ == options.path@
    &&& r.scanned_at@ == scanned_at
    &&& r.max_entries == options.max_entries
    &&& r.max_depth == options.max_depth
    &&& r.older_than_days == options.older_than_days
    &&& r.limit == options.limit
    &&& r.max_issues == options.max_issues
    &&& r.sort@ == sort_text(options.sort)
    &&& r.logical_bytes == totals.logical_bytes
    &&& r.observed_entries == totals.observed_entries
    &&& r.discovered_entries == discovered
    &&& r.complete == totals.complete
    &&& r.complete_entries == class_counts(all).0
    &&& r.incomplete_entries == class_counts(all).1
    &&& r.skipped_entries == class_counts(all).2 + unnamed
    &&& r.matching_entries == aged_out(all, options.older_than_days).len()
    &&& ranked_shown(aged_out(all, options.older_than_days), r.entries@, options.sort, options.limit as nat)
    &&& r.review_queue_total == review_rows(all).len()
    &&& review_shown(
        review_rows(all),
        r.review_queue@.map_values(|x: ReviewItem| review_view(x)),
        options.limit as nat,
    )
    &&& r.issues_total == log.issues@.len()
    &&& r.issues@ == issues_shown(log.issues@, options.max_issues as nat)
    &&& r.issues_omitted == r.issues_total - r.issues@.len()
    &&& r.issues_by_reason@ == log.counts@
    &&& r.caveat@ == SCAN_CAVEAT@
}

/// The smaller of `a` and `b`.
pub open spec fn at_most(a: nat, b: nat) -> nat {
    if a < b {
        a
    } else {
        b
    }
}

/// The counts a report gives of itself hold together: the per-reason
/// issue counts add up to the issue total, the issues shown are the first
/// `max_issues` and the rest are counted as omitted, the entries shown and
/// the review items shown are cut at the limit, and every discovered
/// top-level name is either a complete entry, an incomplete one, or one
/// that could not be named.
pub open spec fn counts_agree(r: ScanReport, unnamed: nat) -> bool {
    &&& counts_total(r.issues_by_reason@) == r.issues_total
    &&& r.issues@.len() == at_most(r.issues_total as nat, r.max_issues as nat)
    &&& r.issues_omitted == r.issues_total - r.issues@.len()
    &&& r.entries@.len() == at_most(r.matching_entries as nat, r.limit as nat)
    &&& r.review_queue@.len() == at_most(r.review_queue_total as nat, r.limit as nat)
    &&& r.complete_entries + r.incomplete_entries + unnamed == r.discovered_entries
}

proof fn lemma_classes_cover(all: Seq<Entry>)
    ensures
        class_counts(all).0 + class_counts(all).1 == all.len(),
    decreases all.len(),
{
    if all.len() > 0 {
        lemma_classes_cover(all.drop_last());
        let c = all.map_values(|e: Entry| one_if(e.complete));
        let ic = all.map_values(|e: Entry| one_if(!e.complete));
        assert(c.drop_last() =~= all.drop_last().map_values(|e: Entry| one_if(e.complete)));
        assert(ic.drop_last() =~= all.drop_last().map_values(|e: Entry| one_if(!e.complete)));
    }
}

/// The report of a finished walk. `unnamed` top-level names that could not
/// be named count as skipped entries.
pub fn summarize(
    options: &Options,
    scanned_at: String,
    totals: ScanTotals,
    discovered: usize,
    unnamed: usize,
    all: Vec<Entry>,
    log: IssueLog,
) -> (r: ScanReport)
    requires
        log_wf(log),
        all@.len() + unnamed == discovered,
    ensures
        summarized(r, *options, scanned_at@, totals, discovered as nat, unnamed as nat, all@, log),
        counts_agree(r, unnamed as nat),
{
    let ghost all0 = all@;
    let (complete_entries, incomplete_entries, skipped) = classify(&all);
    let (review, review_queue_total) = review_queue(&all, options.limit);
    let (shown, matching) = matching_entries(all, options.older_than_days, options.sort, options.limit);
    let ghost counts = log.counts@;
    let ghost issues0 = log.issues@;
    let IssueLog { issues, counts: by_reason } = log;
    let (kept, issues_total, issues_omitted) = bound_issues(issues, options.max_issues);
    let mode = if options.inventory {
        copy_str("inventory")
    } else {
        copy_str("subtree")
    };
    let r = ScanReport {
        schema_version: 2,
        mode,
        root: copy_str(options.path.as_str()),
        scanned_at,
        max_entries: options.max_entries,
        max_depth: options.max_depth,
        older_than_days: options.older_than_days,
        limit: options.limit,
        max_issues: options.max_issues,
        sort: copy_str(options.sort.label()),
        logical_bytes: totals.logical_bytes,
        observed_entries: totals.observed_entries,
        discovered_entries: discovered,
        complete: totals.complete,
        matching_entries: matching,
        complete_entries,
        incomplete_entries,
        skipped_entries: skipped + unnamed,
        entries: shown,
        review_queue_total,
        review_queue: review,
        issues_total,
        issues_omitted,
        issues_by_reason: by_reason,
        issues: kept,
        caveat: copy_str(SCAN_CAVEAT),
    };
    proof {
        lemma_classes_cover(all0);
        let kept = aged_out(all0, options.older_than_days);
        let (full, p) = choose|full: Seq<Entry>, p: Seq<int>|
            #[trigger] ranked_with(kept, full, p, options.sort) && r.entries@ == full.take(
                if (options.limit as nat) < full.len() {
                    options.limit as int
                } else {
                    full.len() as int
                },
            );
        let rows = review_rows(all0);
        let shown = r.review_queue@.map_values(|x: ReviewItem| review_view(x));
        let (rfull, rp) = choose|rfull: Seq<(Seq<char>, Seq<char>, Seq<char>)>, rp: Seq<int>|
            by_name_with(rows, rfull, rp) && shown == rfull.take(
                if (options.limit as nat) < rfull.len() {
                    options.limit as int
                } else {
                    rfull.len() as int
                },
            );
        assert(shown.len() == r.review_queue@.len());
    }
    r
}

/// What a scan reports of its extent (its sums, its entry classes, its
/// review queue and its issue counts) does not depend on how its entries
/// are shown: two reports of one walk agree there whatever the age filter,
/// limit, sort, or any other option.
pub proof fn lemma_extent_ignores_options(
    r1: ScanReport,
    r2: ScanReport,
    o1: Options,
    o2: Options,
    at1: Seq<char>,
    at2: Seq<char>,
    totals: ScanTotals,
    discovered: nat,
    unnamed: nat,
    all: Seq<Entry>,
    log: IssueLog,
)
    requires
        summarized(r1, o1, at1, totals, discovered, unnamed, all, log),
        summarized(r2, o2, at2, totals, discovered, unnamed, all, log),
    ensures
        r1.logical_bytes == r2.logical_bytes,
        r1.observed_entries == r2.observed_entries,
        r1.discovered_entries == r2.discovered_entries,
        r1.complete == r2.complete,
        r1.complete_entries == r2.complete_entries,
        r1.incomplete_entries == r2.incomplete_entries,
        r1.skipped_entries == r2.skipped_entries,
        r1.review_queue_total == r2.review_queue_total,
        r1.issues_total == r2.issues_total,
        r1.issues_by_reason@ == r2.issues_by_reason@,
{
}

// ---------------------------------------------------------------------------
// Text
// ---------------------------------------------------------------------------

/// `b` as Rust prints it.
pub open spec fn bool_text(b: bool) -> Seq<char> {
    if b {
        "true"@
    } else {
        "false"@
    }
}

/// `s` right-aligned in `width` characters (`{:>width}`).
pub open spec fn right_aligned(s: Seq<char>, width: nat) -> Seq<char> {
    if s.len() < width {
        Seq::new((width - s.len()) as nat, |i: int| ' ') + s
    } else {
        s
    }
}

fn push_right_aligned(out: &mut String, s: &str, width: usize)
    ensures
        final(out)@ == old(out)@ + right_aligned(s@, width as nat),
{
    let n = crate::text::chars_of(s).len();
    let mut k: usize = n;
    assert(out@ =~= old(out)@ + Seq::new((k - n) as nat, |i: int| ' '));
    while k < width
        invariant
            n == s@.len(),
            k >= n,
            n < width ==> k <= width,
            n >= width ==> k == n,
            out@ == old(out)@ + Seq::new((k - n) as nat, |i: int| ' '),
        decreases width - k,
    {
        crate::text::push_char(out, ' ');
        k = k + 1;
        assert(out@ =~= old(out)@ + Seq::new((k - n) as nat, |i: int| ' '));
    }
    if n >= width {
        assert(Seq::new((k - n) as nat, |i: int| ' ') =~= Seq::<char>::empty());
    }
    push_str(out, s);
    assert(out@ =~= old(out)@ + right_aligned(s@, width as nat));
}

/// The line of one issue reason and its count.
pub open spec fn reason_lines(counts: Seq<(String, usize)>) -> Seq<char>
    decreases counts.len(),
{
    if counts.len() == 0 {
        Seq::empty()
    } else {
        reason_lines(counts.drop_last()) + "  "@ + decimal(counts.last().1 as nat) + "x "@ + counts.last().0@
            + "\n"@
    }
}

/// The lines of the shown review items.
pub open spec fn review_lines(items: Seq<ReviewItem>) -> Seq<char>
    decreases items.len(),
{
    if items.len() == 0 {
        Seq::empty()
    } else {
        review_lines(items.drop_last()) + "  review: "@ + json_string(items.last().path@) + " ("@
            + items.last().reason@ + ")\n"@
    }
}

/// The newest age of an entry as shown: the days, or `unknown`.
pub open spec fn newest_text(e: Entry) -> Seq<char> {
    match e.newest_age_days {
        Some(d) => decimal(d as nat),
        None => "unknown"@,
    }
}

/// The table row of one shown entry.
pub open spec fn entry_row(e: Entry) -> Seq<char> {
    right_aligned(decimal(e.logical_bytes as nat), 14) + " "@ + right_aligned(newest_text(e), 10) + " "@
        + right_aligned(bool_text(e.complete), 10) + " "@ + right_aligned(e.entry_kind@, 8) + " "@
        + json_string(e.path@) + "\n"@
}

/// The rows of the shown entries.
pub open spec fn entry_rows(entries: Seq<Entry>) -> Seq<char>
    decreases entries.len(),
{
    if entries.len() == 0 {
        Seq::empty()
    } else {
        entry_rows(entries.drop_last()) + entry_row(entries.last())
    }
}

/// The lines of the shown issues.
pub open spec fn issue_lines(issues: Seq<String>) -> Seq<char>
    decreases issues.len(),
{
    if issues.len() == 0 {
        Seq::empty()
    } else {
        issue_lines(issues.drop_last()) + "Issue: "@ + json_string(issues.last()@) + "\n"@
    }
}

/// The head of the report: root, mode, sums, entry classes and issue
/// counts.
pub open spec fn report_head(r: ScanReport) -> Seq<char> {
    json_string(r.root@) + " — "@ + r.mode@ + " scan (schema "@ + decimal(r.schema_version as nat) + "), "@
        + r.sort@ + " order\n"@ + decimal(r.logical_bytes as nat) + " logical bytes across "@ + decimal(
        r.observed_entries as nat,
    ) + " observed records ("@ + decimal(r.discovered_entries as nat) + " top-level discovered); complete: "@
        + bool_text(r.complete) + "\n"@ + decimal(r.matching_entries as nat) + " matching entries ("@ + decimal(
        r.entries@.len(),
    ) + " shown, limit "@ + decimal(r.limit as nat) + "); "@ + decimal(r.complete_entries as nat)
        + " complete, "@ + decimal(r.incomplete_entries as nat) + " incomplete, "@ + decimal(
        r.skipped_entries as nat,
    ) + " skipped\n"@ + "issues: "@ + decimal(r.issues_total as nat) + " total, "@ + decimal(r.issues@.len())
        + " shown ("@ + decimal(r.issues_omitted as nat) + " omitted)\n"@
}

/// The header of the entry table.
pub open spec fn table_head() -> Seq<char> {
    right_aligned("Bytes"@, 14) + " "@ + right_aligned("NewestDays"@, 10) + " "@ + right_aligned("Complete"@, 10)
        + " "@ + right_aligned("Kind"@, 8) + " Path (JSON escaped)\n"@
}

/// The whole human-readable report.
pub open spec fn scan_report_text_spec(r: ScanReport) -> Seq<char> {
    report_head(r) + reason_lines(r.issues_by_reason@) + "review queue: "@ + decimal(r.review_queue_total as nat)
        + " total, "@ + decimal(r.review_queue@.len()) + " shown\n"@ + review_lines(r.review_queue@) + table_head()
        + entry_rows(r.entries@) + issue_lines(r.issues@) + r.caveat@ + "\n"@
}

fn head_text(r: &ScanReport) -> (s: String)
    ensures
        s@ == report_head(*r),
{
    let mut s = json_quoted(r.root.as_str());
    push_str(&mut s, " — ");
    push_str(&mut s, r.mode.as_str());
    push_str(&mut s, " scan (schema ");
    push_str(&mut s, decimal_string(r.schema_version as u64).as_str());
    push_str(&mut s, "), ");
    push_str(&mut s, r.sort.as_str());
    push_str(&mut s, " order\n");
    push_str(&mut s, decimal_string(r.logical_bytes).as_str());
    push_str(&mut s, " logical bytes across ");
    push_str(&mut s, decimal_string(r.observed_entries).as_str());
    push_str(&mut s, " observed records (");
    push_str(&mut s, decimal_string(r.discovered_entries as u64).as_str());
    push_str(&mut s, " top-level discovered); complete: ");
    push_str(&mut s, if r.complete { "true" } else { "false" });
    push_str(&mut s, "\n");
    push_str(&mut s, decimal_string(r.matching_entries as u64).as_str());
    push_str(&mut s, " matching entries (");
    push_str(&mut s, decimal_string(r.entries.len() as u64).as_str());
    push_str(&mut s, " shown, limit ");
    push_str(&mut s, decimal_string(r.limit as u64).as_str());
    push_str(&mut s, "); ");
    push_str(&mut s, decimal_string(r.complete_entries as u64).as_str());
    push_str(&mut s, " complete, ");
    push_str(&mut s, decimal_string(r.incomplete_entries as u64).as_str());
    push_str(&mut s, " incomplete, ");
    push_str(&mut s, decimal_string(r.skipped_entries as u64).as_str());
    push_str(&mut s, " skipped\n");
    push_str(&mut s, "issues: ");
    push_str(&mut s, decimal_string(r.issues_total as u64).as_str());
    push_str(&mut s, " total, ");
    push_str(&mut s, decimal_string(r.issues.len() as u64).as_str());
    push_str(&mut s, " shown (");
    push_str(&mut s, decimal_string(r.issues_omitted as u64).as_str());
    push_str(&mut s, " omitted)\n");
    assert(s@ =~= report_head(*r));
    s
}

fn push_reason_lines(out: &mut String, counts: &Vec<(String, usize)>)
    ensures
        final(out)@ == old(out)@ + reason_lines(counts@),
{
    let ghost start = out@;
    let mut i: usize = 0;
    while i < counts.len()
        invariant
            i <= counts@.len(),
            out@ == start + reason_lines(counts@.take(i as int)),
        decreases counts.len() - i,
    {
        push_str(out, "  ");
        push_str(out, decimal_string(counts[i].1 as u64).as_str());
        push_str(out, "x ");
        push_str(out, counts[i].0.as_str());
        push_str(out, "\n");
        proof {
            assert(counts@.take(i + 1).drop_last() =~= counts@.take(i as int));
        }
        i = i + 1;
        assert(out@ =~= start + reason_lines(counts@.take(i as int)));
    }
    assert(counts@.take(counts@.len() as int) =~= counts@);
}

fn push_review_lines(out: &mut String, items: &Vec<ReviewItem>)
    ensures
        final(out)@ == old(out)@ + review_lines(items@),
{
    let ghost start = out@;
    let mut i: usize = 0;
    while i < items.len()
        invariant
            i <= items@.len(),
            out@ == start + review_lines(items@.take(i as int)),
        decreases items.len() - i,
    {
        push_str(out, "  review: ");
        push_str(out, json_quoted(items[i].path.as_str()).as_str());
        push_str(out, " (");
        push_str(out, items[i].reason.as_str());
        push_str(out, ")\n");
        proof {
            assert(items@.take(i + 1).drop_last() =~= items@.take(i as int));
        }
        i = i + 1;
        assert(out@ =~= start + review_lines(items@.take(i as int)));
    }
    assert(items@.take(items@.len() as int) =~= items@);
}

fn push_entry_row(out: &mut String, e: &Entry)
    ensures
        final(out)@ == old(out)@ + entry_row(*e),
{
    let ghost start = out@;
    push_right_aligned(out, decimal_string(e.logical_bytes).as_str(), 14);
    push_str(out, " ");
    let newest = match e.newest_age_days {
        Some(d) => decimal_string(d),
        None => copy_str("unknown"),
    };
    push_right_aligned(out, newest.as_str(), 10);
    push_str(out, " ");
    push_right_aligned(out, if e.complete { "true" } else { "false" }, 10);
    push_str(out, " ");
    push_right_aligned(out, e.entry_kind.as_str(), 8);
    push_str(out, " ");
    push_str(out, json_quoted(e.path.as_str()).as_str());
    push_str(out, "\n");
    assert(out@ =~= start + entry_row(*e));
}

fn push_entry_rows(out: &mut String, entries: &Vec<Entry>)
    ensures
        final(out)@ == old(out)@ + entry_rows(entries@),
{
    let ghost start = out@;
    let mut i: usize = 0;
    while i < entries.len()
        invariant
            i <= entries@.len(),
            out@ == start + entry_rows(entries@.take(i as int)),
        decreases entries.len() - i,
    {
        push_entry_row(out, &entries[i]);
        proof {
            assert(entries@.take(i + 1).drop_last() =~= entries@.take(i as int));
        }
        i = i + 1;
        assert(out@ =~= start + entry_rows(entries@.take(i as int)));
    }
    assert(entries@.take(entries@.len() as int) =~= entries@);
}

fn push_issue_lines(out: &mut String, issues: &Vec<String>)
    ensures
        final(out)@ == old(out)@ + issue_lines(issues@),
{
    let ghost start = out@;
    let mut i: usize = 0;
    while i < issues.len()
        invariant
            i <= issues@.len(),
            out@ == start + issue_lines(issues@.take(i as int)),
        decreases issues.len() - i,
    {
        push_str(out, "Issue: ");
        push_str(out, json_quoted(issues[i].as_str()).as_str());
        push_str(out, "\n");
        proof {
            assert(issues@.take(i + 1).drop_last() =~= issues@.take(i as int));
        }
        i = i + 1;
        assert(out@ =~= start + issue_lines(issues@.take(i as int)));
    }
    assert(issues@.take(issues@.len() as int) =~= issues@);
}

fn push_table_head(out: &mut String)
    ensures
        final(out)@ == old(out)@ + table_head(),
{
    let ghost start = out@;
    push_right_aligned(out, "Bytes", 14);
    push_str(out, " ");
    push_right_aligned(out, "NewestDays", 10);
    push_str(out, " ");
    push_right_aligned(out, "Complete", 10);
    push_str(out, " ");
    push_right_aligned(out, "Kind", 8);
    push_str(out, " Path (JSON escaped)\n");
    assert(out@ =~= start + table_head());
}

/// The report as printed for a person.
pub fn scan_report_text(r: &ScanReport) -> (s: String)
    ensures
        s@ == scan_report_text_spec(*r),
{
    let mut s = head_text(r);
    push_reason_lines(&mut s, &r.issues_by_reason);
    push_str(&mut s, "review queue: ");
    push_str(&mut s, decimal_string(r.review_queue_total as u64).as_str());
    push_str(&mut s, " total, ");
    push_str(&mut s, decimal_string(r.review_queue.len() as u64).as_str());
    push_str(&mut s, " shown\n");
    push_review_lines(&mut s, &r.review_queue);
    push_table_head(&mut s);
    push_entry_rows(&mut s, &r.entries);
    push_issue_lines(&mut s, &r.issues);
    push_str(&mut s, r.caveat.as_str());
    push_str(&mut s, "\n");
    assert(s@ =~= scan_report_text_spec(*r));
    s
}

} // verus!
