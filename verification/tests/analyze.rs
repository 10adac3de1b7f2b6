use doty::analyze::{
    absorb, bound_issues, budget_step, classify, inventory_step, kind_of, matching_entries, review_queue,
    root_budget_step, visit_step, Entry, IssueLog, Meta, Options, ScanTotals, SortMode,
};
use doty::analyze::{meta_age_days, opened_step, root_listing_error, skip_unnamed};
use doty::scan_report::{scan_report_text, summarize, SCAN_CAVEAT};

fn entry(name: &str, bytes: u64, newest: Option<u64>, complete: bool, skipped: Option<&str>) -> Entry {
    let mut e = Entry::stub(format!("/tmp/root/{name}"), name.to_string());
    e.logical_bytes = bytes;
    e.newest_age_days = newest;
    e.oldest_age_days = newest;
    e.complete = complete;
    e.skipped_reason = skipped.map(|s| s.to_string());
    e
}

fn file(len: u64, age: Option<u64>) -> Meta {
    Meta { is_file: true, is_dir: false, is_symlink: false, dev: 7, age_days: age, len }
}

fn dir(age: Option<u64>) -> Meta {
    Meta { is_file: false, is_dir: true, is_symlink: false, dev: 7, age_days: age, len: 4096 }
}

fn link() -> Meta {
    Meta { is_file: false, is_dir: false, is_symlink: true, dev: 7, age_days: Some(1), len: 0 }
}

fn count(log: &IssueLog, key: &str) -> usize {
    log.counts.iter().find(|(k, _)| k == key).map(|(_, n)| *n).unwrap_or(0)
}

#[test]
fn stub_starts_unknown_and_complete() {
    let e = Entry::stub("/r/a".to_string(), "a".to_string());
    assert_eq!(e.entry_kind, "unknown");
    assert!(e.complete);
    assert_eq!(e.logical_bytes, 0);
    assert_eq!(e.skipped_reason, None);
    assert_eq!(SortMode::Oldest.label(), "oldest");
    assert_eq!(kind_of(&link()), "symlink");
}

#[test]
fn subtree_walk_sums_files_and_ages() {
    let mut log = IssueLog::new();
    let mut e = Entry::stub("/r/tree".to_string(), "tree".to_string());
    assert!(visit_step(&mut e, &mut log, "\"/r/tree\"", 1, 64, 7, Ok(dir(Some(11)))));
    assert!(!visit_step(&mut e, &mut log, "\"/r/tree/a\"", 2, 64, 7, Ok(file(12345, Some(14)))));
    assert!(!visit_step(&mut e, &mut log, "\"/r/tree/b\"", 2, 64, 7, Ok(file(5, Some(3)))));
    assert_eq!(e.entry_kind, "directory");
    assert_eq!(e.logical_bytes, 12350);
    assert_eq!(e.observed_entries, 3);
    assert_eq!(e.direct_age_days, Some(11));
    assert_eq!(e.oldest_age_days, Some(14));
    assert_eq!(e.newest_age_days, Some(3));
    assert!(e.complete);
    assert!(log.issues.is_empty());
}

#[test]
fn symlinks_are_skipped_not_followed() {
    let mut log = IssueLog::new();
    let mut top = Entry::stub("/r/link".to_string(), "link".to_string());
    assert!(!visit_step(&mut top, &mut log, "\"/r/link\"", 1, 64, 7, Ok(link())));
    assert_eq!(top.entry_kind, "symlink");
    assert!(top.complete);
    assert_eq!(top.skipped_reason.as_deref(), Some("skipped symlink or special file (not followed)"));

    let mut tree = Entry::stub("/r/tree".to_string(), "tree".to_string());
    visit_step(&mut tree, &mut log, "\"/r/tree\"", 1, 64, 7, Ok(dir(Some(1))));
    assert!(!visit_step(&mut tree, &mut log, "\"/r/tree/cycle\"", 2, 64, 7, Ok(link())));
    assert_eq!(tree.nested_skipped, 1);
    assert_eq!(tree.skipped_reason, None);
    assert!(tree.complete);
    assert_eq!(count(&log, "skipped entry"), 2);
    assert_eq!(log.issues[1], "\"/r/tree/cycle\": skipped symlink or special file (not followed)");
}

#[test]
fn other_device_and_metadata_errors() {
    let mut log = IssueLog::new();
    let mut e = Entry::stub("/r/mnt".to_string(), "mnt".to_string());
    let mut other = dir(Some(2));
    other.dev = 9;
    assert!(!visit_step(&mut e, &mut log, "m", 1, 64, 7, Ok(other)));
    assert_eq!(e.skipped_reason.as_deref(), Some("skipped filesystem boundary (other device)"));
    assert_eq!(count(&log, "filesystem boundary"), 1);

    let mut g = Entry::stub("/r/gone".to_string(), "gone".to_string());
    assert!(!visit_step(&mut g, &mut log, "g", 1, 64, 7, Err("No such file".to_string())));
    assert!(!g.complete);
    assert_eq!(g.entry_kind, "unknown");
    assert_eq!(count(&log, "metadata error"), 1);
    assert_eq!(log.issues.last().unwrap(), "g: No such file");
}

#[test]
fn depth_limit_marks_incomplete() {
    let mut log = IssueLog::new();
    let mut e = Entry::stub("/r/tree".to_string(), "tree".to_string());
    visit_step(&mut e, &mut log, "t", 1, 1, 7, Ok(dir(Some(1))));
    assert!(!visit_step(&mut e, &mut log, "\"/r/tree/deep\"", 2, 1, 7, Ok(dir(Some(1)))));
    assert!(!e.complete);
    assert_eq!(count(&log, "depth limit"), 1);
    assert_eq!(log.issues, vec!["\"/r/tree/deep\": directory depth limit reached".to_string()]);
}

#[test]
fn inventory_lists_direct_metadata_only() {
    let mut log = IssueLog::new();
    let mut e = Entry::stub("/r/aaa-huge".to_string(), "aaa-huge".to_string());
    inventory_step(&mut e, &mut log, "x", 7, Ok(dir(Some(50))));
    assert_eq!(e.entry_kind, "directory");
    assert_eq!(e.observed_entries, 1);
    assert_eq!(e.direct_age_days, Some(50));
    assert_eq!(e.newest_age_days, Some(50));
    assert!(e.complete);
    let mut f = Entry::stub("/r/f".to_string(), "f".to_string());
    inventory_step(&mut f, &mut log, "f", 7, Ok(file(99, None)));
    assert_eq!(f.logical_bytes, 99);
    assert!(log.issues.is_empty());
}

#[test]
fn budgets_stop_enumeration() {
    let mut log = IssueLog::new();
    let mut e = Entry::stub("/r/t".to_string(), "t".to_string());
    let mut remaining = 1u32;
    assert!(budget_step(&mut e, &mut log, "t", &mut remaining));
    assert_eq!(remaining, 0);
    assert!(e.complete);
    assert!(!budget_step(&mut e, &mut log, "t", &mut remaining));
    assert!(!e.complete);
    assert_eq!(count(&log, "entry budget"), 1);

    let mut complete = true;
    assert!(!root_budget_step(&mut log, &mut complete, &mut remaining));
    assert!(!complete);
    assert_eq!(count(&log, "entry budget"), 2);
    assert_eq!(log.issues.last().unwrap(), "Entry budget reached; root enumeration may be incomplete");
}

#[test]
fn issue_counts_stay_sorted_and_complete() {
    let mut log = IssueLog::new();
    for n in 0..5 {
        log.record("skipped entry", format!("l{n}"));
    }
    log.record("depth limit", "d".to_string());
    log.record("skipped entry", "again".to_string());
    assert_eq!(log.counts, vec![("depth limit".to_string(), 1), ("skipped entry".to_string(), 6)]);
    let (kept, total, omitted) = bound_issues(log.issues, 2);
    assert_eq!(kept, vec!["l0".to_string(), "l1".to_string()]);
    assert_eq!((total, omitted), (7, 5));
    let (kept, total, omitted) = bound_issues(vec!["a".to_string()], 50);
    assert_eq!((kept.len(), total, omitted), (1, 1, 0));
}

#[test]
fn totals_and_classes() {
    let all = vec![
        entry("a", 10, Some(1), true, None),
        entry("b", 20, None, false, None),
        entry("c", 0, None, true, Some("skipped symlink or special file (not followed)")),
    ];
    assert_eq!(classify(&all), (2, 1, 1));
    let mut totals = ScanTotals { logical_bytes: 0, observed_entries: 0, complete: true };
    for e in &all {
        absorb(&mut totals, e);
    }
    assert_eq!(totals.logical_bytes, 30);
    assert!(!totals.complete);
}

#[test]
fn review_queue_orders_by_name_and_limits() {
    let all = vec![
        entry("zeta", 1, None, true, None),
        entry("alpha", 1, Some(2), true, None),
        entry("beta", 1, None, false, Some("x")),
        entry("gamma", 1, Some(1), true, Some("skipped entry")),
    ];
    let (shown, total) = review_queue(&all, 2);
    assert_eq!(total, 3);
    let rows: Vec<(&str, &str)> = shown.iter().map(|r| (r.name.as_str(), r.reason.as_str())).collect();
    assert_eq!(
        rows,
        vec![
            ("beta", "incomplete scan; x"),
            ("gamma", "skipped (skipped entry); contents and activity unknown"),
        ]
    );
    let (all_shown, _) = review_queue(&all, 10);
    assert_eq!(all_shown[2].reason, "unknown modification age");
    assert_eq!(all_shown[2].path, "/tmp/root/zeta");
}

#[test]
fn matching_filters_by_age_and_ranks() {
    let all = vec![
        entry("small", 10, Some(100), true, None),
        entry("big", 500, Some(61), true, None),
        entry("new", 900, Some(1), true, None),
        entry("link", 0, None, true, None),
    ];
    let (shown, matched) = matching_entries(all, Some(60), SortMode::Size, 50);
    assert_eq!(matched, 2);
    let names: Vec<&str> = shown.iter().map(|e| e.name.as_str()).collect();
    assert_eq!(names, vec!["big", "small"]);

    let all = vec![
        entry("link", 0, None, true, None),
        entry("mid", 1, Some(30), true, None),
        entry("old", 1, Some(90), true, None),
        entry("a-unknown", 0, None, true, None),
    ];
    let (shown, matched) = matching_entries(all, None, SortMode::Oldest, 3);
    assert_eq!(matched, 4);
    let names: Vec<&str> = shown.iter().map(|e| e.name.as_str()).collect();
    assert_eq!(names, vec!["old", "mid", "a-unknown"]);
}

fn options(older_than_days: Option<u32>, limit: u32, sort: SortMode) -> Options {
    Options {
        path: "/tmp/root".to_string(),
        json: false,
        older_than_days,
        limit,
        max_entries: 100,
        max_depth: 8,
        inventory: false,
        sort,
        max_issues: 1,
    }
}

fn walk_result() -> (Vec<Entry>, IssueLog) {
    let all = vec![
        entry("a", 5, Some(20), true, None),
        entry("b", 4, Some(30), true, None),
        entry("c", 2, None, false, None),
    ];
    let mut log = IssueLog::new();
    log.record("metadata error", "x".to_string());
    log.record("metadata error", "y".to_string());
    (all, log)
}

#[test]
fn report_extent_ignores_filter_limit_and_sort() {
    let totals = ScanTotals { logical_bytes: 11, observed_entries: 9, complete: false };
    let (all, log) = walk_result();
    let r1 = summarize(&options(None, 50, SortMode::Size), "t".to_string(), totals, 4, 1, all, log);
    let (all, log) = walk_result();
    let r2 = summarize(&options(Some(14), 1, SortMode::Oldest), "t".to_string(), totals, 4, 1, all, log);
    assert_eq!(r1.logical_bytes, 11);
    assert_eq!((r1.logical_bytes, r1.observed_entries, r1.discovered_entries), (r2.logical_bytes, r2.observed_entries, r2.discovered_entries));
    assert_eq!(r1.complete_entries + r1.incomplete_entries + 1, r1.discovered_entries);
    assert_eq!(r1.issues_by_reason.iter().map(|(_, n)| n).sum::<usize>(), r1.issues_total);
    assert_eq!(r1.issues_by_reason, r2.issues_by_reason);
    assert_eq!(r1.review_queue_total, r2.review_queue_total);
    assert_eq!((r1.complete_entries, r1.incomplete_entries, r1.skipped_entries), (2, 1, 1));
    assert_eq!(r1.matching_entries, 3);
    assert_eq!(r1.entries.len(), 3);
    assert_eq!(r2.matching_entries, 2);
    assert_eq!(r2.entries.len(), 1);
    assert_eq!(r1.issues_total, 2);
    assert_eq!((r1.issues.len(), r1.issues_omitted), (1, 1));
    assert_eq!(r1.issues_by_reason, vec![("metadata error".to_string(), 2)]);
}

#[test]
fn report_text_reads_as_printed() {
    let totals = ScanTotals { logical_bytes: 11, observed_entries: 9, complete: true };
    let (all, log) = walk_result();
    let r = summarize(&options(Some(25), 50, SortMode::Size), "t".to_string(), totals, 3, 0, all, log);
    let text = scan_report_text(&r);
    let expected = format!(
        "\"/tmp/root\" — subtree scan (schema 2), size order\n\
         11 logical bytes across 9 observed records (3 top-level discovered); complete: true\n\
         1 matching entries (1 shown, limit 50); 2 complete, 1 incomplete, 0 skipped\n\
         issues: 2 total, 1 shown (1 omitted)\n  2x metadata error\n\
         review queue: {} total, {} shown\n",
        r.review_queue_total,
        r.review_queue.len()
    );
    assert!(text.starts_with(&expected), "{text}");
    assert!(text.contains(&format!("{:>14} {:>10} {:>10} {:>8} Path (JSON escaped)\n", "Bytes", "NewestDays", "Complete", "Kind")));
    assert!(text.contains(&format!("{:>14} {:>10} {:>10} {:>8} \"/tmp/root/b\"\n", 4, 30, true, "unknown")));
    assert!(text.contains("Issue: \"x\"\n"));
    assert!(text.ends_with(&format!("{SCAN_CAVEAT}\n")));
}

#[test]
fn unreadable_root_names_mark_the_scan_incomplete() {
    let mut log = IssueLog::new();
    let mut complete = true;
    root_listing_error(&mut log, &mut complete, "boom".to_string());
    assert!(!complete);
    let mut totals = ScanTotals { logical_bytes: 3, observed_entries: 2, complete: true };
    skip_unnamed(&mut totals, &mut log, "\"/r/\\xFF\"");
    assert!(!totals.complete);
    assert_eq!((totals.logical_bytes, totals.observed_entries), (3, 2));
    assert_eq!(log.issues, vec!["boom".to_string(), "Skipped non-UTF-8 top-level path: \"/r/\\xFF\"".to_string()]);
    assert_eq!(count(&log, "enumeration error"), 1);
    assert_eq!(count(&log, "non-UTF-8 path"), 1);
}

#[test]
fn opened_directory_must_be_the_observed_one() {
    let mut log = IssueLog::new();
    let mut e = Entry::stub("/r/a".to_string(), "a".to_string());
    assert!(opened_step(&mut e, &mut log, "\"/r/a\"", Some((7, 42)), 7, 42));
    assert!(e.complete && log.issues.is_empty());
    assert!(!opened_step(&mut e, &mut log, "\"/r/a\"", Some((7, 43)), 7, 42));
    assert!(!e.complete);
    assert_eq!(count(&log, "changed during scan"), 1);
    let mut f = Entry::stub("/r/b".to_string(), "b".to_string());
    assert!(!opened_step(&mut f, &mut log, "\"/r/b\"", None, 7, 42));
    let day: i128 = 86_400_000_000_000;
    assert_eq!(meta_age_days(10 * day + 5, 3 * day), 7);
    assert_eq!(meta_age_days(3 * day, 10 * day), 0);
    assert_eq!(meta_age_days(day - 1, 0), 0);
}

#[test]
fn report_text_escapes_as_json() {
    let totals = ScanTotals { logical_bytes: 0, observed_entries: 0, complete: true };
    let mut log = IssueLog::new();
    log.record("open error", "say \"hi\"\\\n\u{1}\t\u{7f}é".to_string());
    let r = summarize(&options(None, 50, SortMode::Size), "t".to_string(), totals, 0, 0, Vec::new(), log);
    let text = scan_report_text(&r);
    let expected = format!("Issue: {}\n", serde_json::to_string("say \"hi\"\\\n\u{1}\t\u{7f}é").unwrap());
    assert!(text.contains(&expected), "{text}");
    assert!(text.contains("\\u0001\\t"), "{text}");
}
