use doty::framework::Tier;
use doty::mount::MountInfo;
use doty::reclaim::{
    compute_totals, filesystem_groups, format_target_row, gate, path_is_on_mount, resolve_path_surface,
    sort_unassigned_targets, target_paths, tier_priority, truncate, ReclaimFilesystem, ReclaimTarget, ReclaimTotals,
    TargetScope,
};
use doty::reclaim_human::{format_filesystem, format_report_body, format_summary, format_unassigned};

fn mount(mount_point: &str, device: &str, total: u64, used: u64) -> MountInfo {
    MountInfo {
        mount_point: mount_point.to_string(),
        device: device.to_string(),
        fstype: "btrfs".to_string(),
        maj_min: String::new(),
        fsroot: None,
        total_bytes: total,
        used_bytes: used,
        available_bytes: total - used,
    }
}

fn target(framework: &str, variant: &str, tier: &str, bytes: u64, status: &str) -> ReclaimTarget {
    ReclaimTarget {
        framework: framework.to_string(),
        variant: variant.to_string(),
        tier: tier.to_string(),
        scope: TargetScope::Unassigned,
        paths: vec!["systemctl --failed".to_string()],
        surfaces: Vec::new(),
        estimated_freed_bytes: bytes,
        actual_freed_bytes: None,
        status: status.to_string(),
        skip_reason: None,
        notes: "system action".to_string(),
    }
}

#[test]
fn filesystem_groups_collapse_mount_aliases_by_backing_filesystem() {
    let mounts = vec![
        mount("/", "/dev/nvme0n1p2", 100, 90),
        mount("/.snapshots", "/dev/nvme0n1p2", 100, 90),
        mount("/home", "/dev/nvme0n1p2", 100, 90),
        mount("/nix", "/dev/nvme0n1p2", 100, 90),
        mount("/data/nvme0", "/dev/nvme0n1p4", 500, 450),
        mount("/data/nvme0/can/Projects", "/dev/nvme0n1p4", 500, 450),
    ];

    let groups = filesystem_groups(&mounts);

    assert_eq!(groups.len(), 2);
    assert_eq!(groups[0].mounts.len(), 4);
    assert_eq!(groups[1].mounts.len(), 2);
    assert!(groups[0].mounts.iter().any(|m| m.mount_point == "/home"));
    assert!(groups[1].mounts.iter().any(|m| m.mount_point == "/data/nvme0/can/Projects"));
}

#[test]
fn path_resolution_uses_most_specific_mount_and_separates_surfaces() {
    let mounts = vec![
        mount("/", "/dev/nvme0n1p2", 100, 90),
        mount("/home", "/dev/nvme0n1p2", 100, 90),
        mount("/data/nvme0", "/dev/nvme0n1p4", 500, 450),
    ];
    let groups = filesystem_groups(&mounts);

    let home = resolve_path_surface("/home/can/.cache/go-build", &groups).unwrap();
    let data = resolve_path_surface("/data/nvme0/can/Projects/doty", &groups).unwrap();

    assert_ne!(home.0, data.0);
    assert_eq!(home.1, "/home");
    assert_eq!(data.1, "/data/nvme0");
}

#[test]
fn groups_list_shortest_mount_point_first() {
    let mounts = vec![
        mount("/nix", "/dev/a", 100, 90),
        mount("/", "/dev/a", 100, 90),
        mount("/.snapshots", "/dev/a", 100, 90),
        mount("/home", "/dev/a", 100, 90),
    ];
    let groups = filesystem_groups(&mounts);
    let points: Vec<&str> = groups[0].mounts.iter().map(|m| m.mount_point.as_str()).collect();
    assert_eq!(points, vec!["/", "/nix", "/home", "/.snapshots"]);
    assert_eq!(groups[0].representative.mount_point, "/");
    assert_eq!(groups[0].key, "/dev/a\u{1f}\u{1f}btrfs");
}

#[test]
fn mount_prefix_needs_a_separator() {
    assert!(path_is_on_mount("/home/x", "/home"));
    assert!(path_is_on_mount("/home", "/home"));
    assert!(!path_is_on_mount("/homework", "/home"));
    assert!(path_is_on_mount("/anything", "/"));
    assert!(!path_is_on_mount("relative", "/"));
}

#[test]
fn unresolvable_paths_have_no_surface() {
    let groups = filesystem_groups(&vec![mount("/data", "/dev/b", 10, 1)]);
    assert!(resolve_path_surface("/home/x", &groups).is_none());
    assert!(resolve_path_surface("/data/x", &groups).is_some());
}

#[test]
fn target_paths_keep_real_absolute_paths() {
    let paths = target_paths(" /home/a/.cache , <users>/x, relative, /tmp/<pid>, /var/lib/x");
    assert_eq!(paths, vec!["/home/a/.cache".to_string(), "/var/lib/x".to_string()]);
}

#[test]
fn gate_holds_back_unsafe_tiers_without_force() {
    assert_eq!(gate(Tier::Safe, false), ("pending".to_string(), None));
    assert_eq!(gate(Tier::Confirm, false), ("skipped".to_string(), Some("confirm tier requires --force".to_string())));
    assert_eq!(gate(Tier::Risky, false), ("skipped".to_string(), Some("risky tier requires --force".to_string())));
    assert_eq!(gate(Tier::ReportOnly, false), ("skipped".to_string(), Some("report-only target".to_string())));
    assert_eq!(gate(Tier::Risky, true), ("pending".to_string(), None));
}

#[test]
fn tier_ranks_follow_safety() {
    assert_eq!(tier_priority("safe"), 0);
    assert_eq!(tier_priority("confirm"), 1);
    assert_eq!(tier_priority("risky"), 2);
    assert_eq!(tier_priority("report-only"), 3);
    assert_eq!(tier_priority("other"), 4);
}

#[test]
fn unassigned_targets_sort_by_tier_then_size_then_name() {
    let ts = vec![
        target("b", "x", "confirm", 10, "pending"),
        target("a", "y", "safe", 5, "pending"),
        target("a", "x", "safe", 5, "pending"),
        target("c", "z", "safe", 50, "pending"),
    ];
    let sorted = sort_unassigned_targets(ts);
    let names: Vec<String> = sorted.iter().map(|t| format!("{}/{}", t.framework, t.variant)).collect();
    assert_eq!(names, vec!["c/z", "a/x", "a/y", "b/x"]);
}

#[test]
fn totals_count_skipped_targets_separately() {
    let fs = ReclaimFilesystem {
        device: "/dev/a".to_string(),
        fstype: "btrfs".to_string(),
        maj_min: String::new(),
        fsroot: None,
        mounts: vec!["/".to_string()],
        total_bytes: 100,
        used_bytes: 90,
        available_bytes: 10,
        target_free_bytes: 3000,
        estimated_freed_bytes: 1024,
        actual_freed_bytes: None,
        final_available_bytes: None,
        goal_met: None,
        targets: vec![target("a", "x", "safe", 1024, "pending"), target("b", "y", "risky", 4096, "skipped")],
    };
    let unassigned = vec![target("c", "z", "safe", 100, "pending"), target("d", "w", "confirm", 7, "skipped")];
    let totals = compute_totals(&vec![fs], &unassigned).unwrap();
    assert_eq!(totals.filesystems_total, 1);
    assert_eq!(totals.targets_total, 4);
    assert_eq!(totals.skipped_targets, 2);
    assert_eq!(totals.total_estimated_freed_bytes, 1124);
    assert_eq!(totals.skipped_estimated_freed_bytes, 4103);
    assert_eq!(totals.total_target_free_bytes, 3000);
    assert_eq!(totals.total_goal_shortfall_bytes, 1976);
    assert_eq!(totals.total_actual_freed_bytes, None);
}

#[test]
fn totals_refuse_overflowing_sums() {
    let unassigned = vec![target("a", "x", "safe", u64::MAX, "skipped"), target("b", "y", "safe", 1, "skipped")];
    assert!(compute_totals(&Vec::new(), &unassigned).is_none());
}

#[test]
fn rows_pad_columns_and_put_the_skip_reason_first() {
    let mut t = target("failed-units", "reset", "safe", 1024, "skipped");
    t.skip_reason = Some("risky tier requires --force".to_string());
    let row = format_target_row(&t);
    let expected = format!(
        "  {:<36} {:<11} {:<12} {:<10} {:<18} {}\n",
        "failed-units/reset",
        "safe",
        "1.0 KiB",
        "skipped",
        "unassigned",
        "risky tier requires --force; system action \u{2014} systemctl --failed"
    );
    assert_eq!(row, expected);
}

#[test]
fn truncate_counts_characters() {
    assert_eq!(truncate("abcdef", 3), "abc");
    assert_eq!(truncate("ab", 3), "ab");
    assert_eq!(truncate("\u{2014}\u{2014}\u{2014}\u{2014}", 2), "\u{2014}\u{2014}");
}

fn sample_target(framework: &str, variant: &str, surface: &str) -> ReclaimTarget {
    ReclaimTarget {
        framework: framework.to_string(),
        variant: variant.to_string(),
        tier: "safe".to_string(),
        scope: TargetScope::SingleSurface,
        paths: vec![format!("{surface}/cache")],
        surfaces: vec![surface.to_string()],
        estimated_freed_bytes: 1024,
        actual_freed_bytes: None,
        status: "pending".to_string(),
        skip_reason: None,
        notes: "test target".to_string(),
    }
}

fn totals(over: usize, targets: usize, estimated: u64, skipped_bytes: u64) -> ReclaimTotals {
    ReclaimTotals {
        filesystems_total: over,
        filesystems_over_threshold: over,
        targets_total: targets,
        skipped_targets: 0,
        total_estimated_freed_bytes: estimated,
        skipped_estimated_freed_bytes: skipped_bytes,
        total_target_free_bytes: 0,
        total_goal_shortfall_bytes: 0,
        total_actual_freed_bytes: None,
    }
}

fn root_filesystem(targets: Vec<ReclaimTarget>) -> ReclaimFilesystem {
    ReclaimFilesystem {
        device: "/dev/nvme0n1p2".to_string(),
        fstype: "btrfs".to_string(),
        maj_min: String::new(),
        fsroot: None,
        mounts: vec!["/".to_string(), "/home".to_string(), "/nix".to_string(), "/.snapshots".to_string()],
        total_bytes: 100,
        used_bytes: 90,
        available_bytes: 10,
        target_free_bytes: 0,
        estimated_freed_bytes: 1024,
        actual_freed_bytes: None,
        final_available_bytes: None,
        goal_met: None,
        targets,
    }
}

#[test]
fn human_format_lists_aliases_once_and_keeps_unassigned_separate() {
    let filesystems = vec![root_filesystem(vec![sample_target("user-cache", "purge-go-build", "/home")])];
    let unassigned = vec![target("failed-units", "reset", "safe", 1024, "pending")];
    let formatted = format_report_body(&totals(1, 2, 2048, 0), &filesystems, &vec!["90.0".to_string()], &unassigned);

    assert!(formatted.contains("Mounts: /, /home, /nix, /.snapshots"));
    assert_eq!(formatted.matches("user-cache/purge-go-build").count(), 1);
    assert!(formatted.contains("Global and unassigned actions"));
    assert!(formatted.contains("failed-units/reset"));
}

#[test]
fn report_blocks_read_as_written() {
    assert_eq!(
        format_summary(&totals(1, 2, 2048, 0)),
        "Reclaim summary\n  Filesystems: 1 over threshold  Targets: 2 total (0 skipped by tier policy)\n  \
         Estimated reclaim: 2.0 KiB  Goal: 0.0 B  Remaining shortfall: 0.0 B\n\n"
    );
    assert!(format_summary(&totals(1, 2, 2048, 4096))
        .ends_with("  Gated by tier policy: 4.0 KiB (use --force to include confirm/risky/report-only targets)\n\n"));
    let empty = format_filesystem(&root_filesystem(Vec::new()), "90.0");
    assert_eq!(
        empty,
        "Filesystem: /dev/nvme0n1p2 (btrfs) [90.0% full]\n  Mounts: /, /home, /nix, /.snapshots\n  \
         Size: 100.0 B  Used: 90.0 B  Available: 10.0 B  Target: 0.0 B  Est. reclaim: 1.0 KiB\n  \
         No filesystem-local targets found.\n\n"
    );
    let mut done = root_filesystem(vec![sample_target("a", "b", "/")]);
    done.actual_freed_bytes = Some(2048);
    done.goal_met = Some(true);
    done.final_available_bytes = Some(4096);
    let block = format_filesystem(&done, "90.0");
    assert!(block.contains(&format!("  {:<36} {:<11} {:<12} {:<10} {:<18} {}\n  {}\n", "Target", "Tier", "Est. Yield", "Status", "Surface", "Notes", "-".repeat(112))));
    assert!(block.ends_with("\n  Result: 2.0 KiB freed (goal: MET)\n  Final available: 4.0 KiB\n\n"));
    done.goal_met = None;
    assert!(format_filesystem(&done, "1.0").contains("(goal: NOT MET)"));
    assert_eq!(format_unassigned(&Vec::new()), "");
}
