use doty::targets::podman_images::{prune_dry_run_note, prune_notes, pruned_errors, report_notes, until_filter};
use doty::targets::chessbender_state::{
    backups_dry_run_note, backups_notes, cluster_vms_dry_run_note, cluster_vms_notes, home_images_dry_run_note,
    home_images_notes,
};
use doty::targets::user_state::{stale_cache_dry_run_note, trash_dir_notes, trash_dry_run_note, with_truncation};
use doty::targets::tmp_stale::{
    age_days, canix_preflight_patterns, dry_run, inspection as tmp_inspection, matches_any, nix_shell_patterns,
    qualifies, stale_cutoff, DAY_NANOS,
};
use doty::targets::chessbender_state::{home_image_vm_name, is_backup_image, sort_images, vm_paths, Image};
use doty::targets::system_state::{boot_notes, boot_would_remove, dns_notes, nh_clean_notes, snapshot_notes};
use doty::targets::user_state::{stale_cache_notes, stale_cache_path, temp_notes, trash_notes};
use doty::reclaim::sorted_unique;
use doty::targets::opencode_cache::{disabled_notes, logs_dry_run_note, snapshot_dry_run_note, tool_output_dry_run_note};
use doty::targets::report::would_free_note;
use doty::targets::steampipe_state::{is_stale_vm, is_vm_dir, read_pid, vm_dry_run_note, vm_report_notes};
use doty::targets::journald_vacuum::disk_usage_bytes;
use doty::targets::pink_raven_workers::{reset_count, reset_note, stuck_units};
use doty::targets::build_memory_logs::{jsonl_files, rotate_notes, rotate_would_remove, rotation_victims, LogFile};
use doty::targets::canix_rebuild_logs::{dry_run_note, is_stale_log, log_notes, oldest_age, prune_here};
use doty::tokens::{last_segment_of, line_count};
use doty::exec::{stale_action, StaleAction};
use doty::exec::{budget_left, count_entry, total_paths_size_bounded, DirScan};
use doty::targets::canix_preflight_cache::{cleanup_plan, CacheEntry, Settings as CacheSettings, DEFAULT_MAX_BYTES};
use doty::targets::cgroup_reset::{abandoned_scope_count, scope_notes, scope_units, stuck_process_count};
use doty::targets::failed_units::{failed_notes, list_failed_units, reset_dry_run_note, restart_dry_run_note};
use doty::targets::llama_models::{LlamaPolicy, GGUF_DIR};
use doty::targets::opencode_scratch::{
    consider, idle_to_days, lexical_refusal, resolve_entry, skipped_lines, sort_candidates, Candidate, EntryState,
    Settings as ScratchSettings, Skipped, Verdict, DEFAULT_ROOT,
};
use doty::targets::podman_images::{keep_since_hours, prune_image_count, DEFAULT_KEEP_SINCE_HOURS};
use doty::targets::report::{inspect_paths, paths_from_settings, report_only_apply};

fn cache(name: &str, bytes: u64, modified: i128) -> CacheEntry {
    CacheEntry { path: format!("/var/cache/canix/{name}"), name: name.to_string(), bytes, modified, age_days: 3 }
}

#[test]
fn cache_within_cap_removes_nothing() {
    assert_eq!(CacheSettings::defaults().max_bytes, DEFAULT_MAX_BYTES);
    let plan = cleanup_plan(vec![cache("a", 10, 1), cache("b", 20, 2)], 30);
    assert_eq!(plan.total_bytes, 30);
    assert!(plan.remove.is_empty());
    assert_eq!(plan.remove_bytes, 0);
    assert_eq!(plan.oldest_age_days, None);
    assert_eq!(plan.notes(30), "canix preflight cache total 30.0 B within cap 30.0 B");
}

#[test]
fn cache_over_cap_removes_oldest_first() {
    let plan = cleanup_plan(
        vec![cache("new", 1024, 300), cache("old", 1024, 100), cache("mid", 1024, 200), cache("tie", 512, 100)],
        2048,
    );
    assert_eq!(plan.total_bytes, 3584);
    let names: Vec<&str> = plan.remove.iter().map(|e| e.name.as_str()).collect();
    assert_eq!(names, vec!["old", "tie"]);
    assert_eq!(plan.remove_bytes, 1536);
    assert!(plan.total_bytes - plan.remove_bytes <= 2048);
    assert_eq!(plan.oldest_age_days, Some(3));
    assert_eq!(plan.notes(2048), "canix preflight cache total 3.5 KiB, cap 2.0 KiB; remove oldest: old, tie");
}

#[test]
fn failed_units_and_cgroup_counts() {
    let out = "nginx.service loaded failed failed Web\nrun-42.scope loaded failed failed x\n\n";
    assert_eq!(list_failed_units(out), vec!["nginx.service".to_string(), "run-42.scope".to_string()]);
    assert_eq!(abandoned_scope_count(out), 1);
    let ps = "  1 Ss systemd\n  77 D  kworker\n  88 T  stopped\n  99 R  running\n";
    assert_eq!(stuck_process_count(ps), 2);
}

#[test]
fn podman_settings_and_prune_output() {
    assert_eq!(keep_since_hours(&serde_json::Value::Null), DEFAULT_KEEP_SINCE_HOURS);
    let settings: serde_json::Value = serde_json::from_str(r#"{"keepSinceHours": 24}"#).unwrap();
    assert_eq!(keep_since_hours(&settings), 24);
    let wrapped: serde_json::Value = serde_json::from_str(r#"{"keepSinceHours": 4294967297}"#).unwrap();
    assert_eq!(keep_since_hours(&wrapped), 1);
    assert_eq!(prune_image_count("deleted: sha256:1\nuntagged: x\nTotal reclaimed\n"), 2);
}

#[test]
fn llama_policy_keeps_pinned_models() {
    let settings: serde_json::Value =
        serde_json::from_str(r#"{"modelsDir": "/models/", "pinnedFiles": ["keep.gguf", "/elsewhere/abs.gguf"]}"#)
            .unwrap();
    let policy = LlamaPolicy::from_settings(&settings);
    assert_eq!(policy.models_dir, "/models/");
    assert!(policy.pinned_files.contains(&"/models/keep.gguf".to_string()));
    assert!(policy.pinned_files.contains(&"/elsewhere/abs.gguf".to_string()));
    let listing = vec![
        "/models/keep.gguf".to_string(),
        "/models/drop.gguf".to_string(),
        "/models/readme.txt".to_string(),
    ];
    assert_eq!(LlamaPolicy::all_files(&listing), vec!["/models/keep.gguf".to_string(), "/models/drop.gguf".to_string()]);
    assert_eq!(policy.unpinned_files(&listing), vec!["/models/drop.gguf".to_string()]);
    let default = LlamaPolicy::from_settings(&serde_json::Value::Null);
    assert_eq!(default.models_dir, GGUF_DIR);
    assert!(default.pinned_files.is_empty());
}

fn state(exists: bool, is_symlink: bool, is_dir: bool, has_git: bool) -> EntryState {
    EntryState { exists, is_symlink, is_dir, is_file: exists && !is_dir && !is_symlink, has_git }
}

#[test]
fn scope_lock_rejects_escape_absolute_and_symlink() {
    let root = "/data/scratch/tmp/opencode";
    let plain = state(true, false, true, false);
    for (rel, want, st) in [
        ("../outside", "escapes the scratch root", plain),
        ("/tmp/absolute", "not a relative path", plain),
        ("", "not a relative path", plain),
        ("linked", "symlink (never followed)", state(true, true, false, false)),
        ("missing", "missing", state(false, false, false, false)),
    ] {
        let err = resolve_entry(root, rel, true, &st).unwrap_err();
        assert_eq!(err.reason, want, "{rel}");
    }
    assert_eq!(lexical_refusal("a/../../b"), Some("escapes the scratch root"));
    assert_eq!(lexical_refusal("a/b"), None);
    assert_eq!(resolve_entry(root, "amc-target", true, &plain).unwrap(), format!("{root}/amc-target"));
}

#[test]
fn git_checkouts_are_refused() {
    let err = resolve_entry("/r", "checkout", true, &state(true, false, true, true)).unwrap_err();
    assert_eq!(err.reason, "git checkout (worktree track only)");
    assert_eq!(err.path, "/r/checkout");
    let err = resolve_entry("/r", "notes.txt", true, &state(true, false, false, false)).unwrap_err();
    assert_eq!(err.reason, "not a directory");
}

#[test]
fn candidates_need_proof_and_idleness() {
    let mut seen: Vec<String> = Vec::new();
    assert!(matches!(consider(&mut seen, "/r/a", true, true, true, 120, 60), Verdict::Take));
    assert!(matches!(consider(&mut seen, "/r/a", true, true, true, 120, 60), Verdict::Duplicate));
    match consider(&mut seen, "/r/nested/target", true, true, false, 120, 60) {
        Verdict::Skip(s) => assert_eq!(s.reason, "no CACHEDIR.TAG or debug/.fingerprint proof"),
        other => panic!("{other:?}"),
    }
    match consider(&mut seen, "/r/notes.txt", false, true, false, 5, 60) {
        Verdict::Skip(s) => assert!(s.reason.contains("idle window")),
        other => panic!("{other:?}"),
    }
    assert!(matches!(consider(&mut seen, "/r/f", false, true, false, 0, 0), Verdict::Take));
    assert!(matches!(consider(&mut seen, "/r/x", true, false, false, 120, 60), Verdict::Take));
    assert!(matches!(consider(&mut seen, "/r/./x", true, false, false, 120, 60), Verdict::Duplicate));
    assert!(matches!(consider(&mut seen, "/r/x/", true, false, false, 120, 60), Verdict::Duplicate));
    assert_eq!(seen.len(), 5);
    assert_eq!(idle_to_days(2880), 2);
    let defaults = ScratchSettings::defaults();
    assert_eq!(defaults.root, DEFAULT_ROOT);
    assert!(defaults.dirs.is_empty() && defaults.files.is_empty());
    assert!(defaults.require_proof);
    assert_eq!(defaults.min_idle_minutes, 60);
}

#[test]
fn candidates_sort_by_path_and_skips_read_back() {
    let c = |p: &str| Candidate { path: p.to_string(), bytes: 1, age_days: 0, truncated: false };
    let sorted = sort_candidates(vec![c("/r/b"), c("/r/a/x"), c("/r/a")]);
    let paths: Vec<&str> = sorted.iter().map(|c| c.path.as_str()).collect();
    assert_eq!(paths, vec!["/r/a", "/r/a/x", "/r/b"]);
    let once = sort_candidates(vec![c("/r/x/"), c("/r/b"), c("/r/./x"), c("/r/x")]);
    let paths: Vec<&str> = once.iter().map(|c| c.path.as_str()).collect();
    assert_eq!(paths, vec!["/r/b", "/r/x/"]);
    let skipped = vec![Skipped { path: "missing".to_string(), reason: "missing".to_string() }];
    assert_eq!(skipped_lines(&skipped), vec!["skipped missing: missing".to_string()]);
}

#[test]
fn bounded_scans_add_up() {
    let mut scan = DirScan { bytes: 0, entries: 0, truncated: false };
    assert!(budget_left(&mut scan, 2));
    count_entry(&mut scan, false, 100);
    count_entry(&mut scan, true, 4096);
    assert!(!budget_left(&mut scan, 2));
    assert!(scan.truncated);
    assert_eq!(scan.entries, 2);
    let total = total_paths_size_bounded(&vec![
        Some(DirScan { bytes: 5, entries: 1, truncated: false }),
        None,
        Some(DirScan { bytes: u64::MAX, entries: 3, truncated: true }),
    ]);
    assert_eq!(total.bytes, u64::MAX);
    assert_eq!(total.entries, 4);
    assert!(total.truncated);
}

#[test]
fn report_paths_and_inspection() {
    let defaults = vec!["/var/lib/a".to_string()];
    assert_eq!(paths_from_settings(&serde_json::Value::Null, &defaults), defaults);
    let settings: serde_json::Value = serde_json::from_str(r#"{"paths": ["/x", 3, "/y"]}"#).unwrap();
    assert_eq!(paths_from_settings(&settings, &defaults), vec!["/x".to_string(), "/y".to_string()]);
    let rep = report_only_apply("btrfs-snapshots", "orphans-report");
    assert_eq!((rep.removed, rep.freed_bytes, rep.skipped), (0, 0, 0));
    assert!(rep.errors.is_empty());
    let paths = vec!["/x".to_string(), "/y".to_string()];
    let insp = inspect_paths(
        "f",
        "v",
        &paths,
        &vec![true, false],
        DirScan { bytes: 2048, entries: 7, truncated: false },
        "summary",
    );
    assert_eq!(insp.path, "/x");
    assert_eq!(insp.size_bytes, Some(2048));
    assert_eq!(insp.would_remove, 0);
}

#[test]
fn tmp_stale_names_and_ages() {
    let nix = nix_shell_patterns();
    let canix = canix_preflight_patterns();
    assert!(matches_any(&nix, "nix-shell.abc"));
    assert!(!matches_any(&nix, "nix-shellabc"));
    assert!(matches_any(&canix, "canix-preflight-42"));
    assert!(matches_any(&canix, "canix-cargo-check"));
    assert!(!matches_any(&canix, "canix-cargo-check2"));
    let now: i128 = 100 * DAY_NANOS;
    let cutoff = stale_cutoff(now, 1);
    assert_eq!(cutoff, 99 * DAY_NANOS);
    assert!(qualifies(&nix, "nix-shell.x", true, Some(98 * DAY_NANOS), cutoff));
    assert!(qualifies(&nix, "nix-shell.x", true, None, cutoff));
    assert!(!qualifies(&nix, "nix-shell.x", true, Some(99 * DAY_NANOS), cutoff));
    assert!(!qualifies(&nix, "nix-shell.x", false, Some(0), cutoff));
    assert_eq!(age_days(now, 98 * DAY_NANOS - 1), 2);
    assert_eq!(age_days(now, now + 5), 0);
    assert_eq!(age_days(i128::MAX, i128::MIN), u32::MAX);
    let c = |p: &str, bytes: u64, age: u32| Candidate { path: p.to_string(), bytes, age_days: age, truncated: false };
    let cands = vec![c("/tmp/nix-shell.a", 1024, 3), c("/tmp/nix-shell.b", 512, 9)];
    let insp = tmp_inspection("tmp-stale", "purge-nix-shell-dirs", &cands, "stale /tmp/nix-shell.* directories");
    assert_eq!(insp.path, "/tmp");
    assert_eq!(insp.size_bytes, Some(1536));
    assert_eq!(insp.age_oldest_days, Some(9));
    assert_eq!(insp.notes, "stale /tmp/nix-shell.* directories: 2 directories older than 1 day, 1.5 KiB");
    let rep = dry_run("tmp-stale", "purge-nix-shell-dirs", &cands);
    assert_eq!(rep.skipped, 2);
    assert_eq!(rep.errors, vec!["dry-run: would remove 2 stale /tmp directories (1.5 KiB)".to_string()]);
}

#[test]
fn vm_state_names() {
    assert!(is_vm_dir("vm-3") && is_vm_dir("fixture") && !is_vm_dir("fixtures") && !is_vm_dir("xvm-"));
    assert_eq!(read_pid(" 1234\n"), Some(1234));
    assert_eq!(read_pid("4294967296"), None);
    assert_eq!(read_pid("abc"), None);
    assert!(is_stale_vm(None, true) && is_stale_vm(Some(7), false) && !is_stale_vm(Some(7), true));
    assert_eq!(vm_report_notes(false, 2, 2048), "stale steampipe VM disk images: 2 dirs, 2.0 KiB");
    assert_eq!(vm_report_notes(true, 0, 0), "ALL steampipe VM disk images: 0 dirs, 0.0 B");
    assert_eq!(vm_dry_run_note(true, 3, 1024), "dry-run: would delete all 3 VM images (1.0 KiB)");
    assert_eq!(vm_dry_run_note(false, 1, 1), "dry-run: would delete 1 stale VM images (1.0 B)");
    let listing = vec![
        "/h/b/.local/state/chessbender-cluster/vm-2".to_string(),
        "/h/a/.local/state/chessbender-cluster/vm-1".to_string(),
        "/h/a/.local/state/chessbender-cluster/cluster.json".to_string(),
        "/h/b/.local/state/chessbender-cluster/vm-2".to_string(),
    ];
    assert_eq!(
        vm_paths(&listing),
        vec![
            "/h/a/.local/state/chessbender-cluster/vm-1".to_string(),
            "/h/b/.local/state/chessbender-cluster/vm-2".to_string()
        ]
    );
    assert!(is_backup_image("disk-backup-1.qcow2"));
    assert!(!is_backup_image("disk.qcow2"));
    assert_eq!(home_image_vm_name("vm-7-home.img").as_deref(), Some("vm-7"));
    assert_eq!(home_image_vm_name("db-home.img"), None);
    assert_eq!(home_image_vm_name("vm-7.img"), None);
}

#[test]
fn journal_and_pink_raven() {
    assert_eq!(disk_usage_bytes("Archived and active journals take up 1.5G in the file system."), Some(15));
    assert_eq!(disk_usage_bytes("no digits"), None);
    let failed = "pink-raven-ingest.service loaded failed\nnginx.service loaded failed\n";
    let units = stuck_units(failed);
    assert_eq!(units, vec!["pink-raven-ingest.service".to_string()]);
    assert_eq!(reset_note(true, &units), "sentinel: present, stuck units: pink-raven-ingest.service");
    assert_eq!(reset_note(false, &Vec::new()), "sentinel: absent, stuck units: none");
    assert_eq!(reset_count(true, &units), 2);
}

#[test]
fn log_rotation_and_staleness() {
    let listing = vec!["/l/a.jsonl".to_string(), "/l/b.json".to_string(), "/l/c.jsonl".to_string()];
    assert_eq!(jsonl_files(&listing), vec!["/l/a.jsonl".to_string(), "/l/c.jsonl".to_string()]);
    assert_eq!(rotate_would_remove(0), 1);
    assert_eq!(rotate_would_remove(4), 1);
    assert_eq!(rotate_would_remove(10), 7);
    assert_eq!(rotate_notes(2, 3 * 1024 * 1024 / 2), "2 episode files (1.5 total)");
    let f = |p: &str, m: Option<i128>| LogFile { path: p.to_string(), modified: m };
    let victims = rotation_victims(vec![f("a", Some(1)), f("b", None), f("c", Some(5)), f("d", Some(3)), f("e", Some(2))]);
    let names: Vec<&str> = victims.iter().map(|v| v.path.as_str()).collect();
    assert_eq!(names, vec!["a", "b"]);
    assert!(rotation_victims(vec![f("x", Some(1))]).is_empty());
    assert!(is_stale_log("switch.txt", Some(1), 2));
    assert!(is_stale_log("switch.txt", None, 2));
    assert!(!is_stale_log("switch.txt", Some(2), 2));
    assert!(!is_stale_log(".txt", Some(1), 2));
    assert!(!is_stale_log("switch.log", Some(1), 2));
    let day: i128 = 86_400_000_000_000;
    assert_eq!(oldest_age(10 * day, &vec![9 * day, 2 * day, 11 * day]), Some(8));
    assert_eq!(oldest_age(0, &Vec::new()), None);
    assert_eq!(log_notes(3, 14), "3 rebuild log files older than 14 days");
    assert_eq!(dry_run_note(0, 21), "dry-run: would remove 0 rebuild log files older than 21 days");
    assert!(prune_here(2, 2) && !prune_here(0, 0) && !prune_here(1, 2));
    assert_eq!(line_count(""), 0);
    assert_eq!(line_count("a\nb\n"), 2);
    assert_eq!(line_count("a\nb"), 2);
    assert_eq!(line_count("\n\n"), 2);
    assert_eq!(last_segment_of("/a/b/vm-1"), "vm-1");
    assert_eq!(last_segment_of("plain"), "plain");
}

#[test]
fn stale_pruning_never_follows_links() {
    assert_eq!(stale_action(true, false, false, Some(0), 10, 0, 2), StaleAction::Keep);
    assert_eq!(stale_action(false, false, false, Some(0), 10, 0, 2), StaleAction::Keep);
    assert_eq!(stale_action(false, true, false, Some(11), 10, 0, 2), StaleAction::Keep);
    assert_eq!(stale_action(false, true, false, None, 10, 0, 2), StaleAction::RemoveDir { descend: true });
    assert_eq!(stale_action(false, true, false, Some(1), 10, 2, 2), StaleAction::RemoveDir { descend: false });
    assert_eq!(stale_action(false, false, true, Some(1), 10, 5, 2), StaleAction::RemoveFile);
}

#[test]
fn unit_and_scope_notes() {
    let units = vec!["a.service".to_string(), "b.service".to_string()];
    assert_eq!(failed_notes(&units, false), "failed units: a.service, b.service");
    assert_eq!(failed_notes(&units, true), "would restart: a.service, b.service");
    assert_eq!(failed_notes(&Vec::new(), true), "no failed units");
    assert_eq!(reset_dry_run_note(&units), "dry-run: would reset 2 failed units: a.service, b.service");
    assert_eq!(restart_dry_run_note(3), "dry-run: would restart 3 failed units");
    assert_eq!(scope_notes(4, 0), "4 D/T-state processes, 0 abandoned scopes");
}

#[test]
fn system_state_notes() {
    assert_eq!(nh_clean_notes(true), "nh clean all -K 14d would prune old generations");
    assert_eq!(nh_clean_notes(false), "no active NixOS system found");
    assert_eq!(boot_would_remove(14), 4);
    assert_eq!(boot_would_remove(10), 0);
    assert_eq!(boot_would_remove(3), 0);
    assert_eq!(boot_notes(12), "12 boot entries (would keep ~10)");
    assert_eq!(snapshot_notes(0), "no snapshot subvolumes found");
    assert_eq!(snapshot_notes(2), "2 snapshot subvolumes (all orphans — no snapshot manager wired)");
    assert_eq!(dns_notes(0), "no cache");
    assert_eq!(dns_notes(7), "7 cached entries");
}

#[test]
fn user_state_notes() {
    assert_eq!(stale_cache_path(".cache/cabal", &Vec::new()), "/home/<users>/.cache/cabal");
    let dirs = vec!["/home/a/.cache/cabal".to_string(), "/home/b/.cache/cabal".to_string()];
    assert_eq!(stale_cache_path(".cache/cabal", &dirs), "/home/a/.cache/cabal, /home/b/.cache/cabal");
    assert_eq!(
        stale_cache_notes("Cabal cache", 2, false),
        "Cabal cache — 2 user dirs with stale entries >30d"
    );
    assert_eq!(
        stale_cache_notes("Cabal cache", 1, true),
        "Cabal cache — 1 user dirs with stale entries >30d (scan truncated)"
    );
    assert_eq!(trash_notes(5, 2), "5 items across 2 trash dirs");
    assert_eq!(temp_notes(3 * 1_048_576 + 524_288, "/tmp", false), "3.5 MiB in /tmp");
    assert_eq!(temp_notes(0, "/var/tmp", true), "0.0 MiB in /var/tmp (scan truncated)");
}

#[test]
fn names_come_out_sorted_once() {
    let v = vec!["b".to_string(), "a".to_string(), "b".to_string(), "c".to_string(), "a".to_string()];
    assert_eq!(sorted_unique(&v), vec!["a", "b", "c"]);
    assert!(sorted_unique(&Vec::new()).is_empty());
    let images = vec![
        Image { path: "/z.img".to_string(), bytes: 1 },
        Image { path: "/a.img".to_string(), bytes: 2 },
        Image { path: "/m.img".to_string(), bytes: 3 },
    ];
    let sorted: Vec<(String, u64)> = sort_images(images).into_iter().map(|i| (i.path, i.bytes)).collect();
    assert_eq!(
        sorted,
        vec![("/a.img".to_string(), 2), ("/m.img".to_string(), 3), ("/z.img".to_string(), 1)]
    );
}

#[test]
fn cache_notes() {
    let gib: u64 = 1 << 30;
    assert_eq!(
        doty::targets::llama_models::prune_notes(2, 3 * gib + gib / 2),
        "2 unpinned gguf files (3.5 GiB) — risky: deletes only files absent from pinnedFiles"
    );
    assert_eq!(doty::targets::llama_models::report_notes(5, 2, 10 * gib), "5 gguf files, 2 unpinned, 10.0 GiB total");
    assert_eq!(would_free_note(5 * 1_048_576), "dry-run: would free 5.0 MiB");
    assert_eq!(doty::targets::system_state::uv_prune_notes(9), "9 cache entries — removes files untouched >30 days");
    assert_eq!(doty::targets::system_state::dns_dry_run_note("/run/user/1000/canix-dns"), "dry-run: would remove /run/user/1000/canix-dns");
    assert_eq!(doty::targets::system_state::download_notes(4), "4 download directories — report only");
    assert_eq!(
        disabled_notes("opencode chat logs", 3),
        "opencode chat logs across 3 users — disabled by default"
    );
    assert_eq!(
        tool_output_dry_run_note(2, 1536),
        "dry-run: report-only — would delete 2 tool output dirs (1.5 KiB)"
    );
    assert_eq!(snapshot_dry_run_note(0, 0), "dry-run: report-only — would delete 0 snapshot files (0.0 B)");
    assert_eq!(logs_dry_run_note(2048), "dry-run: report-only — would delete opencode logs (2.0 KiB)");
    assert_eq!(
        doty::targets::canix_preflight_cache::dry_run_note(1, 1_048_576),
        "dry-run: would remove 1 canix preflight project caches (1.0 MiB)"
    );
}

#[test]
fn podman_and_service_notes() {
    let gib: u64 = 1 << 30;
    assert_eq!(report_notes(3, 2 * gib), "3 podman images (2.0 GiB)");
    assert_eq!(prune_notes(3, gib, 48), "3 images (1.0 GiB) — would prune those inactive >48h");
    assert_eq!(prune_dry_run_note(24), "dry-run: would prune podman images inactive >24h");
    assert_eq!(until_filter(168), "until=168h");
    assert!(pruned_errors(0).is_empty());
    assert_eq!(pruned_errors(2), vec!["pruned 2 images; freed bytes not measured"]);
    assert_eq!(
        doty::targets::journald_vacuum::usage_notes("Archived and active journals take up 1.0G."),
        "journal disk usage: Archived and active journals take up 1.0G."
    );
    assert_eq!(doty::targets::pink_raven_workers::ingest_notes("active\n"), "pink-raven-ingest.service: active\n");
}

#[test]
fn state_notes() {
    assert_eq!(stale_cache_dry_run_note(2, 3072), "dry-run: would prune stale entries >30d from 2 dirs (3.0 KiB)");
    assert_eq!(with_truncation("model directory", false), "model directory");
    assert_eq!(with_truncation("model directory", true), "model directory (scan truncated)");
    assert_eq!(trash_dir_notes(3), "3 trash dirs");
    assert_eq!(trash_dry_run_note(7, 2, 512), "dry-run: would empty 7 items from 2 trash dirs (512.0 B)");
    assert_eq!(backups_notes(2, 2048), "backup disk images across all cluster VMs: 2 files, 2.0 KiB");
    assert_eq!(backups_dry_run_note(2, 2048), "dry-run: would delete 2 backup images (2.0 KiB)");
    assert_eq!(
        home_images_notes(1, 1 << 20),
        "orphan top-level VM home images with matching vm dirs: 1 files, 1.0 MiB"
    );
    assert_eq!(home_images_dry_run_note(1, 1 << 20), "dry-run: would delete 1 orphan VM home images (1.0 MiB)");
    assert_eq!(cluster_vms_notes(4, 0), "all cluster VM directories: 4 dirs, 0.0 B");
    assert_eq!(cluster_vms_dry_run_note(4, 0), "dry-run: would delete 4 VM directories (0.0 B)");
}

#[test]
fn reset_stops_only_scopes() {
    let listing = "session-3.scope loaded failed failed Session 3\nfoo.service loaded failed failed Foo\n  run-1.scope x\n";
    assert_eq!(scope_units(listing), vec!["session-3.scope", "run-1.scope"]);
    assert!(scope_units("").is_empty());
}

#[test]
fn paths_sort_by_components_and_long_ages_are_accepted() {
    let sorted = doty::paths::sort_paths(vec!["/a-b/x".to_string(), "/a/b".to_string(), "/a".to_string()]);
    assert_eq!(sorted, vec!["/a", "/a/b", "/a-b/x"]);
    let day: i128 = 86_400_000_000_000;
    assert_eq!(stale_cutoff(0, 5_000_000), -5_000_000 * day);
    assert_eq!(stale_cutoff(0, u64::from(u32::MAX)), -i128::from(u32::MAX) * day);
}
