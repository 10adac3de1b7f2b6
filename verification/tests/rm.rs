use doty::guard::{check_markers, check_step, guard_walk, marker_dirs, normalize_request, revalidate, EntryMeta, GuardError, GuardedPath, Markers};
use doty::rm::{
    apply_preflight, check_nonempty, check_plan_id, check_target, check_tree_node, describe_plan, mark_purged,
    mark_quarantined, mark_restored, plan_path, plan_removal, purge_preflight, purge_preview, quarantine_destination,
    quarantine_dir_of, restore_preflight, ApplyProbe, PlannedTarget, PurgeProbe, RestoreProbe, RmError, RmPlan,
};

const ROOT: &str = "/data/scratch/tmp/opencode";

fn guarded(path: &str, ino: u64, is_dir: bool) -> GuardedPath {
    GuardedPath { path: path.to_string(), dev: 1, ino, is_dir }
}

fn meta(ino: u64) -> EntryMeta {
    EntryMeta { dev: 1, ino, is_symlink: false, is_dir: false, is_file: true }
}

fn planned(path: &str, ino: u64) -> PlannedTarget {
    check_target(ROOT, &quarantine_dir_of(ROOT), guarded(path, ino, false)).unwrap()
}

fn plan_of(targets: Vec<PlannedTarget>) -> RmPlan {
    plan_removal(ROOT.to_string(), quarantine_dir_of(ROOT), targets, "p1".to_string(), "now".to_string()).unwrap().0
}

#[test]
fn refuses_parent_escape() {
    let root = tempfile::tempdir().unwrap();
    let root_text = root.path().to_str().unwrap();
    let err = normalize_request("../outside", root_text).unwrap_err();
    assert!(err.message().contains("`..`"), "{}", err.message());
    let err = normalize_request("/etc/passwd", root_text).unwrap_err();
    assert!(matches!(err, GuardError::NotUnderRoot(_)));
    let ok = normalize_request("sub/file.txt", root_text).unwrap();
    assert_eq!(ok, format!("{root_text}/sub/file.txt"));
}

#[test]
fn guard_steps_and_markers() {
    let link = EntryMeta { dev: 1, ino: 3, is_symlink: true, is_dir: false, is_file: false };
    let err = check_step("/r/sub", "/r/sub/file.txt", &link, 1).unwrap_err();
    assert!(err.message().contains("symlink"));
    let other = EntryMeta { dev: 2, ino: 3, is_symlink: false, is_dir: true, is_file: false };
    assert!(matches!(check_step("/r/m", "/r/m/x", &other, 1), Err(GuardError::MountBoundary(_))));
    let git = vec![Markers { protect: false, git: false }, Markers { protect: false, git: true }];
    let err = check_markers("/r/checkout/work.txt", &git).unwrap_err();
    assert!(err.message().contains("git repository"));
    let held = vec![Markers { protect: true, git: true }];
    let err = check_markers("/r/protected/data.txt", &held).unwrap_err();
    assert!(err.message().contains("protected"));
    assert!(check_markers("/r/x", &vec![Markers { protect: false, git: false }]).is_ok());
}

#[test]
fn revalidate_detects_replacement() {
    let before = guarded("/r/data.txt", 10, false);
    let err = revalidate(&before, guarded("/r/data.txt", 11, false)).unwrap_err();
    assert!(err.message().contains("identity changed"));
    assert!(revalidate(&before, guarded("/r/data.txt", 10, false)).is_ok());
}

#[test]
fn plan_rejects_root_and_quarantine() {
    let q = quarantine_dir_of(ROOT);
    assert_eq!(q, format!("{ROOT}/.doty-quarantine"));
    let err = check_target(ROOT, &q, guarded(ROOT, 1, true)).unwrap_err();
    assert!(err.message().contains("root itself"));
    let err = check_target(ROOT, &q, guarded(&format!("{q}/p1-0-note.txt"), 2, false)).unwrap_err();
    assert!(err.message().contains("quarantine"));
    assert!(matches!(check_nonempty(0), Err(RmError::NoTargets)));
}

#[test]
fn plan_rejects_duplicates_and_overlaps() {
    let a = format!("{ROOT}/note.txt");
    let err = plan_removal(
        ROOT.to_string(),
        quarantine_dir_of(ROOT),
        vec![planned(&a, 1), planned(&a, 1)],
        "p".to_string(),
        "t".to_string(),
    )
    .unwrap_err();
    assert!(err.message().contains("duplicate"), "{}", err.message());
    let err = plan_removal(
        ROOT.to_string(),
        quarantine_dir_of(ROOT),
        vec![planned(&format!("{ROOT}/sub"), 1), planned(&format!("{ROOT}/sub/inner.txt"), 2)],
        "p".to_string(),
        "t".to_string(),
    )
    .unwrap_err();
    assert!(err.message().contains("overlapping"), "{}", err.message());
}

#[test]
fn plan_records_targets_and_preview() {
    let (plan, preview) = plan_removal(
        ROOT.to_string(),
        quarantine_dir_of(ROOT),
        vec![planned(&format!("{ROOT}/a.txt"), 1), planned(&format!("{ROOT}/b.txt"), 2)],
        "p7".to_string(),
        "2024-01-01T00:00:00Z".to_string(),
    )
    .unwrap();
    assert_eq!(preview.id, "p7");
    assert_eq!(preview.targets, vec![format!("{ROOT}/a.txt"), format!("{ROOT}/b.txt")]);
    assert_eq!(plan.targets.len(), 2);
    assert!(plan.targets.iter().all(|t| t.quarantined_as.is_none() && !t.restored && !t.purged));
}

#[test]
fn plan_ids_and_journals() {
    assert!(check_plan_id("abc-123").is_ok());
    for bad in ["a/b", ".hidden", "nul\0"] {
        assert!(matches!(check_plan_id(bad), Err(RmError::InvalidPlanId(_))));
    }
    assert_eq!(plan_path("/var/lib/doty/plans", "p1"), "/var/lib/doty/plans/p1.json");
    assert_eq!(describe_plan("/var/lib/doty/plans", "p1").unwrap(), "/var/lib/doty/plans/p1.json");
    assert_eq!(purge_preview("/plans", "p2").unwrap(), "/plans/p2.json");
    assert_eq!(describe_plan("/plans", "../x").unwrap_err().message(), "invalid plan id: ../x");
}

#[test]
fn duplicate_basenames_quarantine_distinctly() {
    let plan = plan_of(vec![planned(&format!("{ROOT}/aaa/file.txt"), 1), planned(&format!("{ROOT}/bbb/file.txt"), 2)]);
    let d0 = quarantine_destination(&plan, 0, &plan.targets[0].path).unwrap();
    let d1 = quarantine_destination(&plan, 1, &plan.targets[1].path).unwrap();
    assert_ne!(d0, d1);
    assert_eq!(d0, format!("{ROOT}/.doty-quarantine/p1-0-file.txt"));
    assert_eq!(d1, format!("{ROOT}/.doty-quarantine/p1-1-file.txt"));
    assert!(matches!(quarantine_destination(&plan, 0, "/"), Err(RmError::CannotQuarantine(_))));
}

#[test]
fn apply_is_idempotent_and_resumable() {
    let mut plan = plan_of(vec![planned(&format!("{ROOT}/a.txt"), 1), planned(&format!("{ROOT}/b.txt"), 2)]);
    let probes = vec![
        ApplyProbe::Fresh(Ok(guarded(&format!("{ROOT}/a.txt"), 1, false))),
        ApplyProbe::Fresh(Ok(guarded(&format!("{ROOT}/b.txt"), 2, false))),
    ];
    assert_eq!(apply_preflight(&plan, &probes).unwrap(), vec![0, 1]);
    let dest = quarantine_destination(&plan, 0, &plan.targets[0].path).unwrap();
    mark_quarantined(&mut plan, 0, dest.clone());
    assert_eq!(plan.targets[0].quarantined_as.as_deref(), Some(dest.as_str()));
    // Resumed after an interruption: the first entry is skipped.
    let probes = vec![
        ApplyProbe::Stat(Some(meta(1))),
        ApplyProbe::Fresh(Ok(guarded(&format!("{ROOT}/b.txt"), 2, false))),
    ];
    assert_eq!(apply_preflight(&plan, &probes).unwrap(), vec![1]);
    // A replaced pending entry stops the whole apply.
    let probes = vec![
        ApplyProbe::Stat(Some(meta(1))),
        ApplyProbe::Fresh(Ok(guarded(&format!("{ROOT}/b.txt"), 9, false))),
    ];
    let err = apply_preflight(&plan, &probes).unwrap_err();
    assert!(err.message().contains("identity changed"), "{}", err.message());
    // A missing quarantined entry cannot resume.
    let probes = vec![ApplyProbe::Stat(None), ApplyProbe::Fresh(Ok(guarded(&format!("{ROOT}/b.txt"), 2, false)))];
    let err = apply_preflight(&plan, &probes).unwrap_err();
    assert!(err.message().contains("cannot resume"), "{}", err.message());
}

#[test]
fn restore_refuses_overwrite_and_roundtrips() {
    let mut plan = plan_of(vec![planned(&format!("{ROOT}/note.txt"), 1)]);
    let never = restore_preflight(&plan, &vec![RestoreProbe { dest: None, original_exists: false }]).unwrap_err();
    assert!(never.message().contains("never applied"), "{}", never.message());
    let dest = quarantine_destination(&plan, 0, &plan.targets[0].path).unwrap();
    mark_quarantined(&mut plan, 0, dest);
    let err = restore_preflight(&plan, &vec![RestoreProbe { dest: Some(meta(1)), original_exists: true }]).unwrap_err();
    assert!(err.message().contains("refusing overwrite"), "{}", err.message());
    let ok = restore_preflight(&plan, &vec![RestoreProbe { dest: Some(meta(1)), original_exists: false }]).unwrap();
    assert_eq!(ok, vec![0]);
    mark_restored(&mut plan, 0);
    assert!(plan.targets[0].restored);
    assert!(plan.targets[0].quarantined_as.is_none());
    // Restoring again changes nothing.
    let again = restore_preflight(&plan, &vec![RestoreProbe { dest: None, original_exists: true }]).unwrap();
    assert!(again.is_empty());
}

#[test]
fn purge_needs_quarantine_first() {
    let mut plan = plan_of(vec![planned(&format!("{ROOT}/note.txt"), 1)]);
    let err = purge_preflight(&plan, &vec![PurgeProbe { dest: None, tree: Ok(()) }]).unwrap_err();
    assert!(err.message().contains("not quarantined"), "{}", err.message());
    let dest = quarantine_destination(&plan, 0, &plan.targets[0].path).unwrap();
    mark_quarantined(&mut plan, 0, dest);
    let nested = check_tree_node("/q/p1-0-work/.git", false, Some(".git"), &meta(5), 1).unwrap_err();
    assert!(nested.message().contains("protected"), "{}", nested.message());
    let as_dir = EntryMeta { dev: 1, ino: 1, is_symlink: false, is_dir: true, is_file: false };
    let err = purge_preflight(&plan, &vec![PurgeProbe { dest: Some(as_dir), tree: Err(nested) }]).unwrap_err();
    assert!(err.message().contains("protected"));
    let ok = purge_preflight(&plan, &vec![PurgeProbe { dest: Some(meta(1)), tree: Ok(()) }]).unwrap();
    assert_eq!(ok, vec![0]);
    mark_purged(&mut plan, 0);
    assert!(plan.targets[0].purged);
    let again = purge_preflight(&plan, &vec![PurgeProbe { dest: None, tree: Ok(()) }]).unwrap();
    assert!(again.is_empty());
}

#[test]
fn guard_walk_lists_the_directories_down_to_the_target() {
    let (candidate, steps) = guard_walk("a/b/c.txt", "/scratch").unwrap();
    assert_eq!(candidate, "/scratch/a/b/c.txt");
    assert_eq!(steps, vec!["/scratch/a", "/scratch/a/b", "/scratch/a/b/c.txt"]);
    assert!(matches!(guard_walk("../x", "/scratch"), Err(GuardError::ParentEscape(_))));
    assert!(matches!(guard_walk("/etc/passwd", "/scratch"), Err(GuardError::NotUnderRoot(_))));
}

#[test]
fn markers_are_probed_nearest_first() {
    let (_, steps) = guard_walk("a/b", "/scratch").unwrap();
    assert_eq!(marker_dirs(&steps, "/scratch"), vec!["/scratch/a/b", "/scratch/a", "/scratch"]);
    assert_eq!(marker_dirs(&Vec::new(), "/scratch"), vec!["/scratch"]);
}
