use doty::mount::{
    clean_source, df, flatten_findmnt, mount_for_path, normalize_mount, read_mounts, should_exclude_fstype,
    FindmntEntry, MountError, MountIdentity, MountInfo,
};

fn entry(target: &str, source: &str, fstype: &str, children: Vec<FindmntEntry>) -> FindmntEntry {
    FindmntEntry {
        target: target.to_string(),
        source: source.to_string(),
        fstype: fstype.to_string(),
        maj_min: "0:1".to_string(),
        fsroot: Some("/".to_string()),
        children,
    }
}

fn identity(device: &str, fstype: &str) -> MountIdentity {
    MountIdentity {
        device: device.to_string(),
        fstype: fstype.to_string(),
        maj_min: "0:42".to_string(),
        fsroot: Some("/@home".to_string()),
    }
}

const DF: &str = "Filesystem 1B-blocks Used Avail Type Mounted
/dev/nvme0n1p2 /nix 1000 600 400 btrfs
/dev/nvme0n1p2 / 1000 600 400 btrfs
tmpfs /run 50 1 49 tmpfs
/dev/nvme0n1p2 /home/ 1000 600 400 btrfs
broken line
/dev/sdb1 /empty 0 0 0 ext4
/dev/sdc1 /odd x 5 y vfat

";

#[test]
fn clean_source_drops_subvolume_suffix() {
    assert_eq!(clean_source("/dev/nvme0n1p2[/@home]"), "/dev/nvme0n1p2");
    assert_eq!(clean_source("/dev/sda1"), "/dev/sda1");
    assert_eq!(clean_source("[x]"), "");
}

#[test]
fn excluded_filesystem_types() {
    for t in ["tmpfs", "devtmpfs", "devfs", "overlay"] {
        assert!(should_exclude_fstype(t));
    }
    assert!(!should_exclude_fstype("btrfs"));
    assert!(!should_exclude_fstype("tmpfs2"));
}

#[test]
fn normalize_mount_strips_trailing_slashes() {
    assert_eq!(normalize_mount("/home/"), "/home");
    assert_eq!(normalize_mount("/"), "/");
    assert_eq!(normalize_mount("///"), "/");
    assert_eq!(normalize_mount("/nix"), "/nix");
}

#[test]
fn findmnt_tree_flattens_in_preorder() {
    let tree = vec![entry(
        "/",
        "/dev/a[/@]",
        "btrfs",
        vec![entry("/home", "/dev/a[/@home]", "btrfs", vec![entry("/home/x", "/dev/b", "ext4", Vec::new())]), entry("/nix", "/dev/a", "btrfs", Vec::new())],
    )];
    let table = flatten_findmnt(&tree);
    let targets: Vec<&str> = table.iter().map(|(t, _)| t.as_str()).collect();
    assert_eq!(targets, vec!["/", "/home", "/home/x", "/nix"]);
    assert_eq!(table[1].1.device, "/dev/a");
    assert_eq!(table[2].1.fstype, "ext4");
}

#[test]
fn read_mounts_parses_sorts_and_applies_identities() {
    let identities = vec![("/home".to_string(), identity("/dev/real", "btrfs"))];
    let mounts = read_mounts(DF, &identities);
    let points: Vec<&str> = mounts.iter().map(|m| m.mount_point.as_str()).collect();
    assert_eq!(points, vec!["/", "/home", "/nix"]);
    let home = &mounts[1];
    assert_eq!(home.device, "/dev/real");
    assert_eq!(home.maj_min, "0:42");
    assert_eq!(home.fsroot.as_deref(), Some("/@home"));
    assert_eq!(home.total_bytes, 1000);
    assert_eq!(home.used_bytes, 600);
    assert_eq!(home.available_bytes, 400);
    let root = &mounts[0];
    assert_eq!(root.device, "/dev/nvme0n1p2");
    assert_eq!(root.maj_min, "");
    assert_eq!(root.fsroot, None);
}

#[test]
fn df_reports_first_row_and_missing_mount() {
    let identities = vec![("/data".to_string(), identity("/dev/backing", "xfs"))];
    let out = "Filesystem 1B-blocks Used Avail Type Mounted\n/dev/sdd1 /data 2000 500 1500 ext4\n";
    let info = df("/data/", out, &identities).unwrap();
    assert_eq!(info.mount_point, "/data");
    assert_eq!(info.device, "/dev/backing");
    assert_eq!(info.fstype, "xfs");
    assert_eq!(info.total_bytes, 2000);
    assert_eq!(info.available_bytes, 1500);

    let err = df("/gone", "Filesystem Size\n", &identities).unwrap_err();
    match &err {
        MountError::NotFound { mount } => assert_eq!(mount, "/gone"),
    }
    assert_eq!(err.message(), "mount point not found: /gone");
}

fn mi(point: &str) -> MountInfo {
    MountInfo {
        mount_point: point.to_string(),
        device: "/dev/x".to_string(),
        fstype: "ext4".to_string(),
        maj_min: String::new(),
        fsroot: None,
        total_bytes: 1,
        used_bytes: 0,
        available_bytes: 1,
    }
}

#[test]
fn mount_for_path_prefers_longest_match() {
    let mounts = vec![mi("/"), mi("/home"), mi("/home/can/data"), mi("/nix")];
    assert_eq!(mount_for_path("/home/can/data/x", &mounts).as_deref(), Some("/home/can/data"));
    assert_eq!(mount_for_path("/home/can", &mounts).as_deref(), Some("/home"));
    assert_eq!(mount_for_path("/etc/passwd", &mounts).as_deref(), Some("/"));
    assert_eq!(mount_for_path("relative/path", &mounts), None);
    // A plain text prefix counts, as it did before.
    assert_eq!(mount_for_path("/nixos", &mounts).as_deref(), Some("/nix"));
}
