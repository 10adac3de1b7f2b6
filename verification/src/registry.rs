//! The catalog of cleanup frameworks and their variants, in the order in
//! which every command visits them.
use vstd::prelude::*;

use crate::framework::Tier;
use crate::text::{copy_str, same_chars};

verus! {

/// One cleanup variant of a framework.
#[derive(Debug)]
pub struct VariantEntry {
    pub framework: String,
    pub name: String,
    pub tier: Tier,
}

/// One cleanup framework and its variants.
#[derive(Debug)]
pub struct FrameworkEntry {
    pub name: String,
    pub summary: String,
    pub variants: Vec<VariantEntry>,
}

/// A variant as its name and tier.
pub open spec fn variant_view(v: VariantEntry) -> (Seq<char>, Tier) {
    (v.name@, v.tier)
}

/// A framework as its name, summary and variants.
pub open spec fn framework_view(f: FrameworkEntry) -> (Seq<char>, Seq<char>, Seq<(Seq<char>, Tier)>) {
    (f.name@, f.summary@, f.variants@.map_values(|v: VariantEntry| variant_view(v)))
}

/// Every framework variant names its own framework.
pub open spec fn framework_wf(f: FrameworkEntry) -> bool {
    forall|k: int| 0 <= k < f.variants@.len() ==> (#[trigger] f.variants@[k]).framework@ == f.name@
}

/// The registry: frameworks in visiting order, each with its summary and
/// its variants (name and tier) in order.
pub open spec fn catalog() -> Seq<(Seq<char>, Seq<char>, Seq<(Seq<char>, Tier)>)> {
    seq![
        ("nix-store-gc"@, "Nix store garbage collection and optimisation"@, seq![("nh-clean"@, Tier::Safe), ("nix-collect-garbage"@, Tier::Safe), ("optimise"@, Tier::Safe)]),
        ("boot-generations"@, "Old bootloader entries and NixOS generations"@, seq![("nh-limit"@, Tier::Safe)]),
        ("build-memory-logs"@, "Build memory probe JSONL episode logs"@, seq![("rotate-by-month"@, Tier::Safe), ("purge-older"@, Tier::Safe)]),
        ("canix-rebuild-logs"@, "Canix rebuild output logs"@, seq![("purge-older"@, Tier::Safe)]),
        ("tmp-stale"@, "Stale top-level /tmp build and shell directories"@, seq![("purge-nix-shell-dirs"@, Tier::Safe), ("purge-canix-preflight-temp"@, Tier::Safe)]),
        ("journald-vacuum"@, "Systemd journal log vacuuming"@, seq![("size-cap"@, Tier::Safe), ("time-cap"@, Tier::Safe)]),
        ("failed-units"@, "Systemd units in failed state"@, seq![("reset-failed"@, Tier::Safe), ("restart-failed"@, Tier::Confirm)]),
        ("cgroup-reset"@, "Stuck cgroup scopes and D-state processes"@, seq![("stuck-scopes"@, Tier::Confirm)]),
        ("llama-models"@, "Llama-swap GGUF model cache"@, seq![("prune-unpinned"@, Tier::Risky), ("disk-report"@, Tier::ReportOnly)]),
        ("comfyui-state"@, "ComfyUI temporary state and model cache"@, seq![("temp-prune"@, Tier::Confirm), ("model-cache-report"@, Tier::ReportOnly)]),
        ("uv-cache"@, "Python UV package cache"@, seq![("clean"@, Tier::Safe), ("prune-older"@, Tier::Confirm)]),
        ("dns-runtime-cache"@, "DNS decrypt runtime cache (tmpfs)"@, seq![("clear"@, Tier::Safe)]),
        ("freedesktop-trash"@, "Freedesktop Trash directories (per-user and volume)"@, seq![("empty"@, Tier::Confirm)]),
        ("qbittorrent-torrents"@, "qBittorrent stale torrents (report only)"@, seq![("stale-report"@, Tier::ReportOnly)]),
        ("pink-raven-workers"@, "Pink Raven stuck workers and sentinel"@, seq![("reset-stuck"@, Tier::Safe), ("ingest-report"@, Tier::ReportOnly)]),
        ("immich-temporal"@, "Immich temporary and ML cache"@, seq![("temp-clear"@, Tier::Safe), ("ml-cache-report"@, Tier::ReportOnly)]),
        ("btrfs-snapshots"@, "Btrfs snapshot subvolumes (report only — no manager)"@, seq![("orphans-report"@, Tier::ReportOnly)]),
        ("steampipe-state"@, "Steampipe AI training VM disk images and cached state"@, seq![("purge-stale-vms"@, Tier::Safe), ("purge-all-vms"@, Tier::Risky)]),
        ("chessbender-state"@, "Chessbender cluster VM disk images and cluster state"@, seq![("purge-backups"@, Tier::Safe), ("purge-orphan-home-images"@, Tier::Safe), ("purge-cluster-vms"@, Tier::Confirm)]),
        ("opencode-cache"@, "Opencode agent session cache: tool output and snapshots (disabled by default)"@, seq![("purge-tool-output"@, Tier::ReportOnly), ("purge-snapshots"@, Tier::ReportOnly), ("purge-logs"@, Tier::ReportOnly)]),
        ("canix-preflight-cache"@, "Canix cargo preflight project cache"@, seq![("size-cap"@, Tier::Safe)]),
        ("user-cache"@, "User-level build caches — removes stale entries older than 30 days across all users"@, seq![("purge-go-build"@, Tier::Safe), ("purge-cabal"@, Tier::Safe), ("purge-grype"@, Tier::Safe), ("purge-comgr"@, Tier::Safe), ("purge-appimage"@, Tier::Safe)]),
        ("forgejo-runner-cache"@, "Forgejo runner cache and container state (report only)"@, seq![("cache-report"@, Tier::ReportOnly)]),
        ("sccache-garage"@, "Garage-backed sccache object storage (report only)"@, seq![("state-report"@, Tier::ReportOnly)]),
        ("media-stack-state"@, "Media stack state for qBittorrent, *arr, Jellyfin, and Jellyseerr (report only)"@, seq![("state-report"@, Tier::ReportOnly)]),
        ("foundry-vtt-state"@, "Foundry VTT worlds and state (report only)"@, seq![("state-report"@, Tier::ReportOnly)]),
        ("pg-backup-state"@, "PostgreSQL backup and WAL state (report only)"@, seq![("backup-report"@, Tier::ReportOnly)]),
        ("podman-images"@, "Podman container image storage"@, seq![("disk-report"@, Tier::ReportOnly), ("prune-inactive-older"@, Tier::Confirm)]),
    ]
}

fn variant(framework: &str, name: &str, tier: Tier) -> (v: VariantEntry)
    ensures
        v.framework@ == framework@,
        v.name@ == name@,
        v.tier == tier,
{
    VariantEntry { framework: copy_str(framework), name: copy_str(name), tier }
}

fn framework(name: &str, summary: &str, variants: Vec<VariantEntry>) -> (f: FrameworkEntry)
    ensures
        f.name@ == name@,
        f.summary@ == summary@,
        f.variants@ == variants@,
{
    FrameworkEntry { name: copy_str(name), summary: copy_str(summary), variants }
}

/// All frameworks, in registry order.
#[verifier::rlimit(100)]
pub fn all_frameworks() -> (all: Vec<FrameworkEntry>)
    ensures
        all@.map_values(|f: FrameworkEntry| framework_view(f)) =~= catalog(),
        forall|i: int| 0 <= i < all@.len() ==> framework_wf(#[trigger] all@[i]),
{
    let mut all: Vec<FrameworkEntry> = Vec::new();
    let mut vs: Vec<VariantEntry> = Vec::new();
    vs.push(variant("nix-store-gc", "nh-clean", Tier::Safe));
    vs.push(variant("nix-store-gc", "nix-collect-garbage", Tier::Safe));
    vs.push(variant("nix-store-gc", "optimise", Tier::Safe));
    let f = framework("nix-store-gc", "Nix store garbage collection and optimisation", vs);
    assert(f.variants@.map_values(|v: VariantEntry| variant_view(v)) =~= catalog()[0].2);
    all.push(f);
    assert(all@.map_values(|f: FrameworkEntry| framework_view(f)) =~= catalog().take(1));
    let mut vs: Vec<VariantEntry> = Vec::new();
    vs.push(variant("boot-generations", "nh-limit", Tier::Safe));
    let f = framework("boot-generations", "Old bootloader entries and NixOS generations", vs);
    assert(f.variants@.map_values(|v: VariantEntry| variant_view(v)) =~= catalog()[1].2);
    all.push(f);
    assert(all@.map_values(|f: FrameworkEntry| framework_view(f)) =~= catalog().take(2));
    let mut vs: Vec<VariantEntry> = Vec::new();
    vs.push(variant("build-memory-logs", "rotate-by-month", Tier::Safe));
    vs.push(variant("build-memory-logs", "purge-older", Tier::Safe));
    let f = framework("build-memory-logs", "Build memory probe JSONL episode logs", vs);
    assert(f.variants@.map_values(|v: VariantEntry| variant_view(v)) =~= catalog()[2].2);
    all.push(f);
    assert(all@.map_values(|f: FrameworkEntry| framework_view(f)) =~= catalog().take(3));
    let mut vs: Vec<VariantEntry> = Vec::new();
    vs.push(variant("canix-rebuild-logs", "purge-older", Tier::Safe));
    let f = framework("canix-rebuild-logs", "Canix rebuild output logs", vs);
    assert(f.variants@.map_values(|v: VariantEntry| variant_view(v)) =~= catalog()[3].2);
    all.push(f);
    assert(all@.map_values(|f: FrameworkEntry| framework_view(f)) =~= catalog().take(4));
    let mut vs: Vec<VariantEntry> = Vec::new();
    vs.push(variant("tmp-stale", "purge-nix-shell-dirs", Tier::Safe));
    vs.push(variant("tmp-stale", "purge-canix-preflight-temp", Tier::Safe));
    let f = framework("tmp-stale", "Stale top-level /tmp build and shell directories", vs);
    assert(f.variants@.map_values(|v: VariantEntry| variant_view(v)) =~= catalog()[4].2);
    all.push(f);
    assert(all@.map_values(|f: FrameworkEntry| framework_view(f)) =~= catalog().take(5));
    let mut vs: Vec<VariantEntry> = Vec::new();
    vs.push(variant("journald-vacuum", "size-cap", Tier::Safe));
    vs.push(variant("journald-vacuum", "time-cap", Tier::Safe));
    let f = framework("journald-vacuum", "Systemd journal log vacuuming", vs);
    assert(f.variants@.map_values(|v: VariantEntry| variant_view(v)) =~= catalog()[5].2);
    all.push(f);
    assert(all@.map_values(|f: FrameworkEntry| framework_view(f)) =~= catalog().take(6));
    let mut vs: Vec<VariantEntry> = Vec::new();
    vs.push(variant("failed-units", "reset-failed", Tier::Safe));
    vs.push(variant("failed-units", "restart-failed", Tier::Confirm));
    let f = framework("failed-units", "Systemd units in failed state", vs);
    assert(f.variants@.map_values(|v: VariantEntry| variant_view(v)) =~= catalog()[6].2);
    all.push(f);
    assert(all@.map_values(|f: FrameworkEntry| framework_view(f)) =~= catalog().take(7));
    let mut vs: Vec<VariantEntry> = Vec::new();
    vs.push(variant("cgroup-reset", "stuck-scopes", Tier::Confirm));
    let f = framework("cgroup-reset", "Stuck cgroup scopes and D-state processes", vs);
    assert(f.variants@.map_values(|v: VariantEntry| variant_view(v)) =~= catalog()[7].2);
    all.push(f);
    assert(all@.map_values(|f: FrameworkEntry| framework_view(f)) =~= catalog().take(8));
    let mut vs: Vec<VariantEntry> = Vec::new();
    vs.push(variant("llama-models", "prune-unpinned", Tier::Risky));
    vs.push(variant("llama-models", "disk-report", Tier::ReportOnly));
    let f = framework("llama-models", "Llama-swap GGUF model cache", vs);
    assert(f.variants@.map_values(|v: VariantEntry| variant_view(v)) =~= catalog()[8].2);
    all.push(f);
    assert(all@.map_values(|f: FrameworkEntry| framework_view(f)) =~= catalog().take(9));
    let mut vs: Vec<VariantEntry> = Vec::new();
    vs.push(variant("comfyui-state", "temp-prune", Tier::Confirm));
    vs.push(variant("comfyui-state", "model-cache-report", Tier::ReportOnly));
    let f = framework("comfyui-state", "ComfyUI temporary state and model cache", vs);
    assert(f.variants@.map_values(|v: VariantEntry| variant_view(v)) =~= catalog()[9].2);
    all.push(f);
    assert(all@.map_values(|f: FrameworkEntry| framework_view(f)) =~= catalog().take(10));
    let mut vs: Vec<VariantEntry> = Vec::new();
    vs.push(variant("uv-cache", "clean", Tier::Safe));
    vs.push(variant("uv-cache", "prune-older", Tier::Confirm));
    let f = framework("uv-cache", "Python UV package cache", vs);
    assert(f.variants@.map_values(|v: VariantEntry| variant_view(v)) =~= catalog()[10].2);
    all.push(f);
    assert(all@.map_values(|f: FrameworkEntry| framework_view(f)) =~= catalog().take(11));
    let mut vs: Vec<VariantEntry> = Vec::new();
    vs.push(variant("dns-runtime-cache", "clear", Tier::Safe));
    let f = framework("dns-runtime-cache", "DNS decrypt runtime cache (tmpfs)", vs);
    assert(f.variants@.map_values(|v: VariantEntry| variant_view(v)) =~= catalog()[11].2);
    all.push(f);
    assert(all@.map_values(|f: FrameworkEntry| framework_view(f)) =~= catalog().take(12));
    let mut vs: Vec<VariantEntry> = Vec::new();
    vs.push(variant("freedesktop-trash", "empty", Tier::Confirm));
    let f = framework("freedesktop-trash", "Freedesktop Trash directories (per-user and volume)", vs);
    assert(f.variants@.map_values(|v: VariantEntry| variant_view(v)) =~= catalog()[12].2);
    all.push(f);
    assert(all@.map_values(|f: FrameworkEntry| framework_view(f)) =~= catalog().take(13));
    let mut vs: Vec<VariantEntry> = Vec::new();
    vs.push(variant("qbittorrent-torrents", "stale-report", Tier::ReportOnly));
    let f = framework("qbittorrent-torrents", "qBittorrent stale torrents (report only)", vs);
    assert(f.variants@.map_values(|v: VariantEntry| variant_view(v)) =~= catalog()[13].2);
    all.push(f);
    assert(all@.map_values(|f: FrameworkEntry| framework_view(f)) =~= catalog().take(14));
    let mut vs: Vec<VariantEntry> = Vec::new();
    vs.push(variant("pink-raven-workers", "reset-stuck", Tier::Safe));
    vs.push(variant("pink-raven-workers", "ingest-report", Tier::ReportOnly));
    let f = framework("pink-raven-workers", "Pink Raven stuck workers and sentinel", vs);
    assert(f.variants@.map_values(|v: VariantEntry| variant_view(v)) =~= catalog()[14].2);
    all.push(f);
    assert(all@.map_values(|f: FrameworkEntry| framework_view(f)) =~= catalog().take(15));
    let mut vs: Vec<VariantEntry> = Vec::new();
    vs.push(variant("immich-temporal", "temp-clear", Tier::Safe));
    vs.push(variant("immich-temporal", "ml-cache-report", Tier::ReportOnly));
    let f = framework("immich-temporal", "Immich temporary and ML cache", vs);
    assert(f.variants@.map_values(|v: VariantEntry| variant_view(v)) =~= catalog()[15].2);
    all.push(f);
    assert(all@.map_values(|f: FrameworkEntry| framework_view(f)) =~= catalog().take(16));
    let mut vs: Vec<VariantEntry> = Vec::new();
    vs.push(variant("btrfs-snapshots", "orphans-report", Tier::ReportOnly));
    let f = framework("btrfs-snapshots", "Btrfs snapshot subvolumes (report only — no manager)", vs);
    assert(f.variants@.map_values(|v: VariantEntry| variant_view(v)) =~= catalog()[16].2);
    all.push(f);
    assert(all@.map_values(|f: FrameworkEntry| framework_view(f)) =~= catalog().take(17));
    let mut vs: Vec<VariantEntry> = Vec::new();
    vs.push(variant("steampipe-state", "purge-stale-vms", Tier::Safe));
    vs.push(variant("steampipe-state", "purge-all-vms", Tier::Risky));
    let f = framework("steampipe-state", "Steampipe AI training VM disk images and cached state", vs);
    assert(f.variants@.map_values(|v: VariantEntry| variant_view(v)) =~= catalog()[17].2);
    all.push(f);
    assert(all@.map_values(|f: FrameworkEntry| framework_view(f)) =~= catalog().take(18));
    let mut vs: Vec<VariantEntry> = Vec::new();
    vs.push(variant("chessbender-state", "purge-backups", Tier::Safe));
    vs.push(variant("chessbender-state", "purge-orphan-home-images", Tier::Safe));
    vs.push(variant("chessbender-state", "purge-cluster-vms", Tier::Confirm));
    let f = framework("chessbender-state", "Chessbender cluster VM disk images and cluster state", vs);
    assert(f.variants@.map_values(|v: VariantEntry| variant_view(v)) =~= catalog()[18].2);
    all.push(f);
    assert(all@.map_values(|f: FrameworkEntry| framework_view(f)) =~= catalog().take(19));
    let mut vs: Vec<VariantEntry> = Vec::new();
    vs.push(variant("opencode-cache", "purge-tool-output", Tier::ReportOnly));
    vs.push(variant("opencode-cache", "purge-snapshots", Tier::ReportOnly));
    vs.push(variant("opencode-cache", "purge-logs", Tier::ReportOnly));
    let f = framework("opencode-cache", "Opencode agent session cache: tool output and snapshots (disabled by default)", vs);
    assert(f.variants@.map_values(|v: VariantEntry| variant_view(v)) =~= catalog()[19].2);
    all.push(f);
    assert(all@.map_values(|f: FrameworkEntry| framework_view(f)) =~= catalog().take(20));
    let mut vs: Vec<VariantEntry> = Vec::new();
    vs.push(variant("canix-preflight-cache", "size-cap", Tier::Safe));
    let f = framework("canix-preflight-cache", "Canix cargo preflight project cache", vs);
    assert(f.variants@.map_values(|v: VariantEntry| variant_view(v)) =~= catalog()[20].2);
    all.push(f);
    assert(all@.map_values(|f: FrameworkEntry| framework_view(f)) =~= catalog().take(21));
    let mut vs: Vec<VariantEntry> = Vec::new();
    vs.push(variant("user-cache", "purge-go-build", Tier::Safe));
    vs.push(variant("user-cache", "purge-cabal", Tier::Safe));
    vs.push(variant("user-cache", "purge-grype", Tier::Safe));
    vs.push(variant("user-cache", "purge-comgr", Tier::Safe));
    vs.push(variant("user-cache", "purge-appimage", Tier::Safe));
    let f = framework("user-cache", "User-level build caches — removes stale entries older than 30 days across all users", vs);
    assert(f.variants@.map_values(|v: VariantEntry| variant_view(v)) =~= catalog()[21].2);
    all.push(f);
    assert(all@.map_values(|f: FrameworkEntry| framework_view(f)) =~= catalog().take(22));
    let mut vs: Vec<VariantEntry> = Vec::new();
    vs.push(variant("forgejo-runner-cache", "cache-report", Tier::ReportOnly));
    let f = framework("forgejo-runner-cache", "Forgejo runner cache and container state (report only)", vs);
    assert(f.variants@.map_values(|v: VariantEntry| variant_view(v)) =~= catalog()[22].2);
    all.push(f);
    assert(all@.map_values(|f: FrameworkEntry| framework_view(f)) =~= catalog().take(23));
    let mut vs: Vec<VariantEntry> = Vec::new();
    vs.push(variant("sccache-garage", "state-report", Tier::ReportOnly));
    let f = framework("sccache-garage", "Garage-backed sccache object storage (report only)", vs);
    assert(f.variants@.map_values(|v: VariantEntry| variant_view(v)) =~= catalog()[23].2);
    all.push(f);
    assert(all@.map_values(|f: FrameworkEntry| framework_view(f)) =~= catalog().take(24));
    let mut vs: Vec<VariantEntry> = Vec::new();
    vs.push(variant("media-stack-state", "state-report", Tier::ReportOnly));
    let f = framework("media-stack-state", "Media stack state for qBittorrent, *arr, Jellyfin, and Jellyseerr (report only)", vs);
    assert(f.variants@.map_values(|v: VariantEntry| variant_view(v)) =~= catalog()[24].2);
    all.push(f);
    assert(all@.map_values(|f: FrameworkEntry| framework_view(f)) =~= catalog().take(25));
    let mut vs: Vec<VariantEntry> = Vec::new();
    vs.push(variant("foundry-vtt-state", "state-report", Tier::ReportOnly));
    let f = framework("foundry-vtt-state", "Foundry VTT worlds and state (report only)", vs);
    assert(f.variants@.map_values(|v: VariantEntry| variant_view(v)) =~= catalog()[25].2);
    all.push(f);
    assert(all@.map_values(|f: FrameworkEntry| framework_view(f)) =~= catalog().take(26));
    let mut vs: Vec<VariantEntry> = Vec::new();
    vs.push(variant("pg-backup-state", "backup-report", Tier::ReportOnly));
    let f = framework("pg-backup-state", "PostgreSQL backup and WAL state (report only)", vs);
    assert(f.variants@.map_values(|v: VariantEntry| variant_view(v)) =~= catalog()[26].2);
    all.push(f);
    assert(all@.map_values(|f: FrameworkEntry| framework_view(f)) =~= catalog().take(27));
    let mut vs: Vec<VariantEntry> = Vec::new();
    vs.push(variant("podman-images", "disk-report", Tier::ReportOnly));
    vs.push(variant("podman-images", "prune-inactive-older", Tier::Confirm));
    let f = framework("podman-images", "Podman container image storage", vs);
    assert(f.variants@.map_values(|v: VariantEntry| variant_view(v)) =~= catalog()[27].2);
    all.push(f);
    assert(all@.map_values(|f: FrameworkEntry| framework_view(f)) =~= catalog().take(28));
    assert(catalog().take(28) =~= catalog());
    all
}

/// Position of the first catalog entry named `name` at or after `from`.
pub open spec fn first_named<T>(names: Seq<T>, name: T, from: int) -> Option<int>
    decreases names.len() - from,
{
    if from < 0 || from >= names.len() {
        None
    } else if names[from] == name {
        Some(from)
    } else {
        first_named(names, name, from + 1)
    }
}

/// The names of the catalog's frameworks.
pub open spec fn framework_names() -> Seq<Seq<char>> {
    catalog().map_values(|e: (Seq<char>, Seq<char>, Seq<(Seq<char>, Tier)>)| e.0)
}

/// The names of the variants of catalog entry `i`.
pub open spec fn variant_names(i: int) -> Seq<Seq<char>> {
    catalog()[i].2.map_values(|v: (Seq<char>, Tier)| v.0)
}

proof fn lemma_first_named_found<T>(names: Seq<T>, name: T, from: int, at: int)
    requires
        0 <= from <= at < names.len(),
        names[at] == name,
        forall|k: int| from <= k < at ==> names[k] != name,
    ensures
        first_named(names, name, from) == Some(at),
    decreases at - from,
{
    if from < at {
        lemma_first_named_found(names, name, from + 1, at);
    }
}

proof fn lemma_first_named_hit<T>(names: Seq<T>, name: T, from: int)
    requires
        first_named(names, name, from) is Some,
    ensures
        0 <= first_named(names, name, from)->0 < names.len(),
        from <= first_named(names, name, from)->0,
        names[first_named(names, name, from)->0] == name,
    decreases names.len() - from,
{
    if from >= 0 && from < names.len() && names[from] != name {
        lemma_first_named_hit(names, name, from + 1);
    }
}

proof fn lemma_first_named_absent<T>(names: Seq<T>, name: T, from: int)
    requires
        0 <= from <= names.len(),
        forall|k: int| from <= k < names.len() ==> names[k] != name,
    ensures
        first_named(names, name, from) is None,
    decreases names.len() - from,
{
    if from < names.len() {
        lemma_first_named_absent(names, name, from + 1);
    }
}

/// The tier of variant `variant` of framework `framework`, where the
/// catalog lists it.
pub open spec fn catalog_tier(framework: Seq<char>, variant: Seq<char>) -> Option<Tier> {
    match first_named(framework_names(), framework, 0) {
        Some(i) => match first_named(variant_names(i), variant, 0) {
            Some(k) => Some(catalog()[i].2[k].1),
            None => None,
        },
        None => None,
    }
}

/// The framework named `name`.
pub fn find_framework(name: &str) -> (r: Option<FrameworkEntry>)
    ensures
        match r {
            Some(f) => first_named(framework_names(), name@, 0) matches Some(i) && framework_view(f)
                == catalog()[i] && framework_wf(f),
            None => first_named(framework_names(), name@, 0) is None,
        },
{
    let mut all = all_frameworks();
    let ghost names = framework_names();
    assert(all@.len() == names.len());
    let mut i: usize = 0;
    while i < all.len()
        invariant
            all@.map_values(|f: FrameworkEntry| framework_view(f)) =~= catalog(),
            forall|j: int| 0 <= j < all@.len() ==> framework_wf(#[trigger] all@[j]),
            names == framework_names(),
            all@.len() == names.len(),
            i <= all@.len(),
            forall|k: int| 0 <= k < i ==> names[k] != name@,
        decreases all.len() - i,
    {
        assert(names[i as int] == all@[i as int].name@);
        if same_chars(all[i].name.as_str(), name) {
            proof {
                lemma_first_named_found(names, name@, 0, i as int);
            }
            let f = all.remove(i);
            return Some(f);
        }
        i = i + 1;
    }
    proof {
        lemma_first_named_absent(names, name@, 0);
    }
    None
}

/// The variant `variant_name` of the framework `framework_name`.
pub fn find_variant(framework_name: &str, variant_name: &str) -> (r: Option<VariantEntry>)
    ensures
        r is Some <==> catalog_tier(framework_name@, variant_name@) is Some,
        r matches Some(v) ==> v.framework@ == framework_name@ && v.name@ == variant_name@ && Some(v.tier)
            == catalog_tier(framework_name@, variant_name@),
        match r {
            Some(v) => first_named(framework_names(), framework_name@, 0) matches Some(i)
                && first_named(variant_names(i), variant_name@, 0) matches Some(k)
                && variant_view(v) == catalog()[i].2[k] && v.framework@ == framework_name@,
            None => match first_named(framework_names(), framework_name@, 0) {
                None => true,
                Some(i) => first_named(variant_names(i), variant_name@, 0) is None,
            },
        },
{
    let mut f = match find_framework(framework_name) {
        None => return None,
        Some(f) => f,
    };
    let ghost i = first_named(framework_names(), framework_name@, 0)->0;
    let ghost names = variant_names(i);
    proof {
        lemma_first_named_hit(framework_names(), framework_name@, 0);
        assert(framework_names()[i] == catalog()[i].0);
    }
    assert(f.variants@.map_values(|v: VariantEntry| variant_view(v)) == catalog()[i].2);
    assert(f.variants@.len() == names.len());
    let mut k: usize = 0;
    while k < f.variants.len()
        invariant
            f.variants@.map_values(|v: VariantEntry| variant_view(v)) == catalog()[i].2,
            framework_wf(f),
            f.name@ == framework_name@,
            0 <= i < catalog().len(),
            first_named(framework_names(), framework_name@, 0) == Some(i),
            names == variant_names(i),
            f.variants@.len() == names.len(),
            k <= f.variants@.len(),
            forall|j: int| 0 <= j < k ==> names[j] != variant_name@,
        decreases f.variants.len() - k,
    {
        assert(names[k as int] == f.variants@[k as int].name@);
        if same_chars(f.variants[k].name.as_str(), variant_name) {
            proof {
                lemma_first_named_found(names, variant_name@, 0, k as int);
            }
            let ghost before = f.variants@;
            let v = f.variants.remove(k);
            assert(v == before[k as int]);
            assert(variant_view(v) == catalog()[i].2[k as int]);
            proof {
                lemma_first_named_hit(names, variant_name@, 0);
            }
            return Some(v);
        }
        k = k + 1;
    }
    proof {
        lemma_first_named_absent(names, variant_name@, 0);
    }
    None
}

} // verus!
