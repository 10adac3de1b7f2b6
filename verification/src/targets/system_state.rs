//! System-level targets (the Nix store, boot entries, snapshots and the DNS
//! runtime cache): what their inspections say.
use vstd::prelude::*;
use crate::text::{push_str, decimal, decimal_string};

verus! {

broadcast use vstd::string::group_string_axioms;

/// The note of an `nh clean` inspection: whether a NixOS system is active.
pub fn nh_clean_notes(system_present: bool) -> (r: &'static str)
    ensures
        r@ == (if system_present {
            "nh clean all -K 14d would prune old generations"@
        } else {
            "no active NixOS system found"@
        }),
{
    if system_present {
        "nh clean all -K 14d would prune old generations"
    } else {
        "no active NixOS system found"
    }
}

/// How many boot entries pruning removes: those beyond the ten kept.
pub fn boot_would_remove(entries: u64) -> (r: u64)
    ensures
        r == (if entries > 10 {
            entries - 10
        } else {
            0
        }),
{
    entries.saturating_sub(10)
}

/// The note on `entries` boot entries.
pub fn boot_notes(entries: u64) -> (r: String)
    ensures
        r@ == decimal(entries as nat) + " boot entries (would keep ~10)"@,
{
    let mut r = decimal_string(entries);
    push_str(&mut r, " boot entries (would keep ~10)");
    r
}

/// The note on `count` snapshot subvolumes.
pub fn snapshot_notes(count: u64) -> (r: String)
    ensures
        r@ == (if count > 0 {
            decimal(count as nat) + " snapshot subvolumes (all orphans — no snapshot manager wired)"@
        } else {
            "no snapshot subvolumes found"@
        }),
{
    if count > 0 {
        let mut r = decimal_string(count);
        push_str(&mut r, " snapshot subvolumes (all orphans — no snapshot manager wired)");
        r
    } else {
        crate::text::copy_str("no snapshot subvolumes found")
    }
}

/// The note on `count` cached DNS entries.
pub fn dns_notes(count: u64) -> (r: String)
    ensures
        r@ == (if count > 0 {
            decimal(count as nat) + " cached entries"@
        } else {
            "no cache"@
        }),
{
    if count > 0 {
        let mut r = decimal_string(count);
        push_str(&mut r, " cached entries");
        r
    } else {
        crate::text::copy_str("no cache")
    }
}

/// The dry-run note of clearing the DNS cache directory `dir`.
pub fn dns_dry_run_note(dir: &str) -> (r: String)
    ensures
        r@ == "dry-run: would remove "@ + dir@,
{
    let mut r = crate::text::copy_str("dry-run: would remove ");
    push_str(&mut r, dir);
    r
}

/// The note on `count` torrent download directories.
pub fn download_notes(count: u64) -> (r: String)
    ensures
        r@ == decimal(count as nat) + " download directories — report only"@,
{
    let mut r = decimal_string(count);
    push_str(&mut r, " download directories — report only");
    r
}

/// The note on `count` entries of the uv cache.
pub fn uv_prune_notes(count: u64) -> (r: String)
    ensures
        r@ == decimal(count as nat) + " cache entries — removes files untouched >30 days"@,
{
    let mut r = decimal_string(count);
    push_str(&mut r, " cache entries — removes files untouched >30 days");
    r
}

} // verus!
