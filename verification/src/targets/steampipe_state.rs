//! Steampipe training VM images: which scenario entries are VM directories,
//! how a pid file reads, and how the images are reported.
use vstd::prelude::*;
use crate::text::{copy_str, push_str, has_prefix, decimal, decimal_string, size_text, human_size, starts_with, same_chars};
use crate::tokens::{trimmed, trim, parsed_u64, parse_u64};

verus! {

broadcast use vstd::string::group_string_axioms;

/// The entry budget of the size scan of one VM directory.
pub const VM_SCAN_MAX_ENTRIES: u64 = 20000;

/// A scenario entry named like a VM directory: `vm-*` or `fixture`.
pub open spec fn vm_dir_name(name: Seq<char>) -> bool {
    has_prefix(name, "vm-"@) || name == "fixture"@
}

/// Whether `name` names a VM directory.
pub fn is_vm_dir(name: &str) -> (r: bool)
    ensures
        r == vm_dir_name(name@),
{
    starts_with(name, "vm-") || same_chars(name, "fixture")
}

/// The pid a pid file holds: its trimmed text as a `u32`, if it is one.
pub open spec fn parsed_pid(text: Seq<char>) -> Option<u32> {
    match parsed_u64(trimmed(text)) {
        Some(v) => if v <= u32::MAX {
            Some(v as u32)
        } else {
            None
        },
        None => None,
    }
}

/// The pid in the text of a pid file.
pub fn read_pid(text: &str) -> (r: Option<u32>)
    ensures
        r == parsed_pid(text@),
{
    let t = trim(text);
    match parse_u64(t.as_str()) {
        Some(v) => if v <= 4294967295u64 {
            Some(v as u32)
        } else {
            None
        },
        None => None,
    }
}

/// A VM directory is stale unless its pid file names a live process.
pub open spec fn vm_stale(pid: Option<u32>, alive: bool) -> bool {
    pid is None || !alive
}

/// Whether a VM directory is stale, given its pid (if any) and whether
/// that process is alive.
pub fn is_stale_vm(pid: Option<u32>, alive: bool) -> (r: bool)
    ensures
        r == vm_stale(pid, alive),
{
    pid.is_none() || !alive
}

/// The note on `count` VM directories of `bytes` (all of them, or the
/// stale ones).
pub open spec fn vm_notes(all: bool, count: nat, bytes: nat) -> Seq<char> {
    (if all {
        "ALL steampipe VM disk images: "@
    } else {
        "stale steampipe VM disk images: "@
    }) + decimal(count) + " dirs, "@ + size_text(bytes)
}

/// The note on the VM directories found.
pub fn vm_report_notes(all: bool, count: u64, bytes: u64) -> (r: String)
    ensures
        r@ == vm_notes(all, count as nat, bytes as nat),
{
    let mut r = if all {
        copy_str("ALL steampipe VM disk images: ")
    } else {
        copy_str("stale steampipe VM disk images: ")
    };
    push_str(&mut r, decimal_string(count).as_str());
    push_str(&mut r, " dirs, ");
    push_str(&mut r, human_size(bytes).as_str());
    r
}

/// The dry-run note on deleting `count` VM images of `bytes`.
pub open spec fn vm_dry_run_text(all: bool, count: nat, bytes: nat) -> Seq<char> {
    (if all {
        "dry-run: would delete all "@
    } else {
        "dry-run: would delete "@
    }) + decimal(count) + (if all {
        " VM images ("@
    } else {
        " stale VM images ("@
    }) + size_text(bytes) + ")"@
}

/// The dry-run note on deleting the VM images.
pub fn vm_dry_run_note(all: bool, count: u64, bytes: u64) -> (r: String)
    ensures
        r@ == vm_dry_run_text(all, count as nat, bytes as nat),
{
    let mut r = if all {
        copy_str("dry-run: would delete all ")
    } else {
        copy_str("dry-run: would delete ")
    };
    push_str(&mut r, decimal_string(count).as_str());
    if all {
        push_str(&mut r, " VM images (");
    } else {
        push_str(&mut r, " stale VM images (");
    }
    push_str(&mut r, human_size(bytes).as_str());
    push_str(&mut r, ")");
    r
}

} // verus!
