//! Podman image storage: the age window of a prune, and how many images a
//! prune reports.
use vstd::prelude::*;
use crate::settings::{u64_at, u64_field};
use crate::text::{copy_str, push_str, decimal, decimal_string, scaled_text, scaled_size};
use crate::tokens::{views, pieces, count_mentioning, count_lines_mentioning};

verus! {

broadcast use vstd::string::group_string_axioms;

/// Images newer than this many hours are kept by default.
pub const DEFAULT_KEEP_SINCE_HOURS: u32 = 168;

/// The prune window in hours: the settings' `keepSinceHours` (truncated
/// to 32 bits, as `as u32` does), else the default.
pub open spec fn keep_hours(settings: serde_json::Value) -> u32 {
    match u64_at(settings, "keepSinceHours"@) {
        Some(v) => v as u32,
        None => DEFAULT_KEEP_SINCE_HOURS,
    }
}

/// The prune window in hours.
pub fn keep_since_hours(settings: &serde_json::Value) -> (r: u32)
    ensures
        r == keep_hours(*settings),
{
    match u64_field(settings, "keepSinceHours") {
        Some(v) => v as u32,
        None => DEFAULT_KEEP_SINCE_HOURS,
    }
}

/// How many images `podman image prune` reports: its output lines that
/// mention `deleted` or `untagged`.
pub fn prune_image_count(prune_output: &str) -> (n: u64)
    ensures
        n as nat == count_mentioning(pieces(prune_output@, '\n'), seq!["deleted"@, "untagged"@]),
{
    let mut needles: Vec<String> = Vec::new();
    needles.push(copy_str("deleted"));
    needles.push(copy_str("untagged"));
    assert(views(needles@) =~= seq!["deleted"@, "untagged"@]);
    count_lines_mentioning(prune_output, &needles)
}

/// The note of the disk report: how many images, and their total in GiB
/// with one decimal.
pub fn report_notes(images: u64, total: u64) -> (r: String)
    ensures
        r@ == decimal(images as nat) + " podman images ("@ + scaled_text(total as nat, 3) + " GiB)"@,
{
    let mut r = decimal_string(images);
    push_str(&mut r, " podman images (");
    push_str(&mut r, scaled_size(total, 3).as_str());
    push_str(&mut r, " GiB)");
    r
}

/// The note of the pruning variant: the images, their total, and the
/// inactivity window in hours.
pub fn prune_notes(images: u64, total: u64, hours: u32) -> (r: String)
    ensures
        r@ == decimal(images as nat) + " images ("@ + scaled_text(total as nat, 3)
            + " GiB) — would prune those inactive >"@ + decimal(hours as nat) + "h"@,
{
    let mut r = decimal_string(images);
    push_str(&mut r, " images (");
    push_str(&mut r, scaled_size(total, 3).as_str());
    push_str(&mut r, " GiB) — would prune those inactive >");
    push_str(&mut r, decimal_string(hours as u64).as_str());
    push_str(&mut r, "h");
    r
}

/// The dry-run note of the pruning variant.
pub fn prune_dry_run_note(hours: u32) -> (r: String)
    ensures
        r@ == "dry-run: would prune podman images inactive >"@ + decimal(hours as nat) + "h"@,
{
    let mut r = copy_str("dry-run: would prune podman images inactive >");
    push_str(&mut r, decimal_string(hours as u64).as_str());
    push_str(&mut r, "h");
    r
}

/// The `--filter` argument that limits pruning to images inactive for
/// `hours`.
pub fn until_filter(hours: u32) -> (r: String)
    ensures
        r@ == "until="@ + decimal(hours as nat) + "h"@,
{
    let mut r = copy_str("until=");
    push_str(&mut r, decimal_string(hours as u64).as_str());
    push_str(&mut r, "h");
    r
}

/// What a prune of `removed` images reports: nothing when none went, else
/// that the freed bytes were not measured.
pub fn pruned_errors(removed: u64) -> (r: Vec<String>)
    ensures
        removed == 0 ==> r@.len() == 0,
        removed > 0 ==> r@.len() == 1 && r@[0]@ == "pruned "@ + decimal(removed as nat)
            + " images; freed bytes not measured"@,
{
    let mut r: Vec<String> = Vec::new();
    if removed > 0 {
        let mut line = copy_str("pruned ");
        push_str(&mut line, decimal_string(removed).as_str());
        push_str(&mut line, " images; freed bytes not measured");
        r.push(line);
    }
    r
}

} // verus!
