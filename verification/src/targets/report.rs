//! Shared building blocks of report-style targets: configured paths and
//! the inspection that lists them.
use vstd::prelude::*;
use crate::exec::DirScan;
use crate::framework::{ApplyReport, Inspection, empty_report};
use crate::settings::{string_list, string_list_at};
use crate::text::{copy_str, push_str, decimal, decimal_string, joined, join, scaled_text, scaled_size};
use crate::tokens::{views, copy_all};

verus! {

broadcast use vstd::string::group_string_axioms;

/// The paths a report looks at: the `paths` strings of its settings, or
/// its defaults where there are none.
pub open spec fn configured_paths(settings: serde_json::Value, defaults: Seq<Seq<char>>) -> Seq<Seq<char>> {
    if string_list(settings, "paths"@).len() == 0 {
        defaults
    } else {
        string_list(settings, "paths"@)
    }
}

/// The paths a report looks at, from its settings or its defaults.
pub fn paths_from_settings(settings: &serde_json::Value, defaults: &Vec<String>) -> (r: Vec<String>)
    ensures
        views(r@) == configured_paths(*settings, views(defaults@)),
{
    let paths = string_list_at(settings, "paths");
    if paths.len() == 0 {
        copy_all(defaults)
    } else {
        paths
    }
}

/// What a report-only variant's apply reports: nothing done.
pub fn report_only_apply(framework: &str, variant: &str) -> (r: ApplyReport)
    ensures
        r.framework@ == framework@,
        r.variant@ == variant@,
        r.removed == 0,
        r.freed_bytes == 0,
        r.skipped == 0,
        r.errors@.len() == 0,
{
    empty_report(framework, variant)
}

/// The paths of `paths` that are marked present, in order.
pub open spec fn present_paths(paths: Seq<Seq<char>>, present: Seq<bool>) -> Seq<Seq<char>>
    decreases paths.len(),
{
    if paths.len() == 0 || present.len() != paths.len() {
        Seq::empty()
    } else {
        let prev = present_paths(paths.drop_last(), present.drop_last());
        if present.last() {
            prev.push(paths.last())
        } else {
            prev
        }
    }
}

/// The inspection of a report over configured paths: the present paths
/// (all configured ones where none is present), their scanned size, and a
/// note counting configured and present paths.
pub open spec fn paths_inspection(
    i: Inspection,
    framework: Seq<char>,
    variant: Seq<char>,
    paths: Seq<Seq<char>>,
    present: Seq<bool>,
    scan: DirScan,
    summary: Seq<char>,
) -> bool {
    let existing = present_paths(paths, present);
    &&& i.framework@ == framework
    &&& i.variant@ == variant
    &&& i.path@ == joined(if existing.len() == 0 {
        paths
    } else {
        existing
    }, ", "@)
    &&& i.size_bytes == Some(scan.bytes)
    &&& i.age_oldest_days is None
    &&& i.would_remove == 0
    &&& i.notes@ == summary + ": "@ + decimal(paths.len()) + " configured paths, "@ + decimal(existing.len())
        + " present"@ + if scan.truncated {
        " (scan truncated)"@
    } else {
        ""@
    }
}

/// The inspection of a report over `paths`, given which are present and
/// the bounded scan of the present ones.
pub fn inspect_paths(
    framework: &str,
    variant: &str,
    paths: &Vec<String>,
    present: &Vec<bool>,
    scan: DirScan,
    summary: &str,
) -> (r: Inspection)
    requires
        present@.len() == paths@.len(),
    ensures
        paths_inspection(r, framework@, variant@, views(paths@), present@, scan, summary@),
{
    let ghost pv = views(paths@);
    let mut existing: Vec<String> = Vec::new();
    let mut i: usize = 0;
    assert(pv.take(0) =~= Seq::<Seq<char>>::empty());
    while i < paths.len()
        invariant
            i <= paths@.len(),
            present@.len() == paths@.len(),
            pv == views(paths@),
            views(existing@) == present_paths(pv.take(i as int), present@.take(i as int)),
            existing@.len() <= i,
        decreases paths.len() - i,
    {
        assert(pv.take(i + 1).drop_last() =~= pv.take(i as int));
        assert(present@.take(i + 1).drop_last() =~= present@.take(i as int));
        assert(pv.take(i + 1).last() == paths@[i as int]@);
        if present[i] {
            let ghost before = existing@;
            existing.push(copy_str(paths[i].as_str()));
            assert(views(existing@) =~= views(before).push(paths@[i as int]@));
        }
        i = i + 1;
    }
    assert(pv.take(paths@.len() as int) =~= pv);
    assert(present@.take(paths@.len() as int) =~= present@);
    let path = if existing.len() == 0 {
        let j = join(paths, ", ");
        assert(paths@.map_values(|p: String| p@) =~= pv);
        j
    } else {
        let j = join(&existing, ", ");
        assert(existing@.map_values(|p: String| p@) =~= views(existing@));
        j
    };
    let mut notes = copy_str(summary);
    push_str(&mut notes, ": ");
    push_str(&mut notes, decimal_string(paths.len() as u64).as_str());
    push_str(&mut notes, " configured paths, ");
    push_str(&mut notes, decimal_string(existing.len() as u64).as_str());
    push_str(&mut notes, " present");
    if scan.truncated {
        push_str(&mut notes, " (scan truncated)");
    }
    proof {
        reveal_strlit("");
    }
    assert(notes@ =~= summary@ + ": "@ + decimal(pv.len()) + " configured paths, "@ + decimal(
        existing@.len() as nat,
    ) + " present"@ + if scan.truncated {
        " (scan truncated)"@
    } else {
        ""@
    });
    Inspection {
        framework: copy_str(framework),
        variant: copy_str(variant),
        path,
        size_bytes: Some(scan.bytes),
        age_oldest_days: None,
        would_remove: 0,
        notes,
    }
}

/// The dry-run note of a cleanup that would free `bytes`, in MiB with one
/// decimal.
pub fn would_free_note(bytes: u64) -> (r: String)
    ensures
        r@ == "dry-run: would free "@ + scaled_text(bytes as nat, 2) + " MiB"@,
{
    let mut r = copy_str("dry-run: would free ");
    push_str(&mut r, scaled_size(bytes, 2).as_str());
    push_str(&mut r, " MiB");
    r
}

} // verus!
