//! User-level build caches, trash directories and service temporaries:
//! what their inspections say.
use vstd::prelude::*;
use crate::text::{copy_str, push_str, decimal, decimal_string, joined, join, scaled_text, scaled_size};
use crate::text::{human_size, size_text};
use crate::tokens::views;

verus! {

broadcast use vstd::string::group_string_axioms;

/// Where a user cache lives: the users' directories found, or the pattern
/// `/home/<users>/{subpath}` when there are none.
pub open spec fn stale_cache_path_text(subpath: Seq<char>, dirs: Seq<Seq<char>>) -> Seq<char> {
    if dirs.len() == 0 {
        "/home/<users>/"@ + subpath
    } else {
        joined(dirs, ", "@)
    }
}

/// The path shown for a user cache.
pub fn stale_cache_path(subpath: &str, dirs: &Vec<String>) -> (r: String)
    ensures
        r@ == stale_cache_path_text(subpath@, views(dirs@)),
{
    if dirs.len() == 0 {
        let mut r = copy_str("/home/<users>/");
        push_str(&mut r, subpath);
        return r;
    }
    let r = join(dirs, ", ");
    assert(dirs@.map_values(|p: String| p@) =~= views(dirs@));
    r
}

/// The note of a user cache: what it is, how many users have it, and
/// whether the size scan was cut short.
pub open spec fn stale_cache_notes_text(desc: Seq<char>, count: nat, truncated: bool) -> Seq<char> {
    desc + " — "@ + decimal(count) + " user dirs with stale entries >30d"@ + if truncated {
        " (scan truncated)"@
    } else {
        ""@
    }
}

/// The note of a user cache inspection.
pub fn stale_cache_notes(desc: &str, count: u64, truncated: bool) -> (r: String)
    ensures
        r@ == stale_cache_notes_text(desc@, count as nat, truncated),
{
    let mut r = copy_str(desc);
    push_str(&mut r, " — ");
    push_str(&mut r, decimal_string(count).as_str());
    push_str(&mut r, " user dirs with stale entries >30d");
    if truncated {
        push_str(&mut r, " (scan truncated)");
    }
    proof {
        reveal_strlit("");
    }
    assert(r@ =~= stale_cache_notes_text(desc@, count as nat, truncated));
    r
}

/// The note on `files` trashed items in `dirs` trash directories.
pub fn trash_notes(files: u64, dirs: u64) -> (r: String)
    ensures
        r@ == decimal(files as nat) + " items across "@ + decimal(dirs as nat) + " trash dirs"@,
{
    let mut r = decimal_string(files);
    push_str(&mut r, " items across ");
    push_str(&mut r, decimal_string(dirs).as_str());
    push_str(&mut r, " trash dirs");
    r
}

/// The note on `bytes` of temporaries in `place`, in MiB with one decimal,
/// and whether the size scan was cut short.
pub open spec fn temp_notes_text(bytes: nat, place: Seq<char>, truncated: bool) -> Seq<char> {
    scaled_text(bytes, 2) + " MiB in "@ + place + if truncated {
        " (scan truncated)"@
    } else {
        ""@
    }
}

/// The note of a temporaries inspection.
pub fn temp_notes(bytes: u64, place: &str, truncated: bool) -> (r: String)
    ensures
        r@ == temp_notes_text(bytes as nat, place@, truncated),
{
    let mut r = scaled_size(bytes, 2);
    push_str(&mut r, " MiB in ");
    push_str(&mut r, place);
    if truncated {
        push_str(&mut r, " (scan truncated)");
    }
    proof {
        reveal_strlit("");
    }
    assert(r@ =~= temp_notes_text(bytes as nat, place@, truncated));
    r
}

/// The dry-run note of a user cache: how many directories and their size.
pub fn stale_cache_dry_run_note(dirs: u64, bytes: u64) -> (r: String)
    ensures
        r@ == "dry-run: would prune stale entries >30d from "@ + decimal(dirs as nat) + " dirs ("@
            + size_text(bytes as nat) + ")"@,
{
    let mut r = copy_str("dry-run: would prune stale entries >30d from ");
    push_str(&mut r, decimal_string(dirs).as_str());
    push_str(&mut r, " dirs (");
    push_str(&mut r, human_size(bytes).as_str());
    push_str(&mut r, ")");
    r
}

/// `note`, marked when the size scan was cut short.
pub fn with_truncation(note: &str, truncated: bool) -> (r: String)
    ensures
        r@ == note@ + if truncated {
            " (scan truncated)"@
        } else {
            ""@
        },
{
    let mut r = copy_str(note);
    if truncated {
        push_str(&mut r, " (scan truncated)");
    }
    proof {
        reveal_strlit("");
    }
    assert(r@ =~= note@ + if truncated {
        " (scan truncated)"@
    } else {
        ""@
    });
    r
}

/// The note on `dirs` trash directories.
pub fn trash_dir_notes(dirs: u64) -> (r: String)
    ensures
        r@ == decimal(dirs as nat) + " trash dirs"@,
{
    let mut r = decimal_string(dirs);
    push_str(&mut r, " trash dirs");
    r
}

/// The dry-run note of emptying the trash: items, directories and size.
pub fn trash_dry_run_note(files: u64, dirs: u64, bytes: u64) -> (r: String)
    ensures
        r@ == "dry-run: would empty "@ + decimal(files as nat) + " items from "@ + decimal(dirs as nat)
            + " trash dirs ("@ + size_text(bytes as nat) + ")"@,
{
    let mut r = copy_str("dry-run: would empty ");
    push_str(&mut r, decimal_string(files).as_str());
    push_str(&mut r, " items from ");
    push_str(&mut r, decimal_string(dirs).as_str());
    push_str(&mut r, " trash dirs (");
    push_str(&mut r, human_size(bytes).as_str());
    push_str(&mut r, ")");
    r
}

} // verus!
