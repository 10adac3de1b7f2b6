//! Chessbender cluster state: which entries are VM directories, backup
//! images, or home images whose VM still exists.
use vstd::prelude::*;
use crate::reclaim::{ascending, sorted_set, insert_sorted};
use crate::sort::{SortKey, stable_sort, stably_sorted};
use crate::text::{seq_lt, str_lt, lemma_seq_lt_irreflexive, lemma_seq_lt_transitive, lemma_seq_lt_total};
use crate::text::{copy_str, has_prefix, has_suffix, has_infix, chars_of, string_of_range, starts_with, ends_with, contains};
use crate::text::{push_str, decimal, decimal_string, human_size, size_text};
use crate::tokens::{views, last_segment, last_segment_of};

verus! {

broadcast use vstd::string::group_string_axioms;

/// A cluster entry whose name (after the last `/`) starts with `vm-`.
pub open spec fn vm_entry(e: Seq<char>) -> bool {
    has_prefix(last_segment(e), "vm-"@)
}

/// The VM directories among the listed cluster entries, ascending, each
/// once.
pub fn vm_paths(entries: &Vec<String>) -> (r: Vec<String>)
    ensures
        sorted_set(views(r@), Set::new(|x: Seq<char>| views(entries@).contains(x) && vm_entry(x))),
{
    let ghost ev = views(entries@);
    let mut r: Vec<String> = Vec::new();
    let mut i: usize = 0;
    while i < entries.len()
        invariant
            i <= entries@.len(),
            ev == views(entries@),
            ascending(views(r@)),
            forall|x: Seq<char>| #[trigger] views(r@).contains(x) <==> (ev.take(i as int).contains(x) && vm_entry(x)),
        decreases entries.len() - i,
    {
        let ghost before = views(r@);
        assert(forall|x: Seq<char>| #[trigger] before.contains(x) <==> (ev.take(i as int).contains(x) && vm_entry(x)));
        let name = last_segment_of(entries[i].as_str());
        if starts_with(name.as_str(), "vm-") {
            insert_sorted(&mut r, copy_str(entries[i].as_str()));
        }
        proof {
            assert(ev[i as int] == entries@[i as int]@);
            let t = ev.take(i + 1);
            let u = ev.take(i as int);
            assert(t[i as int] == ev[i as int]);
            assert forall|x: Seq<char>| t.contains(x) <==> (u.contains(x) || x == ev[i as int]) by {
                if t.contains(x) {
                    let k = choose|k: int| 0 <= k < t.len() && #[trigger] t[k] == x;
                    if k < i {
                        assert(u[k] == x);
                    }
                }
                if u.contains(x) {
                    let k = choose|k: int| 0 <= k < u.len() && #[trigger] u[k] == x;
                    assert(t[k] == x);
                }
            }
            assert(vm_entry(ev[i as int]) == has_prefix(name@, "vm-"@));
            assert forall|x: Seq<char>| views(r@).contains(x) <==> (t.contains(x) && vm_entry(x)) by {
                assert(before.contains(x) <==> (u.contains(x) && vm_entry(x)));
                if x == ev[i as int] {
                    assert(x == entries@[i as int]@);
                }
            }
        }
        i = i + 1;
    }
    assert(ev.take(entries@.len() as int) =~= ev);
    r
}

/// Whether a VM directory entry is a backup image (its name mentions
/// `backup`).
pub fn is_backup_image(name: &str) -> (r: bool)
    ensures
        r == has_infix(name@, "backup"@),
{
    contains(name, "backup")
}

/// The VM a home image belongs to: the name before `-home.img`, when that
/// is a `vm-*` name.
pub open spec fn home_image_vm(name: Seq<char>) -> Option<Seq<char>> {
    if has_suffix(name, "-home.img"@) && has_prefix(name.subrange(0, name.len() - 9), "vm-"@) {
        Some(name.subrange(0, name.len() - 9))
    } else {
        None
    }
}

/// The VM name of a home image file name, if it is one.
pub fn home_image_vm_name(name: &str) -> (r: Option<String>)
    ensures
        match r {
            Some(v) => home_image_vm(name@) == Some(v@),
            None => home_image_vm(name@) is None,
        },
{
    proof {
        reveal_strlit("-home.img");
    }
    if !ends_with(name, "-home.img") {
        return None;
    }
    let cs = chars_of(name);
    let vm = string_of_range(cs.as_slice(), 0, cs.len() - 9);
    if starts_with(vm.as_str(), "vm-") {
        Some(vm)
    } else {
        None
    }
}

/// A disk image file and its size.
#[derive(Debug)]
pub struct Image {
    pub path: String,
    pub bytes: u64,
}

/// Images order by path.
impl SortKey for Image {
    open spec fn key_lt(self, other: Self) -> bool {
        seq_lt(self.path@, other.path@)
    }

    proof fn lemma_irreflexive(a: Self) {
        lemma_seq_lt_irreflexive(a.path@);
    }

    proof fn lemma_transitive(a: Self, b: Self, c: Self) {
        lemma_seq_lt_transitive(a.path@, b.path@, c.path@);
    }

    proof fn lemma_ties_transitive(a: Self, b: Self, c: Self) {
        lemma_seq_lt_total(a.path@, b.path@);
        lemma_seq_lt_total(b.path@, c.path@);
    }

    fn less(&self, other: &Self) -> (r: bool) {
        str_lt(self.path.as_str(), other.path.as_str())
    }
}

/// The images ordered by path (equal paths keep their order).
pub fn sort_images(images: Vec<Image>) -> (r: Vec<Image>)
    ensures
        exists|p: Seq<int>| stably_sorted(images@, r@, p),
{
    stable_sort(images)
}

/// `what: {count} {unit}, {size}`: the note of a cluster inspection.
pub open spec fn count_size_text(what: Seq<char>, count: nat, unit: Seq<char>, bytes: nat) -> Seq<char> {
    what + ": "@ + decimal(count) + " "@ + unit + ", "@ + size_text(bytes)
}

fn count_size_note(what: &str, count: u64, unit: &str, bytes: u64) -> (r: String)
    ensures
        r@ == count_size_text(what@, count as nat, unit@, bytes as nat),
{
    let mut r = copy_str(what);
    push_str(&mut r, ": ");
    push_str(&mut r, decimal_string(count).as_str());
    push_str(&mut r, " ");
    push_str(&mut r, unit);
    push_str(&mut r, ", ");
    push_str(&mut r, human_size(bytes).as_str());
    r
}

/// `dry-run: would delete {count} {what} ({size})`.
pub open spec fn delete_dry_run_text(count: nat, what: Seq<char>, bytes: nat) -> Seq<char> {
    "dry-run: would delete "@ + decimal(count) + " "@ + what + " ("@ + size_text(bytes) + ")"@
}

fn delete_dry_run(count: u64, what: &str, bytes: u64) -> (r: String)
    ensures
        r@ == delete_dry_run_text(count as nat, what@, bytes as nat),
{
    let mut r = copy_str("dry-run: would delete ");
    push_str(&mut r, decimal_string(count).as_str());
    push_str(&mut r, " ");
    push_str(&mut r, what);
    push_str(&mut r, " (");
    push_str(&mut r, human_size(bytes).as_str());
    push_str(&mut r, ")");
    r
}

/// The note on the backup images of every VM.
pub fn backups_notes(count: u64, bytes: u64) -> (r: String)
    ensures
        r@ == count_size_text("backup disk images across all cluster VMs"@, count as nat, "files"@, bytes as nat),
{
    count_size_note("backup disk images across all cluster VMs", count, "files", bytes)
}

/// The dry-run note of deleting the backup images.
pub fn backups_dry_run_note(count: u64, bytes: u64) -> (r: String)
    ensures
        r@ == delete_dry_run_text(count as nat, "backup images"@, bytes as nat),
{
    delete_dry_run(count, "backup images", bytes)
}

/// The note on the orphan home images.
pub fn home_images_notes(count: u64, bytes: u64) -> (r: String)
    ensures
        r@ == count_size_text(
            "orphan top-level VM home images with matching vm dirs"@,
            count as nat,
            "files"@,
            bytes as nat,
        ),
{
    count_size_note("orphan top-level VM home images with matching vm dirs", count, "files", bytes)
}

/// The dry-run note of deleting the orphan home images.
pub fn home_images_dry_run_note(count: u64, bytes: u64) -> (r: String)
    ensures
        r@ == delete_dry_run_text(count as nat, "orphan VM home images"@, bytes as nat),
{
    delete_dry_run(count, "orphan VM home images", bytes)
}

/// The note on every cluster VM directory.
pub fn cluster_vms_notes(count: u64, bytes: u64) -> (r: String)
    ensures
        r@ == count_size_text("all cluster VM directories"@, count as nat, "dirs"@, bytes as nat),
{
    count_size_note("all cluster VM directories", count, "dirs", bytes)
}

/// The dry-run note of deleting every cluster VM directory.
pub fn cluster_vms_dry_run_note(count: u64, bytes: u64) -> (r: String)
    ensures
        r@ == delete_dry_run_text(count as nat, "VM directories"@, bytes as nat),
{
    delete_dry_run(count, "VM directories", bytes)
}

} // verus!
