//! The llama-swap GGUF model cache: which model files are pinned by the
//! settings and which are not.
use vstd::prelude::*;
use crate::reclaim::{sorted_set, insert_sorted, ascending};
use crate::settings::{string_at, string_list, string_field, string_list_at};
use crate::text::{copy_str, push_str, has_prefix, has_suffix, starts_with, ends_with};
use crate::text::{decimal, decimal_string, scaled_text, scaled_size};
use crate::tokens::{views, trim_end_char, trim_end};

verus! {

broadcast use vstd::string::group_string_axioms;

/// Where the models live unless the settings say otherwise.
pub const GGUF_DIR: &'static str = "/data/scratch/models/gguf";

/// The models directory and the pinned model files (full paths,
/// ascending, each once).
#[derive(Debug)]
pub struct LlamaPolicy {
    pub models_dir: String,
    pub pinned_files: Vec<String>,
}

/// A pinned file as a full path: absolute names stand as they are; others
/// are taken relative to the models directory.
pub open spec fn pinned_path(dir: Seq<char>, file: Seq<char>) -> Seq<char> {
    if has_prefix(file, "/"@) {
        file
    } else {
        trim_end_char(dir, '/') + "/"@ + file
    }
}

/// The full paths of the pinned files `files` in directory `dir`.
pub open spec fn pinned_set(dir: Seq<char>, files: Seq<Seq<char>>) -> Set<Seq<char>>
    decreases files.len(),
{
    if files.len() == 0 {
        Set::empty()
    } else {
        pinned_set(dir, files.drop_last()).insert(pinned_path(dir, files.last()))
    }
}

/// The models directory that the settings give.
pub open spec fn models_dir_of(settings: serde_json::Value) -> Seq<char> {
    match string_at(settings, "modelsDir"@) {
        Some(d) => d,
        None => GGUF_DIR@,
    }
}

/// The GGUF files among a directory listing, in order.
pub open spec fn gguf_files(listing: Seq<Seq<char>>) -> Seq<Seq<char>>
    decreases listing.len(),
{
    if listing.len() == 0 {
        Seq::empty()
    } else {
        let prev = gguf_files(listing.drop_last());
        if has_suffix(listing.last(), ".gguf"@) {
            prev.push(listing.last())
        } else {
            prev
        }
    }
}

/// The entries of `files` not among `pinned`, in order.
pub open spec fn not_pinned(files: Seq<Seq<char>>, pinned: Seq<Seq<char>>) -> Seq<Seq<char>>
    decreases files.len(),
{
    if files.len() == 0 {
        Seq::empty()
    } else {
        let prev = not_pinned(files.drop_last(), pinned);
        if pinned.contains(files.last()) {
            prev
        } else {
            prev.push(files.last())
        }
    }
}

fn pinned_path_exec(dir: &str, file: &str) -> (r: String)
    ensures
        r@ == pinned_path(dir@, file@),
{
    proof {
        reveal_strlit("/");
    }
    if starts_with(file, "/") {
        copy_str(file)
    } else {
        let mut r = trim_end(dir, '/');
        push_str(&mut r, "/");
        push_str(&mut r, file);
        r
    }
}

impl LlamaPolicy {
    /// The policy that the settings give: `modelsDir` (else the default)
    /// and the `pinnedFiles`, each as a full path.
    pub fn from_settings(settings: &serde_json::Value) -> (p: LlamaPolicy)
        ensures
            p.models_dir@ == models_dir_of(*settings),
            sorted_set(views(p.pinned_files@), pinned_set(p.models_dir@, string_list(*settings, "pinnedFiles"@))),
    {
        let models_dir = match string_field(settings, "modelsDir") {
            Some(d) => d,
            None => copy_str(GGUF_DIR),
        };
        let files = string_list_at(settings, "pinnedFiles");
        let ghost fv = views(files@);
        let mut pinned: Vec<String> = Vec::new();
        let mut i: usize = 0;
        assert(fv.take(0) =~= Seq::<Seq<char>>::empty());
        while i < files.len()
            invariant
                i <= files@.len(),
                fv == views(files@),
                sorted_set(views(pinned@), pinned_set(models_dir@, fv.take(i as int))),
            decreases files.len() - i,
        {
            assert(fv.take(i + 1).drop_last() =~= fv.take(i as int));
            assert(fv.take(i + 1).last() == files@[i as int]@);
            let full = pinned_path_exec(models_dir.as_str(), files[i].as_str());
            insert_sorted(&mut pinned, full);
            i = i + 1;
        }
        assert(fv.take(files@.len() as int) =~= fv);
        LlamaPolicy { models_dir, pinned_files: pinned }
    }

    /// The GGUF files of a listing of the models directory.
    pub fn all_files(listing: &Vec<String>) -> (r: Vec<String>)
        ensures
            views(r@) == gguf_files(views(listing@)),
    {
        let ghost lv = views(listing@);
        let mut r: Vec<String> = Vec::new();
        let mut i: usize = 0;
        assert(lv.take(0) =~= Seq::<Seq<char>>::empty());
        while i < listing.len()
            invariant
                i <= listing@.len(),
                lv == views(listing@),
                views(r@) == gguf_files(lv.take(i as int)),
            decreases listing.len() - i,
        {
            assert(lv.take(i + 1).drop_last() =~= lv.take(i as int));
            assert(lv.take(i + 1).last() == listing@[i as int]@);
            if ends_with(listing[i].as_str(), ".gguf") {
                let ghost before = r@;
                r.push(copy_str(listing[i].as_str()));
                assert(views(r@) =~= views(before).push(listing@[i as int]@));
            }
            i = i + 1;
        }
        assert(lv.take(listing@.len() as int) =~= lv);
        r
    }

    /// The GGUF files of a listing that are not pinned.
    pub fn unpinned_files(&self, listing: &Vec<String>) -> (r: Vec<String>)
        ensures
            views(r@) == not_pinned(gguf_files(views(listing@)), views(self.pinned_files@)),
    {
        let files = Self::all_files(listing);
        let ghost gv = views(files@);
        let ghost pv = views(self.pinned_files@);
        let mut r: Vec<String> = Vec::new();
        let mut i: usize = 0;
        assert(gv.take(0) =~= Seq::<Seq<char>>::empty());
        while i < files.len()
            invariant
                i <= files@.len(),
                gv == views(files@),
                pv == views(self.pinned_files@),
                views(r@) == not_pinned(gv.take(i as int), pv),
            decreases files.len() - i,
        {
            assert(gv.take(i + 1).drop_last() =~= gv.take(i as int));
            assert(gv.take(i + 1).last() == files@[i as int]@);
            if !crate::reclaim::contains_text(&self.pinned_files, files[i].as_str()) {
                let ghost before = r@;
                r.push(copy_str(files[i].as_str()));
                assert(views(r@) =~= views(before).push(files@[i as int]@));
            }
            i = i + 1;
        }
        assert(gv.take(files@.len() as int) =~= gv);
        r
    }
}

/// The note of the pruning variant: `count` unpinned files of `total`
/// bytes, in GiB with one decimal.
pub fn prune_notes(count: u64, total: u64) -> (r: String)
    ensures
        r@ == decimal(count as nat) + " unpinned gguf files ("@ + scaled_text(total as nat, 3)
            + " GiB) — risky: deletes only files absent from pinnedFiles"@,
{
    let mut r = decimal_string(count);
    push_str(&mut r, " unpinned gguf files (");
    push_str(&mut r, scaled_size(total, 3).as_str());
    push_str(&mut r, " GiB) — risky: deletes only files absent from pinnedFiles");
    r
}

/// The note of the report variant: how many model files there are, how
/// many of them are unpinned, and their total in GiB with one decimal.
pub fn report_notes(count: u64, unpinned: u64, total: u64) -> (r: String)
    ensures
        r@ == decimal(count as nat) + " gguf files, "@ + decimal(unpinned as nat) + " unpinned, "@
            + scaled_text(total as nat, 3) + " GiB total"@,
{
    let mut r = decimal_string(count);
    push_str(&mut r, " gguf files, ");
    push_str(&mut r, decimal_string(unpinned).as_str());
    push_str(&mut r, " unpinned, ");
    push_str(&mut r, scaled_size(total, 3).as_str());
    push_str(&mut r, " GiB total");
    r
}

} // verus!
