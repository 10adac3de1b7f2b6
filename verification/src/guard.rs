//! Shared deletion safeguards.
//!
//! Every filesystem removal must pass through a [`GuardedPath`]: symlink
//! refusal, mount-boundary refusal, special-file refusal and protection
//! marker checks. This module decides; the caller observes the filesystem
//! (one `symlink_metadata` per walked component, marker probes per
//! ancestor) and hands the observations in.
use vstd::prelude::*;

use crate::paths::{
    components_of, join, join_path, path_components, path_starts_with, paths_equal, same_path,
    starts_with_path,
};
use crate::text::{copy_str, push_str};
use crate::tokens::views;

verus! {

/// Marker file: any directory containing it (or below a directory
/// containing it, up to the allowed root) protects the whole subtree.
pub const PROTECT_MARKER: &'static str = ".doty-protect";

/// What `symlink_metadata` reports about one path.
#[derive(Clone, Copy, Debug, PartialEq, Eq)]
pub struct EntryMeta {
    pub dev: u64,
    pub ino: u64,
    pub is_symlink: bool,
    pub is_dir: bool,
    pub is_file: bool,
}

/// A path that has passed all structural safety checks. The fields are
/// evidence, not promises across time: callers re-guard before mutation.
#[derive(Clone, Debug)]
pub struct GuardedPath {
    pub path: String,
    pub dev: u64,
    pub ino: u64,
    pub is_dir: bool,
}

/// Protection probes of one directory on the walk from the candidate up to
/// the allowed root.
#[derive(Clone, Copy, Debug)]
pub struct Markers {
    /// The directory holds a regular `.doty-protect` file.
    pub protect: bool,
    /// The directory holds a `.git` entry of any kind.
    pub git: bool,
}

/// Why a path was refused.
#[derive(Clone, Debug)]
pub enum GuardError {
    ParentEscape(String),
    NotUnderRoot(String),
    SymlinkComponent(String),
    MountBoundary(String),
    NonDirectoryAncestor(String),
    SymlinkTarget(String),
    SpecialFile(String),
    Protected(String),
    GitRepository(String),
    IdentityChanged(String),
    /// A filesystem observation failed; the text says which.
    Io(String),
}

/// The text of a refusal.
pub open spec fn guard_message(e: GuardError) -> Seq<char> {
    match e {
        GuardError::ParentEscape(p) => "refusing path with `..`: "@ + p@,
        GuardError::NotUnderRoot(p) => "cannot relativize "@ + p@,
        GuardError::SymlinkComponent(p) => "refusing symlink component: "@ + p@,
        GuardError::MountBoundary(p) => "refusing mount boundary at "@ + p@,
        GuardError::NonDirectoryAncestor(p) => "refusing non-directory ancestor: "@ + p@,
        GuardError::SymlinkTarget(p) => "refusing symlink target: "@ + p@,
        GuardError::SpecialFile(p) => "refusing special file: "@ + p@,
        GuardError::Protected(p) => "refusing protected path: "@ + p@,
        GuardError::GitRepository(p) => "refusing git repository content: "@ + p@,
        GuardError::IdentityChanged(p) => "path identity changed since planning: "@ + p@,
        GuardError::Io(m) => m@,
    }
}

fn prefixed(prefix: &str, p: &String) -> (r: String)
    ensures
        r@ == prefix@ + p@,
{
    let mut r = String::new();
    push_str(&mut r, prefix);
    push_str(&mut r, p.as_str());
    assert(r@ =~= prefix@ + p@);
    r
}

/// `a` and `b` are the same refusal about the same text.
pub open spec fn same_guard_error(a: GuardError, b: GuardError) -> bool {
    match (a, b) {
        (GuardError::ParentEscape(x), GuardError::ParentEscape(y)) => x@ == y@,
        (GuardError::NotUnderRoot(x), GuardError::NotUnderRoot(y)) => x@ == y@,
        (GuardError::SymlinkComponent(x), GuardError::SymlinkComponent(y)) => x@ == y@,
        (GuardError::MountBoundary(x), GuardError::MountBoundary(y)) => x@ == y@,
        (GuardError::NonDirectoryAncestor(x), GuardError::NonDirectoryAncestor(y)) => x@ == y@,
        (GuardError::SymlinkTarget(x), GuardError::SymlinkTarget(y)) => x@ == y@,
        (GuardError::SpecialFile(x), GuardError::SpecialFile(y)) => x@ == y@,
        (GuardError::Protected(x), GuardError::Protected(y)) => x@ == y@,
        (GuardError::GitRepository(x), GuardError::GitRepository(y)) => x@ == y@,
        (GuardError::IdentityChanged(x), GuardError::IdentityChanged(y)) => x@ == y@,
        (GuardError::Io(x), GuardError::Io(y)) => x@ == y@,
        _ => false,
    }
}

impl GuardError {
    /// A copy of this refusal.
    pub fn duplicate(&self) -> (r: GuardError)
        ensures
            same_guard_error(r, *self),
    {
        match self {
            GuardError::ParentEscape(p) => GuardError::ParentEscape(copy_str(p.as_str())),
            GuardError::NotUnderRoot(p) => GuardError::NotUnderRoot(copy_str(p.as_str())),
            GuardError::SymlinkComponent(p) => GuardError::SymlinkComponent(copy_str(p.as_str())),
            GuardError::MountBoundary(p) => GuardError::MountBoundary(copy_str(p.as_str())),
            GuardError::NonDirectoryAncestor(p) => GuardError::NonDirectoryAncestor(
                copy_str(p.as_str()),
            ),
            GuardError::SymlinkTarget(p) => GuardError::SymlinkTarget(copy_str(p.as_str())),
            GuardError::SpecialFile(p) => GuardError::SpecialFile(copy_str(p.as_str())),
            GuardError::Protected(p) => GuardError::Protected(copy_str(p.as_str())),
            GuardError::GitRepository(p) => GuardError::GitRepository(copy_str(p.as_str())),
            GuardError::IdentityChanged(p) => GuardError::IdentityChanged(copy_str(p.as_str())),
            GuardError::Io(p) => GuardError::Io(copy_str(p.as_str())),
        }
    }

    /// The refusal as text.
    pub fn message(&self) -> (r: String)
        ensures
            r@ == guard_message(*self),
    {
        match self {
            GuardError::ParentEscape(p) => prefixed("refusing path with `..`: ", p),
            GuardError::NotUnderRoot(p) => prefixed("cannot relativize ", p),
            GuardError::SymlinkComponent(p) => prefixed("refusing symlink component: ", p),
            GuardError::MountBoundary(p) => prefixed("refusing mount boundary at ", p),
            GuardError::NonDirectoryAncestor(p) => prefixed("refusing non-directory ancestor: ", p),
            GuardError::SymlinkTarget(p) => prefixed("refusing symlink target: ", p),
            GuardError::SpecialFile(p) => prefixed("refusing special file: ", p),
            GuardError::Protected(p) => prefixed("refusing protected path: ", p),
            GuardError::GitRepository(p) => prefixed("refusing git repository content: ", p),
            GuardError::IdentityChanged(p) => prefixed("path identity changed since planning: ", p),
            GuardError::Io(m) => copy_str(m.as_str()),
        }
    }
}

/// The path built from `parts[0..n]` by successive joins, skipping `.`.
pub open spec fn rebuilt(parts: Seq<Seq<char>>, n: nat) -> Seq<char>
    decreases n,
{
    if n == 0 || n > parts.len() {
        Seq::empty()
    } else {
        let acc = rebuilt(parts, (n - 1) as nat);
        let part = parts[n - 1];
        if part == seq!['.'] {
            acc
        } else {
            join_path(acc, part)
        }
    }
}

/// The candidate that `path` names under `root`: its components re-joined
/// (dropping `.`), anchored at `root` when the result is relative.
pub open spec fn candidate_of(path: Seq<char>, root: Seq<char>) -> Seq<char> {
    let parts = path_components(path);
    let n = rebuilt(parts, parts.len());
    if n.len() > 0 && n[0] == '/' {
        n
    } else {
        join_path(root, n)
    }
}

/// Resolve `path` against the canonical `root` without touching the
/// filesystem: `..` anywhere is refused, then the candidate must lie under
/// the root component-wise.
pub fn normalize_request(path: &str, root: &str) -> (r: Result<String, GuardError>)
    ensures
        match r {
            Ok(c) => {
                &&& !path_components(path@).contains(seq!['.', '.'])
                &&& c@ == candidate_of(path@, root@)
                &&& path_starts_with(c@, root@)
            },
            Err(GuardError::ParentEscape(p)) => {
                &&& path_components(path@).contains(seq!['.', '.'])
                &&& p@ == path@
            },
            Err(GuardError::NotUnderRoot(c)) => {
                &&& !path_components(path@).contains(seq!['.', '.'])
                &&& c@ == candidate_of(path@, root@)
                &&& !path_starts_with(c@, root@)
            },
            Err(_) => false,
        },
{
    let parts = components_of(path);
    let ghost ps = parts.deep_view();
    let mut acc = String::new();
    let mut i: usize = 0;
    while i < parts.len()
        invariant
            ps == parts.deep_view(),
            ps == path_components(path@),
            i <= ps.len(),
            acc@ == rebuilt(ps, i as nat),
            forall|j: int| 0 <= j < i ==> ps[j] != seq!['.', '.'],
        decreases parts.len() - i,
    {
        let part = parts[i].as_str();
        let cs = crate::text::chars_of(part);
        assert(ps[i as int] == part@);
        if cs.len() == 2 && cs[0] == '.' && cs[1] == '.' {
            assert(part@ =~= seq!['.', '.']);
            return Err(GuardError::ParentEscape(copy_str(path)));
        }
        if cs.len() == 1 && cs[0] == '.' {
            assert(part@ =~= seq!['.']);
        } else {
            acc = join(acc.as_str(), part);
        }
        i = i + 1;
    }
    assert(!ps.contains(seq!['.', '.']));
    let ac = crate::text::chars_of(acc.as_str());
    let candidate = if ac.len() > 0 && ac[0] == '/' {
        acc
    } else {
        join(root, acc.as_str())
    };
    if starts_with_path(candidate.as_str(), root) {
        Ok(candidate)
    } else {
        Err(GuardError::NotUnderRoot(candidate))
    }
}

/// The paths visited when walking from `root` down to `candidate`: `root`
/// joined with each further component of `candidate` in turn.
pub open spec fn walk_step(root: Seq<char>, rel: Seq<Seq<char>>, k: nat) -> Seq<char>
    decreases k,
{
    if k == 0 {
        root
    } else {
        join_path(walk_step(root, rel, (k - 1) as nat), rel[k - 1])
    }
}

/// The components of `candidate` below `root`.
pub open spec fn components_below(candidate: Seq<char>, root: Seq<char>) -> Seq<Seq<char>> {
    let c = path_components(candidate);
    c.subrange(path_components(root).len() as int, c.len() as int)
}

/// The walk from `root` to `candidate`, one entry per component below the
/// root: each entry is the previous one joined with the next component.
pub fn walk_steps(candidate: &str, root: &str) -> (steps: Vec<String>)
    requires
        path_starts_with(candidate@, root@),
    ensures
        steps@.len() == components_below(candidate@, root@).len(),
        forall|k: int|
            0 <= k < steps@.len() ==> #[trigger] steps@[k]@ == walk_step(
                root@,
                components_below(candidate@, root@),
                (k + 1) as nat,
            ),
{
    let cparts = components_of(candidate);
    let rparts = components_of(root);
    let ghost rel = components_below(candidate@, root@);
    let start = rparts.len();
    let mut steps: Vec<String> = Vec::new();
    let mut current = copy_str(root);
    let mut k: usize = start;
    while k < cparts.len()
        invariant
            cparts.deep_view() == path_components(candidate@),
            rparts.deep_view() == path_components(root@),
            start == rparts@.len(),
            start <= k <= cparts@.len(),
            rel == cparts.deep_view().subrange(start as int, cparts@.len() as int),
            steps@.len() == k - start,
            current@ == walk_step(root@, rel, (k - start) as nat),
            forall|j: int|
                0 <= j < steps@.len() ==> #[trigger] steps@[j]@ == walk_step(
                    root@,
                    rel,
                    (j + 1) as nat,
                ),
        decreases cparts.len() - k,
    {
        assert(rel[k - start] == cparts@[k as int]@);
        current = join(current.as_str(), cparts[k].as_str());
        steps.push(copy_str(current.as_str()));
        k = k + 1;
    }
    steps
}

/// Check one walked component: never a symlink, never another device, and
/// a directory unless it is the candidate itself.
pub fn check_step(current: &str, candidate: &str, meta: &EntryMeta, root_dev: u64) -> (r: Result<
    (),
    GuardError,
>)
    ensures
        match r {
            Ok(()) => !meta.is_symlink && meta.dev == root_dev && (same_path(current@, candidate@)
                || meta.is_dir),
            Err(GuardError::SymlinkComponent(p)) => meta.is_symlink && p@ == current@,
            Err(GuardError::MountBoundary(p)) => !meta.is_symlink && meta.dev != root_dev && p@
                == current@,
            Err(GuardError::NonDirectoryAncestor(p)) => !meta.is_symlink && meta.dev == root_dev
                && !same_path(current@, candidate@) && !meta.is_dir && p@ == current@,
            Err(_) => false,
        },
{
    if meta.is_symlink {
        return Err(GuardError::SymlinkComponent(copy_str(current)));
    }
    if meta.dev != root_dev {
        return Err(GuardError::MountBoundary(copy_str(current)));
    }
    if !paths_equal(current, candidate) && !meta.is_dir {
        return Err(GuardError::NonDirectoryAncestor(copy_str(current)));
    }
    Ok(())
}

/// Check the candidate's own metadata: no symlink, no special file.
pub fn check_target(candidate: &str, meta: &EntryMeta) -> (r: Result<GuardedPath, GuardError>)
    ensures
        match r {
            Ok(g) => {
                &&& !meta.is_symlink
                &&& (meta.is_file || meta.is_dir)
                &&& g.path@ == candidate@
                &&& g.dev == meta.dev
                &&& g.ino == meta.ino
                &&& g.is_dir == meta.is_dir
            },
            Err(GuardError::SymlinkTarget(p)) => meta.is_symlink && p@ == candidate@,
            Err(GuardError::SpecialFile(p)) => !meta.is_symlink && !meta.is_file && !meta.is_dir
                && p@ == candidate@,
            Err(_) => false,
        },
{
    if meta.is_symlink {
        return Err(GuardError::SymlinkTarget(copy_str(candidate)));
    }
    if !meta.is_file && !meta.is_dir {
        return Err(GuardError::SpecialFile(copy_str(candidate)));
    }
    Ok(GuardedPath { path: copy_str(candidate), dev: meta.dev, ino: meta.ino, is_dir: meta.is_dir })
}

/// Index of the first directory that carries a protection marker, or of
/// the first that carries a git entry when none does before it.
pub open spec fn first_refusal(marks: Seq<Markers>) -> Option<(int, bool)>
    decreases marks.len(),
{
    if marks.len() == 0 {
        None
    } else if marks[0].protect {
        Some((0, true))
    } else if marks[0].git {
        Some((0, false))
    } else {
        match first_refusal(marks.drop_first()) {
            Some((i, p)) => Some((i + 1, p)),
            None => None,
        }
    }
}

/// The directories whose markers are probed, nearest first: the walk
/// steps from the candidate back up to just below the root, then the root.
pub fn marker_dirs(steps: &Vec<String>, root: &str) -> (r: Vec<String>)
    ensures
        views(r@) == views(steps@).reverse().push(root@),
{
    let mut r: Vec<String> = Vec::new();
    let mut i: usize = steps.len();
    while i > 0
        invariant
            i <= steps@.len(),
            views(r@) == views(steps@).subrange(i as int, steps@.len() as int).reverse(),
        decreases i,
    {
        i = i - 1;
        let ghost before = views(r@);
        r.push(copy_str(steps[i].as_str()));
        proof {
            let sv = views(steps@);
            let n = steps@.len() as int;
            assert(views(r@) =~= before.push(sv[i as int]));
            assert(sv.subrange(i as int, n).reverse() =~= sv.subrange(i + 1, n).reverse().push(sv[i as int]));
        }
    }
    assert(views(steps@).subrange(0, steps@.len() as int) =~= views(steps@));
    let ghost before = views(r@);
    r.push(copy_str(root));
    assert(views(r@) =~= before.push(root@));
    r
}

/// A marker anywhere on the way refuses: no directory from the candidate
/// up to the root may hold a protection marker or a git entry, or the
/// guard refuses.
pub proof fn lemma_any_marker_refuses(marks: Seq<Markers>)
    ensures
        first_refusal(marks) is None <==> forall|k: int| 0 <= k < marks.len() ==> !(#[trigger] marks[k]).protect
            && !marks[k].git,
    decreases marks.len(),
{
    if marks.len() > 0 {
        lemma_any_marker_refuses(marks.drop_first());
        assert forall|k: int| 1 <= k < marks.len() implies marks.drop_first()[k - 1] == #[trigger] marks[k] by {}
        if forall|k: int| 0 <= k < marks.len() ==> !(#[trigger] marks[k]).protect && !marks[k].git {
            assert forall|k: int| 0 <= k < marks.drop_first().len() implies !(#[trigger] marks.drop_first()[k]).protect
                && !marks.drop_first()[k].git by {
                assert(marks.drop_first()[k] == marks[k + 1]);
            }
        }
    }
}

/// Decide on the marker probes of the directories from the candidate up to
/// the root, in that order: a protection marker refuses before a git entry
/// in the same directory, and the nearest directory decides.
pub fn check_markers(candidate: &str, marks: &Vec<Markers>) -> (r: Result<(), GuardError>)
    ensures
        match r {
            Ok(()) => first_refusal(marks@) is None,
            Err(GuardError::Protected(p)) => p@ == candidate@ && first_refusal(marks@) matches Some(
                (_, true),
            ),
            Err(GuardError::GitRepository(p)) => p@ == candidate@ && first_refusal(
                marks@,
            ) matches Some((_, false)),
            Err(_) => false,
        },
        r is Ok <==> forall|k: int| 0 <= k < marks@.len() ==> !(#[trigger] marks@[k]).protect && !marks@[k].git,
{
    let mut i: usize = 0;
    assert(marks@.skip(0) =~= marks@);
    while i < marks.len()
        invariant
            i <= marks@.len(),
            forall|k: int| 0 <= k < i ==> !(#[trigger] marks@[k]).protect && !marks@[k].git,
            first_refusal(marks@) == match first_refusal(marks@.skip(i as int)) {
                Some((k, p)) => Some((k + i, p)),
                None => None,
            },
        decreases marks.len() - i,
    {
        assert(marks@.skip(i as int)[0] == marks@[i as int]);
        assert(marks@.skip(i as int).drop_first() =~= marks@.skip(i + 1));
        if marks[i].protect {
            return Err(GuardError::Protected(copy_str(candidate)));
        }
        if marks[i].git {
            return Err(GuardError::GitRepository(copy_str(candidate)));
        }
        i = i + 1;
    }
    assert(marks@.skip(i as int).len() == 0);
    Ok(())
}

/// Re-validate a previously guarded path against a fresh guard of the same
/// path: same device, inode and kind.
pub fn revalidate(guarded: &GuardedPath, fresh: GuardedPath) -> (r: Result<GuardedPath, GuardError>)
    ensures
        match r {
            Ok(g) => g == fresh && fresh.dev == guarded.dev && fresh.ino == guarded.ino
                && fresh.is_dir == guarded.is_dir,
            Err(GuardError::IdentityChanged(p)) => p@ == guarded.path@ && (fresh.dev != guarded.dev
                || fresh.ino != guarded.ino || fresh.is_dir != guarded.is_dir),
            Err(_) => false,
        },
{
    if fresh.dev != guarded.dev || fresh.ino != guarded.ino || fresh.is_dir != guarded.is_dir {
        return Err(GuardError::IdentityChanged(copy_str(guarded.path.as_str())));
    }
    Ok(fresh)
}

/// The request `path` under `root` made absolute and checked
/// (`normalize_request`), with the directories to walk from just below the
/// root down to it (`walk_steps`).
pub fn guard_walk(path: &str, root: &str) -> (r: Result<(String, Vec<String>), GuardError>)
    ensures
        match r {
            Ok((c, steps)) => {
                &&& !path_components(path@).contains(seq!['.', '.'])
                &&& c@ == candidate_of(path@, root@)
                &&& path_starts_with(c@, root@)
                &&& steps@.len() == components_below(c@, root@).len()
                &&& forall|k: int|
                    0 <= k < steps@.len() ==> #[trigger] steps@[k]@ == walk_step(
                        root@,
                        components_below(c@, root@),
                        (k + 1) as nat,
                    )
            },
            Err(GuardError::ParentEscape(p)) => {
                &&& path_components(path@).contains(seq!['.', '.'])
                &&& p@ == path@
            },
            Err(GuardError::NotUnderRoot(c)) => {
                &&& !path_components(path@).contains(seq!['.', '.'])
                &&& c@ == candidate_of(path@, root@)
                &&& !path_starts_with(c@, root@)
            },
            Err(_) => false,
        },
{
    let candidate = match normalize_request(path, root) {
        Ok(c) => c,
        Err(e) => return Err(e),
    };
    let steps = walk_steps(candidate.as_str(), root);
    Ok((candidate, steps))
}

} // verus!
