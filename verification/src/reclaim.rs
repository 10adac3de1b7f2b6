//! Reclaim planning: which filesystems need space, which cleanup targets
//! free it on which filesystem, in what order they are shown, and what
//! the totals are.
//!
//! Reading mounts, inspecting and applying targets, and usage percentages
//! (floating point) belong to the caller; this module decides with the
//! results.
use vstd::prelude::*;
use crate::framework::{Tier, tier_text, tier_label, Inspection, ApplyReport};
use crate::registry::{catalog_tier, find_variant};
use crate::mount::{MountInfo, MountView, mount_views, point_of, or_zero};
use crate::sort::{SortKey, stable_sort, stably_sorted, is_permutation, stable_before};
use crate::text::{copy_str, push_str, push_char, has_prefix, same_chars, starts_with, seq_lt, utf8_len, byte_len, str_lt};
use crate::text::{padded, push_padded};
use crate::text::{lemma_seq_lt_irreflexive, lemma_seq_lt_transitive, lemma_seq_lt_total, lemma_seq_lt_asymmetric};
use crate::tokens::{views, opt_view, copy_opt, copy_all, pieces, split_on, trimmed, trim};

verus! {

broadcast use vstd::string::group_string_axioms;

/// Counts and byte sums over a reclaim plan.
#[derive(Debug, Clone, Copy, PartialEq, Eq)]
pub struct ReclaimTotals {
    pub filesystems_total: usize,
    pub filesystems_over_threshold: usize,
    pub targets_total: usize,
    pub skipped_targets: usize,
    pub total_estimated_freed_bytes: u64,
    pub skipped_estimated_freed_bytes: u64,
    pub total_target_free_bytes: u64,
    pub total_goal_shortfall_bytes: u64,
    pub total_actual_freed_bytes: Option<u64>,
}

impl Default for ReclaimTotals {
    fn default() -> (r: ReclaimTotals)
        ensures
            r.filesystems_total == 0,
            r.filesystems_over_threshold == 0,
            r.targets_total == 0,
            r.skipped_targets == 0,
            r.total_estimated_freed_bytes == 0,
            r.skipped_estimated_freed_bytes == 0,
            r.total_target_free_bytes == 0,
            r.total_goal_shortfall_bytes == 0,
            r.total_actual_freed_bytes is None,
    {
        ReclaimTotals {
            filesystems_total: 0,
            filesystems_over_threshold: 0,
            targets_total: 0,
            skipped_targets: 0,
            total_estimated_freed_bytes: 0,
            skipped_estimated_freed_bytes: 0,
            total_target_free_bytes: 0,
            total_goal_shortfall_bytes: 0,
            total_actual_freed_bytes: None,
        }
    }
}

/// Where a target frees space.
#[derive(Debug, Clone, Copy, PartialEq, Eq, Structural)]
pub enum TargetScope {
    /// On one filesystem.
    SingleSurface,
    /// On several filesystems.
    MultiSurface,
    /// On no filesystem that was found (a system action).
    Unassigned,
}

/// One cleanup target in a reclaim plan.
#[derive(Debug)]
pub struct ReclaimTarget {
    pub framework: String,
    pub variant: String,
    pub tier: String,
    pub scope: TargetScope,
    pub paths: Vec<String>,
    pub surfaces: Vec<String>,
    pub estimated_freed_bytes: u64,
    pub actual_freed_bytes: Option<u64>,
    pub status: String,
    pub skip_reason: Option<String>,
    pub notes: String,
}

/// One filesystem in a reclaim plan, with the targets that free space on
/// it. Its usage percentage is derived from the byte counts by the caller.
#[derive(Debug)]
pub struct ReclaimFilesystem {
    pub device: String,
    pub fstype: String,
    pub maj_min: String,
    pub fsroot: Option<String>,
    pub mounts: Vec<String>,
    pub total_bytes: u64,
    pub used_bytes: u64,
    pub available_bytes: u64,
    pub target_free_bytes: u64,
    pub estimated_freed_bytes: u64,
    pub actual_freed_bytes: Option<u64>,
    pub final_available_bytes: Option<u64>,
    pub goal_met: Option<bool>,
    pub targets: Vec<ReclaimTarget>,
}

/// The mounts that share one backing filesystem.
#[derive(Debug)]
pub struct FilesystemGroup {
    pub key: String,
    pub device: String,
    pub fstype: String,
    pub mounts: Vec<MountInfo>,
    pub representative: MountInfo,
}

/// A target and the filesystems its paths live on.
#[derive(Debug)]
pub struct ResolvedTarget {
    pub target: ReclaimTarget,
    pub filesystem_keys: Vec<String>,
}

// ---------------------------------------------------------------------------
// Filesystem keys
// ---------------------------------------------------------------------------

/// The separator between the parts of a filesystem key (ASCII unit
/// separator).
pub open spec fn unit_sep() -> Seq<char> {
    seq!['\u{1f}']
}

/// The key that identifies a backing filesystem: device, device numbers,
/// type and (where known) the root of the mount inside it, joined by the
/// unit separator.
pub open spec fn key_text(device: Seq<char>, maj_min: Seq<char>, fstype: Seq<char>, fsroot: Option<Seq<char>>) -> Seq<char> {
    let base = device + unit_sep() + maj_min + unit_sep() + fstype;
    match fsroot {
        Some(r) => base + unit_sep() + r,
        None => base,
    }
}

/// The filesystem key of a mount.
pub open spec fn mount_key(m: MountView) -> Seq<char> {
    key_text(m.device, m.maj_min, m.fstype, m.fsroot)
}

fn key_of(device: &str, maj_min: &str, fstype: &str, fsroot: &Option<String>) -> (r: String)
    ensures
        r@ == key_text(device@, maj_min@, fstype@, opt_view(*fsroot)),
{
    let mut r = copy_str(device);
    push_char(&mut r, '\u{1f}');
    push_str(&mut r, maj_min);
    push_char(&mut r, '\u{1f}');
    push_str(&mut r, fstype);
    match fsroot {
        Some(root) => {
            push_char(&mut r, '\u{1f}');
            push_str(&mut r, root.as_str());
        },
        None => {},
    }
    assert(r@ =~= key_text(device@, maj_min@, fstype@, opt_view(*fsroot)));
    r
}

/// The filesystem key of a mount.
pub fn fs_key(mount: &MountInfo) -> (r: String)
    ensures
        r@ == mount_key(mount@),
{
    key_of(mount.device.as_str(), mount.maj_min.as_str(), mount.fstype.as_str(), &mount.fsroot)
}

/// The filesystem key of a filesystem in a plan.
pub fn fs_key_from_report(fs: &ReclaimFilesystem) -> (r: String)
    ensures
        r@ == key_text(fs.device@, fs.maj_min@, fs.fstype@, opt_view(fs.fsroot)),
{
    key_of(fs.device.as_str(), fs.maj_min.as_str(), fs.fstype.as_str(), &fs.fsroot)
}

// ---------------------------------------------------------------------------
// Paths and mounts
// ---------------------------------------------------------------------------

/// `path` lies on the mount at `mp`: anything absolute lies on the root;
/// otherwise `path` is `mp` or continues it with a `/`.
pub open spec fn on_mount(path: Seq<char>, mp: Seq<char>) -> bool {
    if mp == "/"@ {
        has_prefix(path, "/"@)
    } else {
        path == mp || (has_prefix(path, mp) && path.len() > mp.len() && path[mp.len() as int] == '/')
    }
}

/// Whether `path` lies on the mount at `mount_point`.
pub fn path_is_on_mount(path: &str, mount_point: &str) -> (r: bool)
    ensures
        r == on_mount(path@, mount_point@),
{
    proof {
        reveal_strlit("/");
    }
    if same_chars(mount_point, "/") {
        return starts_with(path, "/");
    }
    if same_chars(path, mount_point) {
        return true;
    }
    if !starts_with(path, mount_point) {
        return false;
    }
    let p = crate::text::chars_of(path);
    let m = crate::text::chars_of(mount_point);
    if p.len() > m.len() {
        p[m.len()] == '/'
    } else {
        false
    }
}

/// A path as a target reports it can be resolved to a mount: absolute,
/// and not a `<placeholder>`.
pub open spec fn real_absolute(p: Seq<char>) -> bool {
    has_prefix(p, "/"@) && !p.contains('<') && !p.contains('>')
}

/// Whether `path` is absolute and holds no placeholder brackets.
pub fn is_real_absolute_path(path: &str) -> (r: bool)
    ensures
        r == real_absolute(path@),
{
    proof {
        reveal_strlit("/");
    }
    starts_with(path, "/") && !crate::text::contains_char(path, '<') && !crate::text::contains_char(
        path,
        '>',
    )
}

/// The real absolute paths among `parts`, trimmed, in order.
pub open spec fn real_paths(parts: Seq<Seq<char>>) -> Seq<Seq<char>>
    decreases parts.len(),
{
    if parts.len() == 0 {
        Seq::empty()
    } else {
        let prev = real_paths(parts.drop_last());
        let p = trimmed(parts.last());
        if real_absolute(p) {
            prev.push(p)
        } else {
            prev
        }
    }
}

/// The paths in a target's comma-separated path text that can be resolved
/// to mounts, each trimmed.
pub fn target_paths(raw: &str) -> (r: Vec<String>)
    ensures
        views(r@) == real_paths(pieces(raw@, ',')),
{
    let parts = split_on(raw, ',');
    let ghost ps = pieces(raw@, ',');
    let mut r: Vec<String> = Vec::new();
    let mut i: usize = 0;
    assert(ps.take(0) =~= Seq::<Seq<char>>::empty());
    while i < parts.len()
        invariant
            views(parts@) == ps,
            i <= parts@.len(),
            views(r@) == real_paths(ps.take(i as int)),
        decreases parts.len() - i,
    {
        let t = trim(parts[i].as_str());
        assert(ps.take(i + 1).drop_last() =~= ps.take(i as int));
        assert(ps.take(i + 1).last() == parts@[i as int]@);
        let ghost before = r@;
        if is_real_absolute_path(t.as_str()) {
            r.push(t);
            assert(views(r@) =~= views(before).push(t@));
        }
        i = i + 1;
    }
    assert(ps.take(parts@.len() as int) =~= ps);
    r
}

// ---------------------------------------------------------------------------
// Tier policy
// ---------------------------------------------------------------------------

/// Why a target of tier `t` is held back when `--force` is not given.
pub open spec fn gate_reason(t: Tier) -> Option<Seq<char>> {
    match t {
        Tier::Safe => None,
        Tier::Confirm => Some("confirm tier requires --force"@),
        Tier::Risky => Some("risky tier requires --force"@),
        Tier::ReportOnly => Some("report-only target"@),
    }
}

/// A target is held back exactly when `--force` is not given and its tier
/// is not safe.
pub open spec fn gated(t: Tier, force: bool) -> bool {
    !force && t != Tier::Safe
}

/// The status and skip reason a target of tier `t` starts with: skipped,
/// with the tier's reason, when it is gated; pending otherwise.
pub fn gate(t: Tier, force: bool) -> (r: (String, Option<String>))
    ensures
        gated(t, force) ==> r.0@ == "skipped"@ && opt_view(r.1) == gate_reason(t),
        !gated(t, force) ==> r.0@ == "pending"@ && r.1 is None,
{
    if force {
        return (copy_str("pending"), None);
    }
    match t {
        Tier::Safe => (copy_str("pending"), None),
        Tier::Confirm => (copy_str("skipped"), Some(copy_str("confirm tier requires --force"))),
        Tier::Risky => (copy_str("skipped"), Some(copy_str("risky tier requires --force"))),
        Tier::ReportOnly => (copy_str("skipped"), Some(copy_str("report-only target"))),
    }
}

/// The display rank of a tier name: safe, confirm, risky, report-only,
/// then anything else.
pub open spec fn tier_rank_of(tier: Seq<char>) -> nat {
    if tier == "safe"@ {
        0
    } else if tier == "confirm"@ {
        1
    } else if tier == "risky"@ {
        2
    } else if tier == "report-only"@ {
        3
    } else {
        4
    }
}

/// The display rank of a tier name.
pub fn tier_priority(tier: &str) -> (r: u8)
    ensures
        r as nat == tier_rank_of(tier@),
{
    if same_chars(tier, "safe") {
        0
    } else if same_chars(tier, "confirm") {
        1
    } else if same_chars(tier, "risky") {
        2
    } else if same_chars(tier, "report-only") {
        3
    } else {
        4
    }
}

// ---------------------------------------------------------------------------
// Grouping mounts by backing filesystem
// ---------------------------------------------------------------------------

/// A `FilesystemGroup` as sequences.
pub struct GroupView {
    pub key: Seq<char>,
    pub device: Seq<char>,
    pub fstype: Seq<char>,
    pub mounts: Seq<MountView>,
    pub representative: MountView,
}

impl View for FilesystemGroup {
    type V = GroupView;

    open spec fn view(&self) -> GroupView {
        GroupView {
            key: self.key@,
            device: self.device@,
            fstype: self.fstype@,
            mounts: mount_views(self.mounts@),
            representative: self.representative@,
        }
    }
}

/// The views of a sequence of groups.
pub open spec fn group_views(gs: Seq<FilesystemGroup>) -> Seq<GroupView> {
    gs.map_values(|g: FilesystemGroup| g@)
}

/// The mounts of `ms` with key `k`, in order.
pub open spec fn with_key(ms: Seq<MountView>, k: Seq<char>) -> Seq<MountView>
    decreases ms.len(),
{
    if ms.len() == 0 {
        Seq::empty()
    } else {
        let prev = with_key(ms.drop_last(), k);
        if mount_key(ms.last()) == k {
            prev.push(ms.last())
        } else {
            prev
        }
    }
}

/// Within a group, mount `a` (at `ia`) is listed before `b` (at `ib`): the
/// shorter mount point in bytes first, then by text, then as listed.
pub open spec fn shorter_first(a: MountView, ia: int, b: MountView, ib: int) -> bool {
    ||| utf8_len(a.mount_point) < utf8_len(b.mount_point)
    ||| utf8_len(a.mount_point) == utf8_len(b.mount_point) && seq_lt(a.mount_point, b.mount_point)
    ||| a.mount_point == b.mount_point && ia < ib
}

/// `out` is `rows` rearranged by `p` into `shorter_first` order.
pub open spec fn arranged_with(rows: Seq<MountView>, out: Seq<MountView>, p: Seq<int>) -> bool {
    &&& is_permutation(p, rows.len())
    &&& out.len() == rows.len()
    &&& forall|i: int| 0 <= i < out.len() ==> #[trigger] out[i] == rows[p[i]]
    &&& forall|i: int, j: int|
        0 <= i < j < out.len() ==> shorter_first(rows[#[trigger] p[i]], p[i], rows[#[trigger] p[j]], p[j])
}

/// `out` is `rows` stably sorted shortest mount point first.
pub open spec fn arranged(rows: Seq<MountView>, out: Seq<MountView>) -> bool {
    exists|p: Seq<int>| arranged_with(rows, out, p)
}

/// Group `g` of `ms`: the mounts with its key, shortest mount point
/// first, the first of them representing the filesystem.
pub open spec fn group_of(ms: Seq<MountView>, g: GroupView) -> bool {
    &&& arranged(with_key(ms, g.key), g.mounts)
    &&& g.mounts.len() > 0
    &&& g.representative == g.mounts[0]
    &&& g.device == g.representative.device
    &&& g.fstype == g.representative.fstype
}

/// Some group of `gs` has key `k`.
pub open spec fn has_group(gs: Seq<GroupView>, k: Seq<char>) -> bool {
    exists|h: int| 0 <= h < gs.len() && #[trigger] gs[h].key == k
}

/// `gs` groups `ms` by filesystem key: one group per distinct key, in
/// ascending key order.
pub open spec fn groups_of(ms: Seq<MountView>, gs: Seq<GroupView>) -> bool {
    &&& forall|a: int, b: int| 0 <= a < b < gs.len() ==> seq_lt(#[trigger] gs[a].key, #[trigger] gs[b].key)
    &&& forall|i: int| 0 <= i < ms.len() ==> has_group(gs, mount_key(#[trigger] ms[i]))
    &&& forall|g: int| 0 <= g < gs.len() ==> group_of(ms, #[trigger] gs[g])
}

/// A mount ordered by the length of its mount point, then its text.
pub struct ByLength(pub MountInfo);

/// Mount points ordered by length in bytes, then by text.
pub open spec fn len_lt(a: Seq<char>, b: Seq<char>) -> bool {
    utf8_len(a) < utf8_len(b) || (utf8_len(a) == utf8_len(b) && seq_lt(a, b))
}

impl SortKey for ByLength {
    open spec fn key_lt(self, other: Self) -> bool {
        len_lt(self.0.mount_point@, other.0.mount_point@)
    }

    proof fn lemma_irreflexive(a: Self) {
        lemma_seq_lt_irreflexive(a.0.mount_point@);
    }

    proof fn lemma_transitive(a: Self, b: Self, c: Self) {
        let (x, y, z) = (a.0.mount_point@, b.0.mount_point@, c.0.mount_point@);
        if seq_lt(x, y) && seq_lt(y, z) {
            lemma_seq_lt_transitive(x, y, z);
        }
    }

    proof fn lemma_ties_transitive(a: Self, b: Self, c: Self) {
        lemma_seq_lt_total(a.0.mount_point@, b.0.mount_point@);
        lemma_seq_lt_total(b.0.mount_point@, c.0.mount_point@);
    }

    fn less(&self, other: &Self) -> (r: bool) {
        let a = byte_len(self.0.mount_point.as_str());
        let b = byte_len(other.0.mount_point.as_str());
        a < b || (a == b && str_lt(self.0.mount_point.as_str(), other.0.mount_point.as_str()))
    }
}

/// Each of `v` is below the next: ascending, without repeats.
pub open spec fn ascending(v: Seq<Seq<char>>) -> bool {
    forall|a: int, b: int| 0 <= a < b < v.len() ==> seq_lt(#[trigger] v[a], #[trigger] v[b])
}

/// Inserts `key` into the ascending `set` unless it is there already.
pub fn insert_sorted(set: &mut Vec<String>, key: String)
    requires
        ascending(views(old(set)@)),
    ensures
        ascending(views(final(set)@)),
        forall|x: Seq<char>| views(final(set)@).contains(x) <==> (views(old(set)@).contains(x) || x == key@),
{
    let ghost old_v = views(set@);
    assert forall|a: int, b: int| 0 <= a < b < set@.len() implies seq_lt(#[trigger] set@[a]@, #[trigger] set@[b]@) by {
        assert(old_v[a] == set@[a]@ && old_v[b] == set@[b]@);
    }
    let mut j: usize = 0;
    while j < set.len() && str_lt(set[j].as_str(), key.as_str())
        invariant
            j <= set@.len(),
            views(set@) == old_v,
            forall|a: int, b: int| 0 <= a < b < set@.len() ==> seq_lt(#[trigger] set@[a]@, #[trigger] set@[b]@),
            forall|a: int| 0 <= a < j ==> seq_lt(#[trigger] set@[a]@, key@),
        decreases set.len() - j,
    {
        j = j + 1;
    }
    if j < set.len() && same_chars(set[j].as_str(), key.as_str()) {
        assert forall|x: Seq<char>| views(set@).contains(x) <==> (old_v.contains(x) || x == key@) by {
            if x == key@ {
                assert(views(set@)[j as int] == x);
            }
        }
        return;
    }
    proof {
        if j < set@.len() {
            lemma_seq_lt_total(set@[j as int]@, key@);
            assert(seq_lt(key@, set@[j as int]@));
        }
    }
    let ghost before = set@;
    set.insert(j, key);
    assert(set@ == before.insert(j as int, key));
    assert forall|a: int, b: int| 0 <= a < b < set@.len() implies seq_lt(#[trigger] set@[a]@, #[trigger] set@[b]@) by {
        if b == j {
            assert(set@[a] == before[a]);
        } else if a == j {
            assert(set@[b] == before[b - 1]);
            if b > j + 1 {
                lemma_seq_lt_transitive(key@, before[j as int]@, before[b - 1]@);
            }
        } else if a < j && b > j {
            assert(set@[a] == before[a]);
            assert(set@[b] == before[b - 1]);
            if b - 1 > j {
                lemma_seq_lt_transitive(key@, before[j as int]@, before[b - 1]@);
            }
            lemma_seq_lt_transitive(before[a]@, key@, before[b - 1]@);
        } else if a < j {
            assert(set@[a] == before[a]);
            assert(set@[b] == before[b]);
        } else {
            assert(set@[a] == before[a - 1]);
            assert(set@[b] == before[b - 1]);
        }
    }
    assert forall|x: Seq<char>| views(set@).contains(x) <==> (old_v.contains(x) || x == key@) by {
        if views(set@).contains(x) {
            let k = choose|k: int| 0 <= k < views(set@).len() && views(set@)[k] == x;
            if k < j {
                assert(old_v[k] == x);
            } else if k > j {
                assert(old_v[k - 1] == x);
            }
        }
        if old_v.contains(x) {
            let k = choose|k: int| 0 <= k < old_v.len() && old_v[k] == x;
            if k < j {
                assert(views(set@)[k] == x);
            } else {
                assert(views(set@)[k + 1] == x);
            }
        }
        if x == key@ {
            assert(views(set@)[j as int] == x);
        }
    }
    assert(forall|x: Seq<char>| views(set@).contains(x) <==> (views(old(set)@).contains(x) || x == key@));
}

/// The texts of `v` ascending, each once (a sort followed by a dedup).
pub fn sorted_unique(v: &Vec<String>) -> (r: Vec<String>)
    ensures
        sorted_set(views(r@), views(v@).to_set()),
{
    let ghost vv = views(v@);
    let mut r: Vec<String> = Vec::new();
    let mut i: usize = 0;
    while i < v.len()
        invariant
            i <= v@.len(),
            vv == views(v@),
            ascending(views(r@)),
            forall|x: Seq<char>| #[trigger] views(r@).contains(x) <==> vv.take(i as int).contains(x),
        decreases v.len() - i,
    {
        let ghost before = views(r@);
        insert_sorted(&mut r, copy_str(v[i].as_str()));
        proof {
            let t = vv.take(i + 1);
            let u = vv.take(i as int);
            assert(vv[i as int] == v@[i as int]@);
            assert(t[i as int] == vv[i as int]);
            assert forall|x: Seq<char>| views(r@).contains(x) <==> t.contains(x) by {
                assert(before.contains(x) <==> u.contains(x));
                if t.contains(x) {
                    let k = choose|k: int| 0 <= k < t.len() && #[trigger] t[k] == x;
                    if k < i {
                        assert(u[k] == x);
                    }
                }
                if u.contains(x) {
                    let k = choose|k: int| 0 <= k < u.len() && #[trigger] u[k] == x;
                    assert(t[k] == x);
                }
            }
        }
        i = i + 1;
    }
    assert(vv.take(v@.len() as int) =~= vv);
    assert forall|x: Seq<char>| views(r@).contains(x) <==> vv.to_set().contains(x) by {}
    r
}

/// The members of the group with key `key`, in listed order.
fn members_of(mounts: &Vec<MountInfo>, keys: &Vec<String>, key: &str) -> (r: Vec<ByLength>)
    requires
        keys@.len() == mounts@.len(),
        forall|i: int| 0 <= i < keys@.len() ==> #[trigger] keys@[i]@ == mount_key(mounts@[i]@),
    ensures
        r@.map_values(|b: ByLength| b.0@) == with_key(mount_views(mounts@), key@),
{
    let ghost ms = mount_views(mounts@);
    let mut r: Vec<ByLength> = Vec::new();
    let mut i: usize = 0;
    assert(ms.take(0) =~= Seq::<MountView>::empty());
    while i < mounts.len()
        invariant
            keys@.len() == mounts@.len(),
            forall|i: int| 0 <= i < keys@.len() ==> #[trigger] keys@[i]@ == mount_key(mounts@[i]@),
            ms == mount_views(mounts@),
            i <= mounts@.len(),
            r@.map_values(|b: ByLength| b.0@) == with_key(ms.take(i as int), key@),
        decreases mounts.len() - i,
    {
        assert(ms.take(i + 1).drop_last() =~= ms.take(i as int));
        assert(ms.take(i + 1).last() == mounts@[i as int]@);
        let ghost before = r@;
        if same_chars(keys[i].as_str(), key) {
            r.push(ByLength(mounts[i].duplicate()));
            assert(r@.map_values(|b: ByLength| b.0@) =~= before.map_values(|b: ByLength| b.0@).push(
                mounts@[i as int]@,
            ));
        }
        i = i + 1;
    }
    assert(ms.take(mounts@.len() as int) =~= ms);
    r
}

/// The mounts of a sorted member list, unwrapped.
fn unwrap_members(v: &Vec<ByLength>) -> (r: Vec<MountInfo>)
    ensures
        mount_views(r@) == v@.map_values(|b: ByLength| b.0@),
{
    let mut r: Vec<MountInfo> = Vec::new();
    let mut i: usize = 0;
    while i < v.len()
        invariant
            i <= v@.len(),
            mount_views(r@) == v@.map_values(|b: ByLength| b.0@).take(i as int),
        decreases v.len() - i,
    {
        let ghost before = r@;
        r.push(v[i].0.duplicate());
        assert(mount_views(r@) =~= mount_views(before).push(v@[i as int].0@));
        i = i + 1;
        assert(mount_views(r@) =~= v@.map_values(|b: ByLength| b.0@).take(i as int));
    }
    assert(v@.map_values(|b: ByLength| b.0@).take(v@.len() as int) =~= v@.map_values(|b: ByLength| b.0@));
    r
}

/// The group of mounts with key `key`.
fn build_group(mounts: &Vec<MountInfo>, keys: &Vec<String>, key: &String) -> (g: FilesystemGroup)
    requires
        keys@.len() == mounts@.len(),
        forall|i: int| 0 <= i < keys@.len() ==> #[trigger] keys@[i]@ == mount_key(mounts@[i]@),
        exists|i: int| 0 <= i < keys@.len() && #[trigger] keys@[i]@ == key@,
    ensures
        g@.key == key@,
        group_of(mount_views(mounts@), g@),
{
    let members = members_of(mounts, keys, key.as_str());
    let ghost rows = members@;
    let ghost rv = with_key(mount_views(mounts@), key@);
    proof {
        let i = choose|i: int| 0 <= i < keys@.len() && #[trigger] keys@[i]@ == key@;
        lemma_with_key_member(mount_views(mounts@), key@, i);
    }
    let sorted = stable_sort(members);
    let ms = unwrap_members(&sorted);
    proof {
        let p = choose|p: Seq<int>| stably_sorted(rows, sorted@, p);
        assert(rows.map_values(|b: ByLength| b.0@) == rv);
        assert forall|a: int, b: int| 0 <= a < b < mount_views(ms@).len() implies shorter_first(
            rv[#[trigger] p[a]],
            p[a],
            rv[#[trigger] p[b]],
            p[b],
        ) by {
            assert(stable_before(rows[p[a]], p[a], rows[p[b]], p[b]));
            lemma_seq_lt_total(rv[p[a]].mount_point, rv[p[b]].mount_point);
        }
        assert forall|i: int| 0 <= i < mount_views(ms@).len() implies #[trigger] mount_views(ms@)[i]
            == rv[p[i]] by {
            assert(sorted@[i] == rows[p[i]]);
        }
        assert(arranged_with(rv, mount_views(ms@), p));
    }
    let representative = ms[0].duplicate();
    FilesystemGroup {
        key: copy_str(key.as_str()),
        device: copy_str(representative.device.as_str()),
        fstype: copy_str(representative.fstype.as_str()),
        mounts: ms,
        representative,
    }
}

/// A mount with key `k` puts at least one mount in `with_key(ms, k)`.
proof fn lemma_with_key_member(ms: Seq<MountView>, k: Seq<char>, i: int)
    requires
        0 <= i < ms.len(),
        mount_key(ms[i]) == k,
    ensures
        with_key(ms, k).len() > 0,
    decreases ms.len(),
{
    if i < ms.len() - 1 {
        lemma_with_key_member(ms.drop_last(), k, i);
    }
}

/// The mounts grouped by backing filesystem: one group per distinct key,
/// in ascending key order, each with its mounts shortest mount point
/// first and the first of them as representative.
pub fn filesystem_groups(mounts: &Vec<MountInfo>) -> (groups: Vec<FilesystemGroup>)
    ensures
        groups_of(mount_views(mounts@), group_views(groups@)),
{
    let ghost ms = mount_views(mounts@);
    let mut keys: Vec<String> = Vec::new();
    let mut distinct: Vec<String> = Vec::new();
    let mut i: usize = 0;
    while i < mounts.len()
        invariant
            i <= mounts@.len(),
            keys@.len() == i,
            forall|k: int| 0 <= k < i ==> #[trigger] keys@[k]@ == mount_key(mounts@[k]@),
            ascending(views(distinct@)),
            forall|x: Seq<char>| views(distinct@).contains(x) <==> exists|k: int| 0 <= k < i && #[trigger] keys@[k]@ == x,
        decreases mounts.len() - i,
    {
        let k = fs_key(&mounts[i]);
        let ghost ok = keys@;
        keys.push(copy_str(k.as_str()));
        assert(forall|m: int| 0 <= m < i ==> keys@[m] == ok[m]);
        let ghost before = views(distinct@);
        let ghost kv = k@;
        insert_sorted(&mut distinct, k);
        assert forall|x: Seq<char>| views(distinct@).contains(x) <==> exists|m: int| 0 <= m < i + 1 && #[trigger] keys@[m]@ == x by {
            if views(distinct@).contains(x) {
                if before.contains(x) {
                    let m = choose|m: int| 0 <= m < i && #[trigger] ok[m]@ == x;
                    assert(0 <= m < i + 1 && keys@[m]@ == x);
                } else {
                    assert(keys@[i as int]@ == x);
                }
            }
            if exists|m: int| 0 <= m < i + 1 && #[trigger] keys@[m]@ == x {
                let m = choose|m: int| 0 <= m < i + 1 && #[trigger] keys@[m]@ == x;
                if m < i {
                    assert(ok[m]@ == x);
                    assert(before.contains(x));
                } else {
                    assert(x == kv);
                }
            }
        }
        i = i + 1;
    }
    let mut groups: Vec<FilesystemGroup> = Vec::new();
    let mut g: usize = 0;
    while g < distinct.len()
        invariant
            keys@.len() == mounts@.len(),
            ms == mount_views(mounts@),
            forall|k: int| 0 <= k < keys@.len() ==> #[trigger] keys@[k]@ == mount_key(mounts@[k]@),
            ascending(views(distinct@)),
            forall|x: Seq<char>| views(distinct@).contains(x) <==> exists|k: int| 0 <= k < keys@.len() && #[trigger] keys@[k]@ == x,
            g <= distinct@.len(),
            groups@.len() == g,
            forall|h: int| 0 <= h < g ==> (#[trigger] groups@[h])@.key == distinct@[h]@,
            forall|h: int| 0 <= h < g ==> group_of(ms, (#[trigger] groups@[h])@),
        decreases distinct.len() - g,
    {
        assert(views(distinct@)[g as int] == distinct@[g as int]@);
        assert(views(distinct@).contains(distinct@[g as int]@));
        let group = build_group(mounts, &keys, &distinct[g]);
        groups.push(group);
        g = g + 1;
    }
    proof {
        let gv = group_views(groups@);
        assert forall|a: int, b: int| 0 <= a < b < gv.len() implies seq_lt(#[trigger] gv[a].key, #[trigger] gv[b].key) by {
            assert(gv[a].key == views(distinct@)[a]);
            assert(gv[b].key == views(distinct@)[b]);
        }
        assert forall|i: int| 0 <= i < ms.len() implies has_group(gv, mount_key(#[trigger] ms[i])) by {
            assert(keys@[i]@ == mount_key(ms[i]));
            assert(views(distinct@).contains(keys@[i]@));
            let h = choose|h: int| 0 <= h < views(distinct@).len() && views(distinct@)[h] == keys@[i]@;
            assert(gv[h].key == distinct@[h]@);
        }
        assert forall|h: int| 0 <= h < gv.len() implies group_of(ms, #[trigger] gv[h]) by {
            assert(gv[h] == groups@[h]@);
        }
    }
    groups
}

/// The mounts with key `k` are exactly the mounts of `ms` with that key.
pub proof fn lemma_with_key_contains(ms: Seq<MountView>, k: Seq<char>, m: MountView)
    ensures
        with_key(ms, k).contains(m) <==> (ms.contains(m) && mount_key(m) == k),
    decreases ms.len(),
{
    if ms.len() > 0 {
        lemma_with_key_contains(ms.drop_last(), k, m);
        let prev = with_key(ms.drop_last(), k);
        if with_key(ms, k).contains(m) {
            let x = choose|x: int| 0 <= x < with_key(ms, k).len() && with_key(ms, k)[x] == m;
            if mount_key(ms.last()) == k && x == prev.len() {
                assert(ms[ms.len() - 1] == m);
            } else {
                assert(prev[x] == m);
                let y = choose|y: int| 0 <= y < ms.drop_last().len() && ms.drop_last()[y] == m;
                assert(ms[y] == m);
            }
        }
        if ms.contains(m) && mount_key(m) == k {
            let y = choose|y: int| 0 <= y < ms.len() && ms[y] == m;
            if y == ms.len() - 1 {
                assert(with_key(ms, k)[prev.len() as int] == m);
            } else {
                assert(ms.drop_last()[y] == m);
                let x = choose|x: int| 0 <= x < prev.len() && prev[x] == m;
                assert(with_key(ms, k)[x] == m);
            }
        }
    }
}

/// A rearrangement holds the same mounts.
pub proof fn lemma_arranged_contains(rows: Seq<MountView>, out: Seq<MountView>, m: MountView)
    requires
        arranged(rows, out),
    ensures
        out.contains(m) <==> rows.contains(m),
{
    let p = choose|p: Seq<int>| arranged_with(rows, out, p);
    if out.contains(m) {
        let i = choose|i: int| 0 <= i < out.len() && out[i] == m;
        assert(rows[p[i]] == m);
    }
    if rows.contains(m) {
        let j = choose|j: int| 0 <= j < rows.len() && rows[j] == m;
        assert(p.contains(j));
        let i = choose|i: int| 0 <= i < p.len() && p[i] == j;
        assert(out[i] == m);
    }
}

/// Every mount is in the group of its backing filesystem.
pub proof fn lemma_mount_in_its_group(ms: Seq<MountView>, gs: Seq<GroupView>, i: int)
    requires
        groups_of(ms, gs),
        0 <= i < ms.len(),
    ensures
        exists|g: int| 0 <= g < gs.len() && gs[g].key == mount_key(ms[i]) && #[trigger] gs[g].mounts.contains(ms[i]),
{
    assert(has_group(gs, mount_key(ms[i])));
    let g = choose|g: int| 0 <= g < gs.len() && #[trigger] gs[g].key == mount_key(ms[i]);
    assert(group_of(ms, gs[g]));
    lemma_with_key_contains(ms, gs[g].key, ms[i]);
    lemma_arranged_contains(with_key(ms, gs[g].key), gs[g].mounts, ms[i]);
}

/// A group holds only mounts of its own backing filesystem.
pub proof fn lemma_group_holds_its_key(ms: Seq<MountView>, gs: Seq<GroupView>, g: int, m: MountView)
    requires
        groups_of(ms, gs),
        0 <= g < gs.len(),
        gs[g].mounts.contains(m),
    ensures
        ms.contains(m),
        mount_key(m) == gs[g].key,
{
    assert(group_of(ms, gs[g]));
    lemma_arranged_contains(with_key(ms, gs[g].key), gs[g].mounts, m);
    lemma_with_key_contains(ms, gs[g].key, m);
}

/// No two groups share a key.
pub proof fn lemma_group_keys_distinct(ms: Seq<MountView>, gs: Seq<GroupView>, a: int, b: int)
    requires
        groups_of(ms, gs),
        0 <= a < gs.len(),
        0 <= b < gs.len(),
        a != b,
    ensures
        gs[a].key != gs[b].key,
{
    if a < b {
        assert(seq_lt(gs[a].key, gs[b].key));
        lemma_seq_lt_irreflexive(gs[a].key);
    } else {
        assert(seq_lt(gs[b].key, gs[a].key));
        lemma_seq_lt_irreflexive(gs[b].key);
    }
}

/// Mount aliases collapse: two mounts share a group exactly when they have
/// the same backing filesystem.
pub proof fn lemma_aliases_share_group(ms: Seq<MountView>, gs: Seq<GroupView>, i: int, j: int)
    requires
        groups_of(ms, gs),
        0 <= i < ms.len(),
        0 <= j < ms.len(),
    ensures
        mount_key(ms[i]) == mount_key(ms[j]) <==> exists|g: int|
            0 <= g < gs.len() && #[trigger] gs[g].mounts.contains(ms[i]) && gs[g].mounts.contains(ms[j]),
{
    lemma_mount_in_its_group(ms, gs, i);
    lemma_mount_in_its_group(ms, gs, j);
    let gi = choose|g: int| 0 <= g < gs.len() && gs[g].key == mount_key(ms[i]) && #[trigger] gs[g].mounts.contains(ms[i]);
    let gj = choose|g: int| 0 <= g < gs.len() && gs[g].key == mount_key(ms[j]) && #[trigger] gs[g].mounts.contains(ms[j]);
    if mount_key(ms[i]) == mount_key(ms[j]) {
        if gi != gj {
            lemma_group_keys_distinct(ms, gs, gi, gj);
        }
        assert(gs[gi].mounts.contains(ms[j]));
    }
    if exists|g: int| 0 <= g < gs.len() && #[trigger] gs[g].mounts.contains(ms[i]) && gs[g].mounts.contains(ms[j]) {
        let g = choose|g: int| 0 <= g < gs.len() && #[trigger] gs[g].mounts.contains(ms[i]) && gs[g].mounts.contains(ms[j]);
        lemma_group_holds_its_key(ms, gs, g, ms[i]);
        lemma_group_holds_its_key(ms, gs, g, ms[j]);
    }
}

// ---------------------------------------------------------------------------
// Resolving targets to filesystems
// ---------------------------------------------------------------------------

/// The mount point of mount `m` of group `g`.
pub open spec fn point_at(gs: Seq<GroupView>, g: int, m: int) -> Seq<char> {
    gs[g].mounts[m].mount_point
}

/// Mount `m` of group `g` exists and holds `path`.
pub open spec fn holds(gs: Seq<GroupView>, path: Seq<char>, g: int, m: int) -> bool {
    &&& 0 <= g < gs.len()
    &&& 0 <= m < gs[g].mounts.len()
    &&& on_mount(path, point_at(gs, g, m))
}

/// `(g1, m1)` comes before `(g2, m2)` in group order, then mount order.
pub open spec fn pair_before(g1: int, m1: int, g2: int, m2: int) -> bool {
    g1 < g2 || (g1 == g2 && m1 < m2)
}

/// Mount `m` of group `g` is the most specific mount holding `path`: its
/// mount point is the longest in bytes, and it comes first among equals.
pub open spec fn is_surface(gs: Seq<GroupView>, path: Seq<char>, g: int, m: int) -> bool {
    &&& holds(gs, path, g, m)
    &&& forall|g2: int, m2: int|
        #[trigger] holds(gs, path, g2, m2) ==> utf8_len(point_at(gs, g2, m2)) <= utf8_len(point_at(gs, g, m))
    &&& forall|g2: int, m2: int|
        #[trigger] holds(gs, path, g2, m2) && pair_before(g2, m2, g, m) ==> utf8_len(point_at(gs, g2, m2)) < utf8_len(
            point_at(gs, g, m),
        )
}

/// There is one most specific mount at most.
pub proof fn lemma_surface_unique(gs: Seq<GroupView>, path: Seq<char>, g1: int, m1: int, g2: int, m2: int)
    requires
        is_surface(gs, path, g1, m1),
        is_surface(gs, path, g2, m2),
    ensures
        g1 == g2 && m1 == m2,
{
    assert(holds(gs, path, g1, m1));
    assert(holds(gs, path, g2, m2));
}

/// The filesystem key and mount point of the most specific mount holding
/// `path`, if any mount holds it.
pub open spec fn surface_of(gs: Seq<GroupView>, path: Seq<char>) -> Option<(Seq<char>, Seq<char>)> {
    if exists|g: int, m: int| is_surface(gs, path, g, m) {
        let (g, m) = choose|g: int, m: int| is_surface(gs, path, g, m);
        Some((gs[g].key, point_at(gs, g, m)))
    } else {
        None
    }
}

/// The view of an optional pair of strings.
pub open spec fn pair_view(r: Option<(String, String)>) -> Option<(Seq<char>, Seq<char>)> {
    match r {
        Some(p) => Some((p.0@, p.1@)),
        None => None,
    }
}

/// The filesystem key and mount point of the most specific mount that
/// holds `path`: the longest mount point (in bytes) among those `path`
/// lies on, the first in group and mount order among equals.
pub fn resolve_path_surface(path: &str, groups: &Vec<FilesystemGroup>) -> (r: Option<(String, String)>)
    ensures
        pair_view(r) == surface_of(group_views(groups@), path@),
        r is None <==> forall|g: int, m: int| !holds(group_views(groups@), path@, g, m),
{
    let ghost gs = group_views(groups@);
    let mut best: Option<(usize, usize)> = None;
    let mut best_len: u128 = 0;
    let mut g: usize = 0;
    while g < groups.len()
        invariant
            gs == group_views(groups@),
            g <= groups@.len(),
            best is None ==> forall|g2: int, m2: int| #[trigger] holds(gs, path@, g2, m2) ==> g2 >= g,
            best matches Some(b) ==> {
                &&& holds(gs, path@, b.0 as int, b.1 as int)
                &&& b.0 < g
                &&& best_len == utf8_len(point_at(gs, b.0 as int, b.1 as int))
                &&& forall|g2: int, m2: int|
                    #[trigger] holds(gs, path@, g2, m2) && g2 < g ==> utf8_len(point_at(gs, g2, m2)) <= best_len
                &&& forall|g2: int, m2: int|
                    #[trigger] holds(gs, path@, g2, m2) && pair_before(g2, m2, b.0 as int, b.1 as int)
                        ==> utf8_len(point_at(gs, g2, m2)) < best_len
            },
        decreases groups.len() - g,
    {
        let mounts = &groups[g].mounts;
        assert(gs[g as int].mounts == mount_views(mounts@));
        let mut m: usize = 0;
        while m < mounts.len()
            invariant
                gs == group_views(groups@),
                g < groups@.len(),
                mounts@ == groups@[g as int].mounts@,
                gs[g as int].mounts == mount_views(mounts@),
                m <= mounts@.len(),
                best is None ==> forall|g2: int, m2: int|
                    #[trigger] holds(gs, path@, g2, m2) ==> g2 > g || (g2 == g && m2 >= m),
                best matches Some(b) ==> {
                    &&& holds(gs, path@, b.0 as int, b.1 as int)
                    &&& pair_before(b.0 as int, b.1 as int, g as int, m as int)
                    &&& best_len == utf8_len(point_at(gs, b.0 as int, b.1 as int))
                    &&& forall|g2: int, m2: int|
                        #[trigger] holds(gs, path@, g2, m2) && pair_before(g2, m2, g as int, m as int)
                            ==> utf8_len(point_at(gs, g2, m2)) <= best_len
                    &&& forall|g2: int, m2: int|
                        #[trigger] holds(gs, path@, g2, m2) && pair_before(g2, m2, b.0 as int, b.1 as int)
                            ==> utf8_len(point_at(gs, g2, m2)) < best_len
                },
            decreases mounts.len() - m,
        {
            let mp = mounts[m].mount_point.as_str();
            assert(point_at(gs, g as int, m as int) == mp@);
            if path_is_on_mount(path, mp) {
                let n = byte_len(mp);
                let replace = match best {
                    Some(_) => n > best_len,
                    None => true,
                };
                if replace {
                    best = Some((g, m));
                    best_len = n;
                }
            }
            m = m + 1;
        }
        g = g + 1;
    }
    match best {
        Some(b) => {
            assert(is_surface(gs, path@, b.0 as int, b.1 as int));
            proof {
                let (cg, cm) = choose|g: int, m: int| is_surface(gs, path@, g, m);
                lemma_surface_unique(gs, path@, cg, cm, b.0 as int, b.1 as int);
            }
            let key = copy_str(groups[b.0].key.as_str());
            let point = copy_str(groups[b.0].mounts[b.1].mount_point.as_str());
            Some((key, point))
        },
        None => {
            assert(forall|g: int, m: int| !is_surface(gs, path@, g, m));
            None
        },
    }
}

/// The filesystem keys (`keys`) or mount points (`!keys`) of the mounts
/// that `paths` resolve to.
pub open spec fn resolved_parts(gs: Seq<GroupView>, paths: Seq<Seq<char>>, keys: bool) -> Set<Seq<char>>
    decreases paths.len(),
{
    if paths.len() == 0 {
        Set::empty()
    } else {
        let prev = resolved_parts(gs, paths.drop_last(), keys);
        match surface_of(gs, paths.last()) {
            Some(kp) => prev.insert(
                if keys {
                    kp.0
                } else {
                    kp.1
                },
            ),
            None => prev,
        }
    }
}

/// `v` lists the members of `s` in ascending order, each once.
pub open spec fn sorted_set(v: Seq<Seq<char>>, s: Set<Seq<char>>) -> bool {
    &&& ascending(v)
    &&& forall|x: Seq<char>| v.contains(x) <==> s.contains(x)
}

/// The scope of a target whose paths lie on `n` filesystems.
pub open spec fn scope_for(n: nat) -> TargetScope {
    if n == 0 {
        TargetScope::Unassigned
    } else if n == 1 {
        TargetScope::SingleSurface
    } else {
        TargetScope::MultiSurface
    }
}

/// An inspection that would remove nothing and reports no size is not a
/// target.
pub open spec fn nothing_to_reclaim(i: Inspection) -> bool {
    i.would_remove == 0 && or_zero(i.size_bytes) == 0
}

/// `t` is the plan entry for variant `framework`/`variant` of tier `tier`,
/// given its inspection `i`, the filesystem groups `gs`, the keys `keys`
/// of the filesystems it frees space on, and whether `--force` was given.
pub open spec fn target_from(
    t: ReclaimTarget,
    keys: Seq<Seq<char>>,
    framework: Seq<char>,
    variant: Seq<char>,
    tier: Tier,
    i: Inspection,
    gs: Seq<GroupView>,
    force: bool,
) -> bool {
    let ps = real_paths(pieces(i.path@, ','));
    &&& t.framework@ == framework
    &&& t.variant@ == variant
    &&& t.tier@ == tier_text(tier)
    &&& sorted_set(keys, resolved_parts(gs, ps, true))
    &&& sorted_set(views(t.surfaces@), resolved_parts(gs, ps, false))
    &&& t.scope == scope_for(keys.len())
    &&& views(t.paths@) == (if ps.len() == 0 {
        seq![i.path@]
    } else {
        ps
    })
    &&& t.estimated_freed_bytes == or_zero(i.size_bytes)
    &&& t.actual_freed_bytes is None
    &&& gated(tier, force) ==> t.status@ == "skipped"@ && opt_view(t.skip_reason) == gate_reason(tier)
    &&& !gated(tier, force) ==> t.status@ == "pending"@ && t.skip_reason is None
    &&& t.notes@ == i.notes@
}

/// The plan entry for one inspected variant: nothing where the inspection
/// found nothing to reclaim; otherwise its paths, the filesystems and
/// mount points they resolve to (each listed once, ascending), the scope
/// that their number gives, the estimate, and the tier policy's status.
pub fn resolve_target(
    framework: &str,
    variant: &str,
    tier: Tier,
    inspection: &Inspection,
    groups: &Vec<FilesystemGroup>,
    force: bool,
) -> (r: Option<ResolvedTarget>)
    ensures
        r is None <==> nothing_to_reclaim(*inspection),
        r matches Some(rt) ==> target_from(
            rt.target,
            views(rt.filesystem_keys@),
            framework@,
            variant@,
            tier,
            *inspection,
            group_views(groups@),
            force,
        ),
{
    let size: u64 = match inspection.size_bytes {
        Some(v) => v,
        None => 0,
    };
    if inspection.would_remove == 0 && size == 0 {
        return None;
    }
    let (status, skip_reason) = gate(tier, force);
    let paths = target_paths(inspection.path.as_str());
    let ghost gs = group_views(groups@);
    let ghost ps = views(paths@);
    let mut keys: Vec<String> = Vec::new();
    let mut surfaces: Vec<String> = Vec::new();
    let mut i: usize = 0;
    assert(ps.take(0) =~= Seq::<Seq<char>>::empty());
    while i < paths.len()
        invariant
            i <= paths@.len(),
            ps == views(paths@),
            gs == group_views(groups@),
            sorted_set(views(keys@), resolved_parts(gs, ps.take(i as int), true)),
            sorted_set(views(surfaces@), resolved_parts(gs, ps.take(i as int), false)),
        decreases paths.len() - i,
    {
        assert(ps.take(i + 1).drop_last() =~= ps.take(i as int));
        assert(ps.take(i + 1).last() == paths@[i as int]@);
        match resolve_path_surface(paths[i].as_str(), groups) {
            Some(kp) => {
                let (k, sp) = kp;
                insert_sorted(&mut keys, k);
                insert_sorted(&mut surfaces, sp);
            },
            None => {},
        }
        i = i + 1;
    }
    assert(ps.take(paths@.len() as int) =~= ps);
    let scope = if keys.len() == 0 {
        TargetScope::Unassigned
    } else if keys.len() == 1 {
        TargetScope::SingleSurface
    } else {
        TargetScope::MultiSurface
    };
    let shown = if paths.len() == 0 {
        let mut v: Vec<String> = Vec::new();
        v.push(copy_str(inspection.path.as_str()));
        assert(views(v@) =~= seq![inspection.path@]);
        v
    } else {
        paths
    };
    let target = ReclaimTarget {
        framework: copy_str(framework),
        variant: copy_str(variant),
        tier: copy_str(tier_label(tier)),
        scope,
        paths: shown,
        surfaces,
        estimated_freed_bytes: size,
        actual_freed_bytes: None,
        status,
        skip_reason,
        notes: copy_str(inspection.notes.as_str()),
    };
    Some(ResolvedTarget { target, filesystem_keys: keys })
}

// ---------------------------------------------------------------------------
// Display order of targets
// ---------------------------------------------------------------------------

/// How close a filesystem's target is to it: 0 when its single surface is
/// one of the filesystem's mounts, 1 for other resolved targets, 2 when it
/// resolved to no surface.
pub open spec fn surface_rank(t: ReclaimTarget, mounts: Seq<Seq<char>>) -> nat {
    if t.surfaces@.len() == 0 {
        2
    } else if t.scope != TargetScope::SingleSurface {
        1
    } else if exists|k: int| 0 <= k < t.surfaces@.len() && mounts.contains(#[trigger] t.surfaces@[k]@) {
        0
    } else {
        1
    }
}

/// How close a target is to the filesystem with mount points `mounts`.
pub fn surface_priority(target: &ReclaimTarget, mounts: &Vec<String>) -> (r: u8)
    ensures
        r as nat == surface_rank(*target, views(mounts@)),
{
    if target.surfaces.len() == 0 {
        return 2;
    }
    if target.scope != TargetScope::SingleSurface {
        return 1;
    }
    let ghost mv = views(mounts@);
    let mut k: usize = 0;
    while k < target.surfaces.len()
        invariant
            k <= target.surfaces@.len(),
            target.surfaces@.len() > 0,
            target.scope == TargetScope::SingleSurface,
            mv == views(mounts@),
            forall|j: int| 0 <= j < k ==> !mv.contains(#[trigger] target.surfaces@[j]@),
        decreases target.surfaces.len() - k,
    {
        let mut m: usize = 0;
        while m < mounts.len()
            invariant
                k < target.surfaces@.len(),
                target.scope == TargetScope::SingleSurface,
                m <= mounts@.len(),
                mv == views(mounts@),
                forall|j: int| 0 <= j < m ==> mv[j] != target.surfaces@[k as int]@,
            decreases mounts.len() - m,
        {
            if same_chars(target.surfaces[k].as_str(), mounts[m].as_str()) {
                assert(mv[m as int] == target.surfaces@[k as int]@);
                assert(mv.contains(target.surfaces@[k as int]@));
                return 0;
            }
            m = m + 1;
        }
        k = k + 1;
    }
    1
}

/// The sort key of a target with surface rank `rank`: surface rank, tier
/// rank, larger estimate first, framework, variant.
pub open spec fn order_key(rank: nat, t: ReclaimTarget) -> (int, int, int, Seq<char>, Seq<char>) {
    (rank as int, tier_rank_of(t.tier@) as int, -(t.estimated_freed_bytes as int), t.framework@, t.variant@)
}

/// Lexicographic order on target sort keys.
pub open spec fn key_below(a: (int, int, int, Seq<char>, Seq<char>), b: (int, int, int, Seq<char>, Seq<char>)) -> bool {
    ||| a.0 < b.0
    ||| a.0 == b.0 && a.1 < b.1
    ||| a.0 == b.0 && a.1 == b.1 && a.2 < b.2
    ||| a.0 == b.0 && a.1 == b.1 && a.2 == b.2 && seq_lt(a.3, b.3)
    ||| a.0 == b.0 && a.1 == b.1 && a.2 == b.2 && a.3 == b.3 && seq_lt(a.4, b.4)
}

proof fn lemma_key_below_transitive(
    a: (int, int, int, Seq<char>, Seq<char>),
    b: (int, int, int, Seq<char>, Seq<char>),
    c: (int, int, int, Seq<char>, Seq<char>),
)
    requires
        key_below(a, b),
        key_below(b, c),
    ensures
        key_below(a, c),
{
    if a.0 == b.0 && b.0 == c.0 && a.1 == b.1 && b.1 == c.1 && a.2 == b.2 && b.2 == c.2 {
        if seq_lt(a.3, b.3) && seq_lt(b.3, c.3) {
            lemma_seq_lt_transitive(a.3, b.3, c.3);
        } else if a.3 == b.3 && b.3 == c.3 {
            lemma_seq_lt_transitive(a.4, b.4, c.4);
        }
    }
}

proof fn lemma_key_below_ties(a: (int, int, int, Seq<char>, Seq<char>), b: (int, int, int, Seq<char>, Seq<char>))
    requires
        !key_below(a, b),
        !key_below(b, a),
    ensures
        a == b,
{
    lemma_seq_lt_total(a.3, b.3);
    lemma_seq_lt_total(a.4, b.4);
}

/// A target with its surface rank, for sorting.
pub struct RankedTarget {
    pub rank: u8,
    pub target: ReclaimTarget,
}

impl SortKey for RankedTarget {
    open spec fn key_lt(self, other: Self) -> bool {
        key_below(order_key(self.rank as nat, self.target), order_key(other.rank as nat, other.target))
    }

    proof fn lemma_irreflexive(a: Self) {
        lemma_seq_lt_irreflexive(a.target.variant@);
        lemma_seq_lt_irreflexive(a.target.framework@);
    }

    proof fn lemma_transitive(a: Self, b: Self, c: Self) {
        lemma_key_below_transitive(
            order_key(a.rank as nat, a.target),
            order_key(b.rank as nat, b.target),
            order_key(c.rank as nat, c.target),
        );
    }

    proof fn lemma_ties_transitive(a: Self, b: Self, c: Self) {
        lemma_key_below_ties(order_key(a.rank as nat, a.target), order_key(b.rank as nat, b.target));
        lemma_key_below_ties(order_key(b.rank as nat, b.target), order_key(c.rank as nat, c.target));
        lemma_seq_lt_irreflexive(a.target.variant@);
        lemma_seq_lt_irreflexive(a.target.framework@);
    }

    fn less(&self, other: &Self) -> (r: bool) {
        let (a, b) = (&self.target, &other.target);
        if self.rank != other.rank {
            return self.rank < other.rank;
        }
        let (ta, tb) = (tier_priority(a.tier.as_str()), tier_priority(b.tier.as_str()));
        if ta != tb {
            return ta < tb;
        }
        if a.estimated_freed_bytes != b.estimated_freed_bytes {
            return a.estimated_freed_bytes > b.estimated_freed_bytes;
        }
        if !same_chars(a.framework.as_str(), b.framework.as_str()) {
            return str_lt(a.framework.as_str(), b.framework.as_str());
        }
        proof {
            lemma_seq_lt_irreflexive(a.framework@);
        }
        str_lt(a.variant.as_str(), b.variant.as_str())
    }
}

/// Target `a` (at `ia`, rank `ra`) is shown before `b` (at `ib`, rank
/// `rb`): a smaller key, or the same key and listed earlier.
pub open spec fn shown_before(ra: nat, a: ReclaimTarget, ia: int, rb: nat, b: ReclaimTarget, ib: int) -> bool {
    key_below(order_key(ra, a), order_key(rb, b)) || (order_key(ra, a) == order_key(rb, b) && ia < ib)
}

/// `out` is `ts` (with surface ranks `ranks`) rearranged by `p` into
/// display order.
pub open spec fn shown_with(ts: Seq<ReclaimTarget>, ranks: Seq<nat>, out: Seq<ReclaimTarget>, p: Seq<int>) -> bool {
    &&& is_permutation(p, ts.len())
    &&& out.len() == ts.len()
    &&& forall|i: int| 0 <= i < out.len() ==> #[trigger] out[i] == ts[p[i]]
    &&& forall|i: int, j: int|
        0 <= i < j < out.len() ==> shown_before(
            ranks[#[trigger] p[i]],
            ts[p[i]],
            p[i],
            ranks[#[trigger] p[j]],
            ts[p[j]],
            p[j],
        )
}

/// `out` is `ts` stably sorted into display order.
pub open spec fn shown_in_order(ts: Seq<ReclaimTarget>, ranks: Seq<nat>, out: Seq<ReclaimTarget>) -> bool {
    exists|p: Seq<int>| shown_with(ts, ranks, out, p)
}

/// The surface ranks of `ts` for a filesystem with mount points `mounts`.
pub open spec fn ranks_for(ts: Seq<ReclaimTarget>, mounts: Seq<Seq<char>>) -> Seq<nat> {
    ts.map_values(|t: ReclaimTarget| surface_rank(t, mounts))
}

/// Equal ranks for targets shown without a filesystem.
pub open spec fn no_ranks(n: nat) -> Seq<nat> {
    Seq::new(n, |i: int| 0nat)
}

fn sort_ranked(ranked: Vec<RankedTarget>) -> (out: Vec<ReclaimTarget>)
    ensures
        shown_in_order(
            ranked@.map_values(|r: RankedTarget| r.target),
            ranked@.map_values(|r: RankedTarget| r.rank as nat),
            out@,
        ),
{
    let ghost ts = ranked@.map_values(|r: RankedTarget| r.target);
    let ghost ranks = ranked@.map_values(|r: RankedTarget| r.rank as nat);
    let ghost rows = ranked@;
    let mut sorted = stable_sort(ranked);
    let ghost sv = sorted@;
    let mut out: Vec<ReclaimTarget> = Vec::new();
    while sorted.len() > 0
        invariant
            out@.len() + sorted@.len() == sv.len(),
            sorted@ == sv.skip(out@.len() as int),
            forall|i: int| 0 <= i < out@.len() ==> #[trigger] out@[i] == sv[i].target,
        decreases sorted.len(),
    {
        let r = sorted.remove(0);
        let ghost n = out@.len();
        assert(sv.skip(n as int)[0] == sv[n as int]);
        out.push(r.target);
        assert(sorted@ =~= sv.skip(out@.len() as int));
    }
    proof {
        let p = choose|p: Seq<int>| stably_sorted(rows, sv, p);
        assert forall|a: int, b: int| 0 <= a < b < out@.len() implies shown_before(
            ranks[#[trigger] p[a]],
            ts[p[a]],
            p[a],
            ranks[#[trigger] p[b]],
            ts[p[b]],
            p[b],
        ) by {
            assert(stable_before(rows[p[a]], p[a], rows[p[b]], p[b]));
            if !rows[p[a]].key_lt(rows[p[b]]) {
                lemma_key_below_ties(
                    order_key(rows[p[a]].rank as nat, rows[p[a]].target),
                    order_key(rows[p[b]].rank as nat, rows[p[b]].target),
                );
            }
        }
        assert forall|i: int| 0 <= i < out@.len() implies #[trigger] out@[i] == ts[p[i]] by {
            assert(sv[i] == rows[p[i]]);
        }
        assert(shown_with(ts, ranks, out@, p));
    }
    out
}

/// A filesystem's targets in display order: closest surface first, then
/// safer tier, larger estimate, framework and variant name; ties keep
/// their order.
pub fn sort_filesystem_targets(targets: Vec<ReclaimTarget>, mounts: &Vec<String>) -> (out: Vec<ReclaimTarget>)
    ensures
        shown_in_order(targets@, ranks_for(targets@, views(mounts@)), out@),
{
    let ghost ts = targets@;
    let mut rest = targets;
    let mut ranked: Vec<RankedTarget> = Vec::new();
    while rest.len() > 0
        invariant
            ranked@.len() + rest@.len() == ts.len(),
            rest@ == ts.skip(ranked@.len() as int),
            forall|i: int| 0 <= i < ranked@.len() ==> (#[trigger] ranked@[i]).target == ts[i] && ranked@[i].rank as nat
                == surface_rank(ts[i], views(mounts@)),
        decreases rest.len(),
    {
        let t = rest.remove(0);
        let ghost n = ranked@.len();
        assert(ts.skip(n as int)[0] == ts[n as int]);
        let rank = surface_priority(&t, mounts);
        ranked.push(RankedTarget { rank, target: t });
        assert(rest@ =~= ts.skip(ranked@.len() as int));
    }
    assert(ranked@.map_values(|r: RankedTarget| r.target) =~= ts);
    assert(ranked@.map_values(|r: RankedTarget| r.rank as nat) =~= ranks_for(ts, views(mounts@)));
    sort_ranked(ranked)
}

/// Targets shown without a filesystem, in display order: safer tier,
/// larger estimate, framework and variant name; ties keep their order.
pub fn sort_unassigned_targets(targets: Vec<ReclaimTarget>) -> (out: Vec<ReclaimTarget>)
    ensures
        shown_in_order(targets@, no_ranks(targets@.len()), out@),
{
    let ghost ts = targets@;
    let mut rest = targets;
    let mut ranked: Vec<RankedTarget> = Vec::new();
    while rest.len() > 0
        invariant
            ranked@.len() + rest@.len() == ts.len(),
            rest@ == ts.skip(ranked@.len() as int),
            forall|i: int| 0 <= i < ranked@.len() ==> (#[trigger] ranked@[i]).target == ts[i] && ranked@[i].rank == 0,
        decreases rest.len(),
    {
        let t = rest.remove(0);
        let ghost n = ranked@.len();
        assert(ts.skip(n as int)[0] == ts[n as int]);
        ranked.push(RankedTarget { rank: 0, target: t });
        assert(rest@ =~= ts.skip(ranked@.len() as int));
    }
    assert(ranked@.map_values(|r: RankedTarget| r.target) =~= ts);
    assert(ranked@.map_values(|r: RankedTarget| r.rank as nat) =~= no_ranks(ts.len()));
    sort_ranked(ranked)
}

// ---------------------------------------------------------------------------
// Totals
// ---------------------------------------------------------------------------

/// The sum of `s`.
pub open spec fn total(s: Seq<nat>) -> nat
    decreases s.len(),
{
    if s.len() == 0 {
        0
    } else {
        total(s.drop_last()) + s.last()
    }
}

/// A prefix sums to at most the whole.
pub proof fn lemma_total_prefix(s: Seq<nat>, i: int)
    requires
        0 <= i <= s.len(),
    ensures
        total(s.take(i)) <= total(s),
    decreases s.len() - i,
{
    if i < s.len() {
        lemma_total_prefix(s, i + 1);
        assert(s.take(i + 1).drop_last() =~= s.take(i));
    } else {
        assert(s.take(i) =~= s);
    }
}

/// Removing one element takes it out of the sum.
pub proof fn lemma_total_remove(s: Seq<nat>, j: int)
    requires
        0 <= j < s.len(),
    ensures
        total(s) == total(s.remove(j)) + s[j],
    decreases s.len(),
{
    if j < s.len() - 1 {
        assert(s.remove(j).drop_last() =~= s.drop_last().remove(j));
        assert(s.remove(j).last() == s.last());
        lemma_total_remove(s.drop_last(), j);
    } else {
        assert(s.remove(j) =~= s.drop_last());
    }
}

/// A rearrangement has the same sum.
pub proof fn lemma_total_permuted(a: Seq<nat>, b: Seq<nat>, p: Seq<int>)
    requires
        is_permutation(p, a.len()),
        b.len() == a.len(),
        forall|i: int| 0 <= i < b.len() ==> b[i] == a[p[i]],
    ensures
        total(b) == total(a),
    decreases a.len(),
{
    if a.len() > 0 {
        let n = a.len() as int;
        let j = p[n - 1];
        let a2 = a.remove(j);
        let b2 = b.drop_last();
        let p2 = Seq::new((n - 1) as nat, |i: int| if p[i] < j { p[i] } else { p[i] - 1 });
        assert forall|i: int| 0 <= i < n - 1 implies 0 <= #[trigger] p2[i] < n - 1 by {
            assert(p[i] != p[n - 1]);
        }
        assert forall|x: int, y: int| 0 <= x < y < n - 1 implies #[trigger] p2[x] != #[trigger] p2[y] by {
            assert(p[x] != p[y]);
            assert(p[x] != j && p[y] != j);
        }
        assert forall|i: int| 0 <= i < b2.len() implies b2[i] == a2[p2[i]] by {
            assert(p[i] != j);
        }
        assert forall|k: int| 0 <= k < n - 1 implies p2.contains(k) by {
            let orig = if k < j { k } else { k + 1 };
            assert(p.contains(orig));
            let i = choose|i: int| 0 <= i < p.len() && p[i] == orig;
            assert(i != n - 1);
            assert(p2[i] == k);
        }
        lemma_total_permuted(a2, b2, p2);
        lemma_total_remove(a, j);
    }
}

/// A target the tier policy held back.
pub open spec fn is_skipped(t: ReclaimTarget) -> bool {
    t.status@ == "skipped"@
}

/// The estimate of `t` where it was skipped, else 0.
pub open spec fn skipped_part(t: ReclaimTarget) -> nat {
    if is_skipped(t) {
        t.estimated_freed_bytes as nat
    } else {
        0
    }
}

/// The estimate of `t` where it was not skipped, else 0.
pub open spec fn live_part(t: ReclaimTarget) -> nat {
    if is_skipped(t) {
        0
    } else {
        t.estimated_freed_bytes as nat
    }
}

/// 1 where `t` was skipped, else 0.
pub open spec fn skipped_one(t: ReclaimTarget) -> nat {
    if is_skipped(t) {
        1
    } else {
        0
    }
}

/// The skipped estimate of `ts`.
pub open spec fn skipped_bytes(ts: Seq<ReclaimTarget>) -> nat {
    total(ts.map_values(|t: ReclaimTarget| skipped_part(t)))
}

/// The estimate of the targets of `ts` that were not skipped.
pub open spec fn live_bytes(ts: Seq<ReclaimTarget>) -> nat {
    total(ts.map_values(|t: ReclaimTarget| live_part(t)))
}

/// The number of skipped targets of `ts`.
pub open spec fn skipped_count(ts: Seq<ReclaimTarget>) -> nat {
    total(ts.map_values(|t: ReclaimTarget| skipped_one(t)))
}

/// The number of targets on the filesystems `fss`.
pub open spec fn fs_target_count(fss: Seq<ReclaimFilesystem>) -> nat {
    total(fss.map_values(|f: ReclaimFilesystem| f.targets@.len()))
}

/// The estimates of the filesystems `fss`.
pub open spec fn fs_estimated(fss: Seq<ReclaimFilesystem>) -> nat {
    total(fss.map_values(|f: ReclaimFilesystem| f.estimated_freed_bytes as nat))
}

/// The skipped estimate over the targets of `fss`.
pub open spec fn fs_skipped_bytes(fss: Seq<ReclaimFilesystem>) -> nat {
    total(fss.map_values(|f: ReclaimFilesystem| skipped_bytes(f.targets@)))
}

/// The number of skipped targets of `fss`.
pub open spec fn fs_skipped_count(fss: Seq<ReclaimFilesystem>) -> nat {
    total(fss.map_values(|f: ReclaimFilesystem| skipped_count(f.targets@)))
}

/// The space the filesystems `fss` should gain.
pub open spec fn fs_target_free(fss: Seq<ReclaimFilesystem>) -> nat {
    total(fss.map_values(|f: ReclaimFilesystem| f.target_free_bytes as nat))
}

/// How far `f`'s estimate falls short of its goal, 0 where it reaches it.
pub open spec fn shortfall(f: ReclaimFilesystem) -> nat {
    if f.target_free_bytes > f.estimated_freed_bytes {
        (f.target_free_bytes - f.estimated_freed_bytes) as nat
    } else {
        0
    }
}

/// The shortfalls of the filesystems `fss`.
pub open spec fn fs_shortfall(fss: Seq<ReclaimFilesystem>) -> nat {
    total(fss.map_values(|f: ReclaimFilesystem| shortfall(f)))
}

/// `a + b`, or `u64::MAX` where that overflows.
pub open spec fn sat_add(a: u64, b: u64) -> u64 {
    if a + b > u64::MAX {
        u64::MAX
    } else {
        (a + b) as u64
    }
}

/// The sums that the totals take fit their integer types.
pub open spec fn totals_fit(fss: Seq<ReclaimFilesystem>, ts: Seq<ReclaimTarget>) -> bool {
    &&& fs_target_count(fss) + ts.len() <= usize::MAX
    &&& fs_estimated(fss) <= u64::MAX
    &&& live_bytes(ts) <= u64::MAX
    &&& fs_skipped_bytes(fss) + skipped_bytes(ts) <= u64::MAX
    &&& fs_skipped_count(fss) + skipped_count(ts) <= usize::MAX
    &&& fs_target_free(fss) <= u64::MAX
    &&& fs_shortfall(fss) <= u64::MAX
}

/// The totals of a plan with filesystems `fss` and unassigned targets `ts`:
/// every filesystem in the plan is over the threshold; the estimate adds
/// the filesystems' estimates to the unskipped unassigned ones (with
/// saturation); skipped targets are counted everywhere.
pub open spec fn totals_of(fss: Seq<ReclaimFilesystem>, ts: Seq<ReclaimTarget>) -> ReclaimTotals {
    ReclaimTotals {
        filesystems_total: fss.len() as usize,
        filesystems_over_threshold: fss.len() as usize,
        targets_total: (fs_target_count(fss) + ts.len()) as usize,
        skipped_targets: (fs_skipped_count(fss) + skipped_count(ts)) as usize,
        total_estimated_freed_bytes: sat_add(fs_estimated(fss) as u64, live_bytes(ts) as u64),
        skipped_estimated_freed_bytes: (fs_skipped_bytes(fss) + skipped_bytes(ts)) as u64,
        total_target_free_bytes: fs_target_free(fss) as u64,
        total_goal_shortfall_bytes: fs_shortfall(fss) as u64,
        total_actual_freed_bytes: None,
    }
}

fn is_skipped_exec(t: &ReclaimTarget) -> (r: bool)
    ensures
        r == is_skipped(*t),
{
    same_chars(t.status.as_str(), "skipped")
}

/// Skipped count, skipped estimate and unskipped estimate of `ts`.
fn target_sums(ts: &Vec<ReclaimTarget>) -> (r: (u128, u128, u128))
    ensures
        r.0 as nat == skipped_count(ts@),
        r.1 as nat == skipped_bytes(ts@),
        r.2 as nat == live_bytes(ts@),
        r.0 <= u64::MAX,
        r.1 <= (u64::MAX as int) * (u64::MAX as int),
        r.2 <= (u64::MAX as int) * (u64::MAX as int),
{
    let ghost c = ts@.map_values(|t: ReclaimTarget| skipped_one(t));
    let ghost sb = ts@.map_values(|t: ReclaimTarget| skipped_part(t));
    let ghost lb = ts@.map_values(|t: ReclaimTarget| live_part(t));
    let mut count: u128 = 0;
    let mut skipped: u128 = 0;
    let mut live: u128 = 0;
    let mut i: usize = 0;
    assert(c.take(0) =~= Seq::<nat>::empty());
    assert(sb.take(0) =~= Seq::<nat>::empty());
    assert(lb.take(0) =~= Seq::<nat>::empty());
    while i < ts.len()
        invariant
            i <= ts@.len(),
            c == ts@.map_values(|t: ReclaimTarget| skipped_one(t)),
            sb == ts@.map_values(|t: ReclaimTarget| skipped_part(t)),
            lb == ts@.map_values(|t: ReclaimTarget| live_part(t)),
            count as nat == total(c.take(i as int)),
            skipped as nat == total(sb.take(i as int)),
            live as nat == total(lb.take(i as int)),
            count <= i,
            skipped <= i * (u64::MAX as int),
            live <= i * (u64::MAX as int),
        decreases ts.len() - i,
    {
        assert(c.take(i + 1).drop_last() =~= c.take(i as int));
        assert(sb.take(i + 1).drop_last() =~= sb.take(i as int));
        assert(lb.take(i + 1).drop_last() =~= lb.take(i as int));
        assert((i + 1) * (u64::MAX as int) <= 0x1_0000_0000_0000_0000 * (u64::MAX as int)) by (nonlinear_arith)
            requires
                i + 1 <= 0x1_0000_0000_0000_0000,
        ;
        assert((i + 1) * (u64::MAX as int) == i * (u64::MAX as int) + u64::MAX) by (nonlinear_arith);
        if is_skipped_exec(&ts[i]) {
            count = count + 1;
            skipped = skipped + ts[i].estimated_freed_bytes as u128;
        } else {
            live = live + ts[i].estimated_freed_bytes as u128;
        }
        i = i + 1;
    }
    assert(c.take(ts@.len() as int) =~= c);
    assert(sb.take(ts@.len() as int) =~= sb);
    assert(lb.take(ts@.len() as int) =~= lb);
    assert(i * (u64::MAX as int) <= (u64::MAX as int) * (u64::MAX as int)) by (nonlinear_arith)
        requires
            i <= u64::MAX,
    ;
    (count, skipped, live)
}

/// The totals of a plan with filesystems `filesystems` and unassigned
/// targets `unassigned`; `None` exactly where one of its sums would
/// overflow its integer type.
pub fn compute_totals(filesystems: &Vec<ReclaimFilesystem>, unassigned: &Vec<ReclaimTarget>) -> (r: Option<ReclaimTotals>)
    ensures
        r is Some <==> totals_fit(filesystems@, unassigned@),
        r matches Some(t) ==> t == totals_of(filesystems@, unassigned@),
{
    let ghost fss = filesystems@;
    let ghost p0 = fss.map_values(|f: ReclaimFilesystem| f.targets@.len());
    let ghost p1 = fss.map_values(|f: ReclaimFilesystem| f.estimated_freed_bytes as nat);
    let ghost p2 = fss.map_values(|f: ReclaimFilesystem| skipped_bytes(f.targets@));
    let ghost p3 = fss.map_values(|f: ReclaimFilesystem| skipped_count(f.targets@));
    let ghost p4 = fss.map_values(|f: ReclaimFilesystem| f.target_free_bytes as nat);
    let ghost p5 = fss.map_values(|f: ReclaimFilesystem| shortfall(f));
    let (u_count, u_skipped, u_live) = target_sums(unassigned);
    let mut count: u128 = 0;
    let mut estimated: u128 = 0;
    let mut skipped_b: u128 = 0;
    let mut skipped_c: u128 = 0;
    let mut target_free: u128 = 0;
    let mut short: u128 = 0;
    let mut i: usize = 0;
    assert(p0.take(0) =~= Seq::<nat>::empty());
    assert(p1.take(0) =~= Seq::<nat>::empty());
    assert(p2.take(0) =~= Seq::<nat>::empty());
    assert(p3.take(0) =~= Seq::<nat>::empty());
    assert(p4.take(0) =~= Seq::<nat>::empty());
    assert(p5.take(0) =~= Seq::<nat>::empty());
    while i < filesystems.len()
        invariant
            i <= fss.len(),
            fss == filesystems@,
            p0 == fss.map_values(|f: ReclaimFilesystem| f.targets@.len()),
            p1 == fss.map_values(|f: ReclaimFilesystem| f.estimated_freed_bytes as nat),
            p2 == fss.map_values(|f: ReclaimFilesystem| skipped_bytes(f.targets@)),
            p3 == fss.map_values(|f: ReclaimFilesystem| skipped_count(f.targets@)),
            p4 == fss.map_values(|f: ReclaimFilesystem| f.target_free_bytes as nat),
            p5 == fss.map_values(|f: ReclaimFilesystem| shortfall(f)),
            count as nat == total(p0.take(i as int)),
            estimated as nat == total(p1.take(i as int)),
            skipped_b as nat == total(p2.take(i as int)),
            skipped_c as nat == total(p3.take(i as int)),
            target_free as nat == total(p4.take(i as int)),
            short as nat == total(p5.take(i as int)),
            count <= usize::MAX,
            estimated <= u64::MAX,
            skipped_b <= u64::MAX,
            skipped_c <= usize::MAX,
            target_free <= u64::MAX,
            short <= u64::MAX,
        decreases filesystems.len() - i,
    {
        let f = &filesystems[i];
        let (sc, sb, _) = target_sums(&f.targets);
        let gap: u64 = if f.target_free_bytes > f.estimated_freed_bytes {
            f.target_free_bytes - f.estimated_freed_bytes
        } else {
            0
        };
        count = count + f.targets.len() as u128;
        estimated = estimated + f.estimated_freed_bytes as u128;
        skipped_b = skipped_b + sb;
        skipped_c = skipped_c + sc;
        target_free = target_free + f.target_free_bytes as u128;
        short = short + gap as u128;
        proof {
            assert(p0.take(i + 1).drop_last() =~= p0.take(i as int));
            assert(p1.take(i + 1).drop_last() =~= p1.take(i as int));
            assert(p2.take(i + 1).drop_last() =~= p2.take(i as int));
            assert(p3.take(i + 1).drop_last() =~= p3.take(i as int));
            assert(p4.take(i + 1).drop_last() =~= p4.take(i as int));
            assert(p5.take(i + 1).drop_last() =~= p5.take(i as int));
            lemma_total_prefix(p0, i + 1);
            lemma_total_prefix(p1, i + 1);
            lemma_total_prefix(p2, i + 1);
            lemma_total_prefix(p3, i + 1);
            lemma_total_prefix(p4, i + 1);
            lemma_total_prefix(p5, i + 1);
        }
        if count > usize::MAX as u128 || estimated > u64::MAX as u128 || skipped_b > u64::MAX as u128
            || skipped_c > usize::MAX as u128 || target_free > u64::MAX as u128 || short > u64::MAX as u128 {
            return None;
        }
        i = i + 1;
    }
    assert(p0.take(fss.len() as int) =~= p0);
    assert(p1.take(fss.len() as int) =~= p1);
    assert(p2.take(fss.len() as int) =~= p2);
    assert(p3.take(fss.len() as int) =~= p3);
    assert(p4.take(fss.len() as int) =~= p4);
    assert(p5.take(fss.len() as int) =~= p5);
    if count + unassigned.len() as u128 > usize::MAX as u128 || u_live > u64::MAX as u128 || skipped_b
        + u_skipped > u64::MAX as u128 || skipped_c + u_count > usize::MAX as u128 {
        return None;
    }
    let fs_estimate = estimated as u64;
    let live = u_live as u64;
    Some(
        ReclaimTotals {
            filesystems_total: filesystems.len(),
            filesystems_over_threshold: filesystems.len(),
            targets_total: (count + unassigned.len() as u128) as usize,
            skipped_targets: (skipped_c + u_count) as usize,
            total_estimated_freed_bytes: fs_estimate.saturating_add(live),
            skipped_estimated_freed_bytes: (skipped_b + u_skipped) as u64,
            total_target_free_bytes: target_free as u64,
            total_goal_shortfall_bytes: short as u64,
            total_actual_freed_bytes: None,
        },
    )
}

// ---------------------------------------------------------------------------
// Placing targets on filesystems
// ---------------------------------------------------------------------------

/// The key of a filesystem in a plan.
pub open spec fn report_key(f: ReclaimFilesystem) -> Seq<char> {
    key_text(f.device@, f.maj_min@, f.fstype@, opt_view(f.fsroot))
}

/// The keys of the filesystems of a plan.
pub open spec fn report_keys(fss: Seq<ReclaimFilesystem>) -> Seq<Seq<char>> {
    fss.map_values(|f: ReclaimFilesystem| report_key(f))
}

/// The position of the first of `keys` equal to `k`.
pub open spec fn first_index_of(keys: Seq<Seq<char>>, k: Seq<char>) -> Option<int>
    decreases keys.len(),
{
    if keys.len() == 0 {
        None
    } else {
        match first_index_of(keys.drop_last(), k) {
            Some(i) => Some(i),
            None => if keys.last() == k {
                Some(keys.len() - 1)
            } else {
                None
            },
        }
    }
}

/// The filesystem a resolved target is listed under: a single-surface
/// target goes to the first filesystem of the plan with its key.
pub open spec fn home_of(r: ResolvedTarget, keys: Seq<Seq<char>>) -> Option<int> {
    if r.target.scope == TargetScope::SingleSurface && r.filesystem_keys@.len() > 0 {
        first_index_of(keys, r.filesystem_keys@[0]@)
    } else {
        None
    }
}

/// A target is listed in one place at most: one that has a filesystem in
/// the plan is never also listed with the unassigned targets.
pub proof fn lemma_listed_once(r: ResolvedTarget, keys: Seq<Seq<char>>, selected: Seq<Seq<char>>, mount_requested: bool)
    requires
        home_of(r, keys) is Some,
    ensures
        !listed_unassigned(r, selected, mount_requested),
{
}

/// Whether a resolved target is listed with the unassigned targets: one
/// that spans filesystems when all (with `--mount`) or any (without) of
/// them are selected; one on no filesystem only without `--mount`.
pub open spec fn listed_unassigned(r: ResolvedTarget, selected: Seq<Seq<char>>, mount_requested: bool) -> bool {
    match r.target.scope {
        TargetScope::MultiSurface => if mount_requested {
            forall|k: int| 0 <= k < r.filesystem_keys@.len() ==> selected.contains(#[trigger] r.filesystem_keys@[k]@)
        } else {
            exists|k: int| 0 <= k < r.filesystem_keys@.len() && selected.contains(#[trigger] r.filesystem_keys@[k]@)
        },
        TargetScope::Unassigned => !mount_requested,
        TargetScope::SingleSurface => false,
    }
}

/// The targets of `rs` listed under filesystem `f`, in order.
pub open spec fn targets_for(rs: Seq<ResolvedTarget>, keys: Seq<Seq<char>>, f: int) -> Seq<ReclaimTarget>
    decreases rs.len(),
{
    if rs.len() == 0 {
        Seq::empty()
    } else {
        let prev = targets_for(rs.drop_last(), keys, f);
        if home_of(rs.last(), keys) == Some(f) {
            prev.push(rs.last().target)
        } else {
            prev
        }
    }
}

/// The targets of `rs` listed with the unassigned ones, in order.
pub open spec fn unassigned_of(rs: Seq<ResolvedTarget>, selected: Seq<Seq<char>>, mount_requested: bool) -> Seq<ReclaimTarget>
    decreases rs.len(),
{
    if rs.len() == 0 {
        Seq::empty()
    } else {
        let prev = unassigned_of(rs.drop_last(), selected, mount_requested);
        if listed_unassigned(rs.last(), selected, mount_requested) {
            prev.push(rs.last().target)
        } else {
            prev
        }
    }
}

/// `base` with the estimates of the unskipped targets of `ts` added in
/// turn, each addition saturating.
pub open spec fn estimate_after(base: u64, ts: Seq<ReclaimTarget>) -> u64
    decreases ts.len(),
{
    if ts.len() == 0 {
        base
    } else {
        let prev = estimate_after(base, ts.drop_last());
        if is_skipped(ts.last()) {
            prev
        } else {
            sat_add(prev, ts.last().estimated_freed_bytes)
        }
    }
}

/// A filesystem's estimated reclaim counts only the targets that will run:
/// starting from `base`, it is `base` plus the estimates of the targets
/// that were not skipped, capped at `u64::MAX`; a skipped target adds
/// nothing.
pub proof fn lemma_estimate_counts_live_targets(base: u64, ts: Seq<ReclaimTarget>)
    ensures
        estimate_after(base, ts) as int == if base + live_bytes(ts) > u64::MAX {
            u64::MAX as int
        } else {
            base + live_bytes(ts)
        },
    decreases ts.len(),
{
    if ts.len() > 0 {
        lemma_estimate_counts_live_targets(base, ts.drop_last());
        let parts = ts.map_values(|t: ReclaimTarget| live_part(t));
        assert(parts.drop_last() =~= ts.drop_last().map_values(|t: ReclaimTarget| live_part(t)));
        assert(parts.last() == live_part(ts.last()));
    }
}

/// `a` and `b` agree on everything but their targets and estimate.
pub open spec fn same_report(a: ReclaimFilesystem, b: ReclaimFilesystem) -> bool {
    &&& a.device == b.device
    &&& a.fstype == b.fstype
    &&& a.maj_min == b.maj_min
    &&& a.fsroot == b.fsroot
    &&& a.mounts == b.mounts
    &&& a.total_bytes == b.total_bytes
    &&& a.used_bytes == b.used_bytes
    &&& a.available_bytes == b.available_bytes
    &&& a.target_free_bytes == b.target_free_bytes
    &&& a.actual_freed_bytes == b.actual_freed_bytes
    &&& a.final_available_bytes == b.final_available_bytes
    &&& a.goal_met == b.goal_met
}

fn find_key(keys: &Vec<String>, k: &str) -> (r: Option<usize>)
    ensures
        match r {
            Some(i) => first_index_of(views(keys@), k@) == Some(i as int),
            None => first_index_of(views(keys@), k@) is None,
        },
{
    let ghost kv = views(keys@);
    let mut i: usize = 0;
    assert(kv.take(0) =~= Seq::<Seq<char>>::empty());
    while i < keys.len()
        invariant
            i <= keys@.len(),
            kv == views(keys@),
            first_index_of(kv.take(i as int), k@) is None,
        decreases keys.len() - i,
    {
        assert(kv.take(i + 1).drop_last() =~= kv.take(i as int));
        if same_chars(keys[i].as_str(), k) {
            proof {
                lemma_first_index_extends(kv, k@, i + 1);
            }
            return Some(i);
        }
        i = i + 1;
    }
    assert(kv.take(keys@.len() as int) =~= kv);
    None
}

/// The first index of `k` is an index of `k`.
proof fn lemma_first_index_in(keys: Seq<Seq<char>>, k: Seq<char>)
    ensures
        first_index_of(keys, k) matches Some(i) ==> 0 <= i < keys.len() && keys[i] == k,
    decreases keys.len(),
{
    if keys.len() > 0 {
        lemma_first_index_in(keys.drop_last(), k);
    }
}

/// Once found in a prefix, the first index stays the same.
proof fn lemma_first_index_extends(keys: Seq<Seq<char>>, k: Seq<char>, n: int)
    requires
        0 <= n <= keys.len(),
        first_index_of(keys.take(n), k) is Some,
    ensures
        first_index_of(keys, k) == first_index_of(keys.take(n), k),
    decreases keys.len() - n,
{
    if n < keys.len() {
        assert(keys.take(n + 1).drop_last() =~= keys.take(n));
        lemma_first_index_extends(keys, k, n + 1);
    } else {
        assert(keys.take(n) =~= keys);
    }
}

fn all_selected(keys: &Vec<String>, selected: &Vec<String>) -> (r: bool)
    ensures
        r == forall|k: int| 0 <= k < keys@.len() ==> views(selected@).contains(#[trigger] keys@[k]@),
{
    let mut i: usize = 0;
    while i < keys.len()
        invariant
            i <= keys@.len(),
            forall|k: int| 0 <= k < i ==> views(selected@).contains(#[trigger] keys@[k]@),
        decreases keys.len() - i,
    {
        if !contains_text(selected, keys[i].as_str()) {
            return false;
        }
        i = i + 1;
    }
    true
}

fn any_selected(keys: &Vec<String>, selected: &Vec<String>) -> (r: bool)
    ensures
        r == exists|k: int| 0 <= k < keys@.len() && views(selected@).contains(#[trigger] keys@[k]@),
{
    let mut i: usize = 0;
    while i < keys.len()
        invariant
            i <= keys@.len(),
            forall|k: int| 0 <= k < i ==> !views(selected@).contains(#[trigger] keys@[k]@),
        decreases keys.len() - i,
    {
        if contains_text(selected, keys[i].as_str()) {
            return true;
        }
        i = i + 1;
    }
    false
}

/// Whether `v` holds the text `x`.
pub fn contains_text(v: &Vec<String>, x: &str) -> (r: bool)
    ensures
        r == views(v@).contains(x@),
{
    let mut i: usize = 0;
    while i < v.len()
        invariant
            i <= v@.len(),
            forall|j: int| 0 <= j < i ==> views(v@)[j] != x@,
        decreases v.len() - i,
    {
        if same_chars(v[i].as_str(), x) {
            assert(views(v@)[i as int] == x@);
            return true;
        }
        i = i + 1;
    }
    false
}

/// Lists each resolved target, in order: a single-surface one under the
/// first filesystem with its key (its estimate added to the filesystem's,
/// with saturation, unless skipped) or nowhere if no such filesystem is in
/// the plan; the others with the unassigned targets where
/// `listed_unassigned` says so. Returns the unassigned targets.
pub fn place_targets(
    filesystems: &mut Vec<ReclaimFilesystem>,
    resolved: Vec<ResolvedTarget>,
    selected: &Vec<String>,
    mount_requested: bool,
) -> (unassigned: Vec<ReclaimTarget>)
    ensures
        final(filesystems)@.len() == old(filesystems)@.len(),
        forall|f: int| 0 <= f < old(filesystems)@.len() ==> {
            let a = #[trigger] old(filesystems)@[f];
            let b = final(filesystems)@[f];
            let placed = targets_for(resolved@, report_keys(old(filesystems)@), f);
            &&& same_report(a, b)
            &&& b.targets@ == a.targets@ + placed
            &&& b.estimated_freed_bytes == estimate_after(a.estimated_freed_bytes, placed)
        },
        unassigned@ == unassigned_of(resolved@, views(selected@), mount_requested),
{
    let ghost rs = resolved@;
    let ghost start = filesystems@;
    let ghost keys = report_keys(filesystems@);
    let ghost sel = views(selected@);
    let mut fs_keys: Vec<String> = Vec::new();
    let mut j: usize = 0;
    while j < filesystems.len()
        invariant
            j <= filesystems@.len(),
            filesystems@ == start,
            keys == report_keys(start),
            views(fs_keys@) == keys.take(j as int),
        decreases filesystems.len() - j,
    {
        let k = fs_key_from_report(&filesystems[j]);
        let ghost before = fs_keys@;
        fs_keys.push(k);
        assert(views(fs_keys@) =~= views(before).push(k@));
        j = j + 1;
        assert(views(fs_keys@) =~= keys.take(j as int));
    }
    assert(keys.take(start.len() as int) =~= keys);
    let count = resolved.len();
    let mut rest = resolved;
    let mut unassigned: Vec<ReclaimTarget> = Vec::new();
    let mut n: usize = 0;
    assert(rs.take(0) =~= Seq::<ResolvedTarget>::empty());
    while rest.len() > 0
        invariant
            n <= rs.len(),
            rs.len() == count,
            rest@ == rs.skip(n as int),
            views(fs_keys@) == keys,
            keys == report_keys(start),
            sel == views(selected@),
            filesystems@.len() == start.len(),
            forall|f: int| 0 <= f < start.len() ==> {
                let a = #[trigger] start[f];
                let b = filesystems@[f];
                let placed = targets_for(rs.take(n as int), keys, f);
                &&& same_report(a, b)
                &&& b.targets@ == a.targets@ + placed
                &&& b.estimated_freed_bytes == estimate_after(a.estimated_freed_bytes, placed)
            },
            unassigned@ == unassigned_of(rs.take(n as int), sel, mount_requested),
        decreases rest.len(),
    {
        assert(rest@.len() == rs.len() - n);
        let r = rest.remove(0);
        assert(rs.skip(n as int)[0] == rs[n as int]);
        assert(rs.take(n + 1).drop_last() =~= rs.take(n as int));
        assert(rs.take(n + 1).last() == r);
        let ghost before_fs = filesystems@;
        let ghost before_un = unassigned@;
        let ghost home = home_of(r, keys);
        let ghost listed = listed_unassigned(r, sel, mount_requested);
        let ResolvedTarget { target, filesystem_keys } = r;
        match target.scope {
            TargetScope::SingleSurface => {
                if filesystem_keys.len() > 0 {
                    match find_key(&fs_keys, filesystem_keys[0].as_str()) {
                        Some(f) => {
                            proof {
                                lemma_first_index_in(keys, filesystem_keys@[0]@);
                            }
                            let mut fs = filesystems.remove(f);
                            if !is_skipped_exec(&target) {
                                fs.estimated_freed_bytes = fs.estimated_freed_bytes.saturating_add(
                                    target.estimated_freed_bytes,
                                );
                            }
                            fs.targets.push(target);
                            filesystems.insert(f, fs);
                        },
                        None => {},
                    }
                }
            },
            TargetScope::MultiSurface => {
                let wanted = if mount_requested {
                    all_selected(&filesystem_keys, selected)
                } else {
                    any_selected(&filesystem_keys, selected)
                };
                if wanted {
                    unassigned.push(target);
                }
            },
            TargetScope::Unassigned => {
                if !mount_requested {
                    unassigned.push(target);
                }
            },
        }
        n = n + 1;
        assert(rest@ =~= rs.skip(n as int));
        assert forall|f: int| 0 <= f < start.len() implies {
            let a = #[trigger] start[f];
            let b = filesystems@[f];
            let placed = targets_for(rs.take(n as int), keys, f);
            &&& same_report(a, b)
            &&& b.targets@ == a.targets@ + placed
            &&& b.estimated_freed_bytes == estimate_after(a.estimated_freed_bytes, placed)
        } by {
            let prev = targets_for(rs.take(n - 1), keys, f);
            if home == Some(f) {
                assert(targets_for(rs.take(n as int), keys, f) == prev.push(r.target));
                assert((prev.push(r.target)).drop_last() =~= prev);
                assert(filesystems@[f].targets@ =~= start[f].targets@ + prev.push(r.target));
            } else {
                assert(filesystems@[f] == before_fs[f]);
            }
        }
    }
    assert(rs.take(rs.len() as int) =~= rs);
    unassigned
}

// ---------------------------------------------------------------------------
// Assembling a plan
// ---------------------------------------------------------------------------

/// `f` is the plan entry for group `g` with space goal `target_free`,
/// before any target is placed on it.
pub open spec fn report_of(f: ReclaimFilesystem, g: GroupView, target_free: u64) -> bool {
    &&& f.device@ == g.device
    &&& f.fstype@ == g.fstype
    &&& f.maj_min@ == g.representative.maj_min
    &&& opt_view(f.fsroot) == g.representative.fsroot
    &&& views(f.mounts@) == g.mounts.map_values(|m: MountView| m.mount_point)
    &&& f.total_bytes == g.representative.total_bytes
    &&& f.used_bytes == g.representative.used_bytes
    &&& f.available_bytes == g.representative.available_bytes
    &&& f.target_free_bytes == target_free
    &&& f.estimated_freed_bytes == 0
    &&& f.actual_freed_bytes is None
    &&& f.final_available_bytes is None
    &&& f.goal_met is None
    &&& f.targets@.len() == 0
}

/// The plan entry for a group, with the space it should gain; its usage
/// percentage follows from its byte counts.
pub fn filesystem_report(group: &FilesystemGroup, target_free_bytes: u64) -> (r: ReclaimFilesystem)
    ensures
        report_of(r, group@, target_free_bytes),
{
    let rep = &group.representative;
    let mut mounts: Vec<String> = Vec::new();
    let mut i: usize = 0;
    while i < group.mounts.len()
        invariant
            i <= group.mounts@.len(),
            views(mounts@) == mount_views(group.mounts@).take(i as int).map_values(|m: MountView| m.mount_point),
        decreases group.mounts.len() - i,
    {
        let ghost before = mounts@;
        mounts.push(copy_str(group.mounts[i].mount_point.as_str()));
        assert(views(mounts@) =~= views(before).push(group.mounts@[i as int].mount_point@));
        i = i + 1;
        assert(views(mounts@) =~= mount_views(group.mounts@).take(i as int).map_values(|m: MountView| m.mount_point));
    }
    assert(mount_views(group.mounts@).take(group.mounts@.len() as int) =~= mount_views(group.mounts@));
    ReclaimFilesystem {
        device: copy_str(group.device.as_str()),
        fstype: copy_str(group.fstype.as_str()),
        maj_min: copy_str(rep.maj_min.as_str()),
        fsroot: copy_opt(&rep.fsroot),
        mounts,
        total_bytes: rep.total_bytes,
        used_bytes: rep.used_bytes,
        available_bytes: rep.available_bytes,
        target_free_bytes,
        estimated_freed_bytes: 0,
        actual_freed_bytes: None,
        final_available_bytes: None,
        goal_met: None,
        targets: Vec::new(),
    }
}

/// The positions of the groups whose keys are selected, in order.
pub open spec fn chosen(gs: Seq<GroupView>, selected: Seq<Seq<char>>) -> Seq<int>
    decreases gs.len(),
{
    if gs.len() == 0 {
        Seq::empty()
    } else {
        let prev = chosen(gs.drop_last(), selected);
        if selected.contains(gs.last().key) {
            prev.push(gs.len() - 1)
        } else {
            prev
        }
    }
}

proof fn lemma_chosen_bounds(gs: Seq<GroupView>, selected: Seq<Seq<char>>)
    ensures
        forall|i: int| 0 <= i < chosen(gs, selected).len() ==> 0 <= #[trigger] chosen(gs, selected)[i] < gs.len(),
    decreases gs.len(),
{
    if gs.len() > 0 {
        lemma_chosen_bounds(gs.drop_last(), selected);
        let prev = chosen(gs.drop_last(), selected);
        assert forall|i: int| 0 <= i < chosen(gs, selected).len() implies 0 <= #[trigger] chosen(gs, selected)[i] < gs.len() by {
            if i < prev.len() {
                assert(chosen(gs, selected)[i] == prev[i]);
            }
        }
    }
}

/// The plan for the selected filesystems: one entry per group whose key
/// is selected, in group order, with the goal `target_free[g]` of its
/// group; each resolved target placed as `place_targets` does; the
/// targets of each filesystem and the unassigned ones in display order.
pub fn plan(
    groups: &Vec<FilesystemGroup>,
    selected: &Vec<String>,
    target_free: &Vec<u64>,
    resolved: Vec<ResolvedTarget>,
    mount_requested: bool,
) -> (r: (Vec<ReclaimFilesystem>, Vec<ReclaimTarget>))
    requires
        target_free@.len() == groups@.len(),
    ensures
        ({
            let gs = group_views(groups@);
            let picked = chosen(gs, views(selected@));
            let fss = r.0@;
            &&& fss.len() == picked.len()
            &&& forall|i: int| 0 <= i < fss.len() ==> {
                let g = #[trigger] picked[i];
                let f = fss[i];
                let placed = targets_for(resolved@, report_keys(fss), i);
                &&& f.device@ == gs[g].device
                &&& f.fstype@ == gs[g].fstype
                &&& f.maj_min@ == gs[g].representative.maj_min
                &&& opt_view(f.fsroot) == gs[g].representative.fsroot
                &&& views(f.mounts@) == gs[g].mounts.map_values(|m: MountView| m.mount_point)
                &&& f.total_bytes == gs[g].representative.total_bytes
                &&& f.used_bytes == gs[g].representative.used_bytes
                &&& f.available_bytes == gs[g].representative.available_bytes
                &&& f.target_free_bytes == target_free@[g]
                &&& f.actual_freed_bytes is None
                &&& f.final_available_bytes is None
                &&& f.goal_met is None
                &&& f.estimated_freed_bytes == estimate_after(0, placed)
                &&& shown_in_order(placed, ranks_for(placed, views(f.mounts@)), f.targets@)
            }
            &&& shown_in_order(
                unassigned_of(resolved@, views(selected@), mount_requested),
                no_ranks(unassigned_of(resolved@, views(selected@), mount_requested).len()),
                r.1@,
            )
        }),
{
    let ghost gs = group_views(groups@);
    let ghost sel = views(selected@);
    let mut filesystems: Vec<ReclaimFilesystem> = Vec::new();
    let mut g: usize = 0;
    assert(gs.take(0) =~= Seq::<GroupView>::empty());
    while g < groups.len()
        invariant
            g <= groups@.len(),
            target_free@.len() == groups@.len(),
            gs == group_views(groups@),
            sel == views(selected@),
            filesystems@.len() == chosen(gs.take(g as int), sel).len(),
            forall|i: int| 0 <= i < filesystems@.len() ==> report_of(
                #[trigger] filesystems@[i],
                gs[chosen(gs.take(g as int), sel)[i]],
                target_free@[chosen(gs.take(g as int), sel)[i]],
            ),
            forall|i: int| 0 <= i < chosen(gs.take(g as int), sel).len() ==> 0 <= #[trigger] chosen(gs.take(g as int), sel)[i] < g,
        decreases groups.len() - g,
    {
        assert(gs.take(g + 1).drop_last() =~= gs.take(g as int));
        assert(gs.take(g + 1).last() == groups@[g as int]@);
        proof {
            lemma_chosen_bounds(gs.take(g as int), sel);
        }
        if contains_text(selected, groups[g].key.as_str()) {
            let fs = filesystem_report(&groups[g], target_free[g]);
            filesystems.push(fs);
        }
        g = g + 1;
    }
    assert(gs.take(groups@.len() as int) =~= gs);
    let ghost start = filesystems@;
    let ghost picked = chosen(gs, sel);
    let unassigned = place_targets(&mut filesystems, resolved, selected, mount_requested);
    let ghost placed_fs = filesystems@;
    let ghost keys = report_keys(start);
    assert(report_keys(placed_fs) =~= keys) by {
        assert forall|i: int| 0 <= i < keys.len() implies report_keys(placed_fs)[i] == keys[i] by {
            assert(same_report(start[i], placed_fs[i]));
        }
    }
    // put each filesystem's targets in display order
    let mut done: Vec<ReclaimFilesystem> = Vec::new();
    let mut rest = filesystems;
    while rest.len() > 0
        invariant
            done@.len() + rest@.len() == placed_fs.len(),
            rest@ == placed_fs.skip(done@.len() as int),
            forall|i: int| 0 <= i < done@.len() ==> {
                let a = #[trigger] done@[i];
                let b = placed_fs[i];
                &&& same_report(a, b)
                &&& a.estimated_freed_bytes == b.estimated_freed_bytes
                &&& shown_in_order(b.targets@, ranks_for(b.targets@, views(b.mounts@)), a.targets@)
            },
        decreases rest.len(),
    {
        let ghost n = done@.len();
        assert(placed_fs.skip(n as int)[0] == placed_fs[n as int]);
        let mut fs = rest.remove(0);
        let ghost before = fs;
        let mut targets: Vec<ReclaimTarget> = Vec::new();
        std::mem::swap(&mut targets, &mut fs.targets);
        let sorted = sort_filesystem_targets(targets, &fs.mounts);
        fs.targets = sorted;
        done.push(fs);
        assert(rest@ =~= placed_fs.skip(done@.len() as int));
    }
    let shown = sort_unassigned_targets(unassigned);
    proof {
        assert forall|i: int| 0 <= i < done@.len() implies {
            let g = #[trigger] picked[i];
            let f = done@[i];
            let placed = targets_for(resolved@, report_keys(done@), i);
            &&& f.device@ == gs[g].device
            &&& f.fstype@ == gs[g].fstype
            &&& f.maj_min@ == gs[g].representative.maj_min
            &&& opt_view(f.fsroot) == gs[g].representative.fsroot
            &&& views(f.mounts@) == gs[g].mounts.map_values(|m: MountView| m.mount_point)
            &&& f.total_bytes == gs[g].representative.total_bytes
            &&& f.used_bytes == gs[g].representative.used_bytes
            &&& f.available_bytes == gs[g].representative.available_bytes
            &&& f.target_free_bytes == target_free@[g]
            &&& f.actual_freed_bytes is None
            &&& f.final_available_bytes is None
            &&& f.goal_met is None
            &&& f.estimated_freed_bytes == estimate_after(0, placed)
            &&& shown_in_order(placed, ranks_for(placed, views(f.mounts@)), f.targets@)
        } by {
            assert(report_keys(done@) =~= keys) by {
                assert forall|j: int| 0 <= j < keys.len() implies report_keys(done@)[j] == keys[j] by {
                    assert(same_report(done@[j], placed_fs[j]));
                    assert(same_report(start[j], placed_fs[j]));
                }
            }
            assert(report_of(start[i], gs[picked[i]], target_free@[picked[i]]));
            assert(start[i].targets@ =~= Seq::<ReclaimTarget>::empty());
            let placed = targets_for(resolved@, keys, i);
            assert(placed_fs[i].targets@ =~= placed);
        }
    }
    (done, shown)
}

// ---------------------------------------------------------------------------
// Choosing filesystems
// ---------------------------------------------------------------------------

/// The keys of the groups to reclaim on when no mount was requested: all
/// of them with `--all`, else those over the threshold (`over[g]`).
pub fn selected_filesystem_keys(groups: &Vec<FilesystemGroup>, over: &Vec<bool>, all: bool) -> (r: Vec<String>)
    requires
        over@.len() == groups@.len(),
    ensures
        views(r@) == chosen_keys(group_views(groups@), over@, all),
        forall|g: int|
            0 <= g < groups@.len() && (all || over@[g]) ==> exists|k: int|
                0 <= k < r@.len() && r@[k]@ == groups@[g].key@,
        forall|k: int| 0 <= k < r@.len() ==> chosen_group_key(group_views(groups@), over@, all, #[trigger] r@[k]@),
{
    let ghost gs = group_views(groups@);
    let mut r: Vec<String> = Vec::new();
    let mut g: usize = 0;
    assert(gs.take(0) =~= Seq::<GroupView>::empty());
    while g < groups.len()
        invariant
            g <= groups@.len(),
            over@.len() == groups@.len(),
            gs == group_views(groups@),
            views(r@) == chosen_keys(gs.take(g as int), over@.take(g as int), all),
        decreases groups.len() - g,
    {
        assert(gs.take(g + 1).drop_last() =~= gs.take(g as int));
        assert(over@.take(g + 1).drop_last() =~= over@.take(g as int));
        assert(gs.take(g + 1).last() == groups@[g as int]@);
        let ghost before = r@;
        if all || over[g] {
            r.push(copy_str(groups[g].key.as_str()));
            assert(views(r@) =~= views(before).push(groups@[g as int].key@));
        }
        g = g + 1;
    }
    assert(gs.take(groups@.len() as int) =~= gs);
    assert(over@.take(groups@.len() as int) =~= over@);
    proof {
        assert forall|h: int|
            0 <= h < groups@.len() && (all || over@[h]) implies exists|k: int|
                0 <= k < r@.len() && r@[k]@ == groups@[h].key@ by {
            let k = lemma_chosen_has(gs, over@, all, h);
            assert(gs[h].key == groups@[h].key@);
            assert(views(r@)[k] == r@[k]@);
        }
        assert forall|k: int| 0 <= k < r@.len() implies chosen_group_key(gs, over@, all, #[trigger] r@[k]@) by {
            assert(views(r@)[k] == r@[k]@);
            let h = lemma_chosen_from(gs, over@, all, k);
        }
    }
    r
}

/// `key` is the key of a group of `gs` that is over the threshold (any
/// group with `all`).
pub open spec fn chosen_group_key(gs: Seq<GroupView>, over: Seq<bool>, all: bool, key: Seq<char>) -> bool {
    exists|g: int| 0 <= g < gs.len() && (all || over[g]) && #[trigger] gs[g].key == key
}

/// A group over the threshold (any group with `all`) has its key chosen.
proof fn lemma_chosen_has(gs: Seq<GroupView>, over: Seq<bool>, all: bool, g: int) -> (k: int)
    requires
        over.len() == gs.len(),
        0 <= g < gs.len(),
        all || over[g],
    ensures
        0 <= k < chosen_keys(gs, over, all).len(),
        chosen_keys(gs, over, all)[k] == gs[g].key,
    decreases gs.len(),
{
    let n = gs.len() - 1;
    let prev = chosen_keys(gs.drop_last(), over.drop_last(), all);
    let cur = chosen_keys(gs, over, all);
    if g < n {
        let k = lemma_chosen_has(gs.drop_last(), over.drop_last(), all, g);
        assert(gs.drop_last()[g] == gs[g]);
        if over.last() || all {
            assert(cur[k] == prev[k]);
        }
        k
    } else {
        let k = cur.len() - 1;
        assert(cur[k] == gs[g].key);
        k
    }
}

/// Every chosen key is that of a group over the threshold (any group with
/// `all`); the group is returned.
proof fn lemma_chosen_from(gs: Seq<GroupView>, over: Seq<bool>, all: bool, k: int) -> (g: int)
    requires
        over.len() == gs.len(),
        0 <= k < chosen_keys(gs, over, all).len(),
    ensures
        0 <= g < gs.len(),
        all || over[g],
        gs[g].key == chosen_keys(gs, over, all)[k],
    decreases gs.len(),
{
    let n = gs.len() - 1;
    let prev = chosen_keys(gs.drop_last(), over.drop_last(), all);
    let cur = chosen_keys(gs, over, all);
    if k < prev.len() {
        let g = lemma_chosen_from(gs.drop_last(), over.drop_last(), all, k);
        assert(gs.drop_last()[g] == gs[g]);
        assert(over.drop_last()[g] == over[g]);
        assert(cur[k] == prev[k]);
        g
    } else {
        n
    }
}

/// Which filesystems a reclaim takes: a group's key is chosen when the
/// group is over the threshold (every group's with `all`), and every key
/// chosen is that of such a group.
pub proof fn lemma_selection_exact(gs: Seq<GroupView>, over: Seq<bool>, all: bool)
    requires
        over.len() == gs.len(),
    ensures
        forall|g: int|
            0 <= g < gs.len() && (all || over[g]) ==> exists|k: int|
                0 <= k < chosen_keys(gs, over, all).len() && chosen_keys(gs, over, all)[k] == gs[g].key,
        forall|k: int|
            0 <= k < chosen_keys(gs, over, all).len() ==> chosen_group_key(
                gs,
                over,
                all,
                #[trigger] chosen_keys(gs, over, all)[k],
            ),
{
    assert forall|g: int|
        0 <= g < gs.len() && (all || over[g]) implies exists|k: int|
            0 <= k < chosen_keys(gs, over, all).len() && chosen_keys(gs, over, all)[k] == gs[g].key by {
        let k = lemma_chosen_has(gs, over, all, g);
    }
    assert forall|k: int| 0 <= k < chosen_keys(gs, over, all).len() implies chosen_group_key(
        gs,
        over,
        all,
        #[trigger] chosen_keys(gs, over, all)[k],
    ) by {
        let g = lemma_chosen_from(gs, over, all, k);
    }
}

/// The keys of the groups of `gs` that `over` marks (all of them with
/// `all`), in order.
pub open spec fn chosen_keys(gs: Seq<GroupView>, over: Seq<bool>, all: bool) -> Seq<Seq<char>>
    decreases gs.len(),
{
    if gs.len() == 0 || over.len() != gs.len() {
        Seq::empty()
    } else {
        let prev = chosen_keys(gs.drop_last(), over.drop_last(), all);
        if all || over.last() {
            prev.push(gs.last().key)
        } else {
            prev
        }
    }
}

/// The first group that has a mount at `requested` (after trimming
/// trailing slashes).
pub fn find_requested_group(groups: &Vec<FilesystemGroup>, requested: &str) -> (r: Option<usize>)
    ensures
        match r {
            Some(g) => g < groups@.len() && has_mount_at(group_views(groups@)[g as int], point_of(requested@))
                && forall|h: int| 0 <= h < g ==> !has_mount_at(#[trigger] group_views(groups@)[h], point_of(requested@)),
            None => forall|h: int| 0 <= h < groups@.len() ==> !has_mount_at(#[trigger] group_views(groups@)[h], point_of(requested@)),
        },
{
    let wanted = crate::mount::normalize_mount(requested);
    let ghost gs = group_views(groups@);
    let mut g: usize = 0;
    while g < groups.len()
        invariant
            g <= groups@.len(),
            gs == group_views(groups@),
            wanted@ == point_of(requested@),
            forall|h: int| 0 <= h < g ==> !has_mount_at(#[trigger] gs[h], wanted@),
        decreases groups.len() - g,
    {
        let mounts = &groups[g].mounts;
        assert(gs[g as int].mounts == mount_views(mounts@));
        let mut m: usize = 0;
        while m < mounts.len()
            invariant
                g < groups@.len(),
                gs == group_views(groups@),
                wanted@ == point_of(requested@),
                forall|h: int| 0 <= h < g ==> !has_mount_at(#[trigger] gs[h], wanted@),
                m <= mounts@.len(),
                gs[g as int].mounts == mount_views(mounts@),
                forall|k: int| 0 <= k < m ==> mount_views(mounts@)[k].mount_point != wanted@,
            decreases mounts.len() - m,
        {
            if same_chars(mounts[m].mount_point.as_str(), wanted.as_str()) {
                assert(mount_views(mounts@)[m as int].mount_point == wanted@);
                return Some(g);
            }
            m = m + 1;
        }
        g = g + 1;
    }
    None
}

/// Group `g` has a mount at `mp`.
pub open spec fn has_mount_at(g: GroupView, mp: Seq<char>) -> bool {
    exists|k: int| 0 <= k < g.mounts.len() && (#[trigger] g.mounts[k]).mount_point == mp
}

// ---------------------------------------------------------------------------
// Executing a plan
// ---------------------------------------------------------------------------

/// Decides whether a planned target is applied now. A target that is not
/// pending is left alone; one whose variant the catalog does not list
/// becomes an error; one the tier policy holds back becomes skipped with
/// its reason. Otherwise the target is unchanged and its tier is returned
/// for the caller to apply it.
pub fn execute_target_gate(target: &mut ReclaimTarget, force: bool) -> (r: Option<Tier>)
    ensures
        ({
            let t = *old(target);
            let u = *final(target);
            let tier = catalog_tier(t.framework@, t.variant@);
            if t.status@ != "pending"@ {
                r is None && u == t
            } else if tier is None {
                &&& r is None
                &&& u.status@ == "error"@
                &&& u.notes@ == "variant not found in registry"@
                &&& u.framework == t.framework && u.variant == t.variant && u.tier == t.tier
                &&& u.scope == t.scope && u.paths == t.paths && u.surfaces == t.surfaces
                &&& u.estimated_freed_bytes == t.estimated_freed_bytes
                &&& u.actual_freed_bytes == t.actual_freed_bytes && u.skip_reason == t.skip_reason
            } else if gated(tier->0, force) {
                &&& r is None
                &&& u.status@ == "skipped"@
                &&& opt_view(u.skip_reason) == gate_reason(tier->0)
                &&& u.framework == t.framework && u.variant == t.variant && u.tier == t.tier
                &&& u.scope == t.scope && u.paths == t.paths && u.surfaces == t.surfaces
                &&& u.estimated_freed_bytes == t.estimated_freed_bytes
                &&& u.actual_freed_bytes == t.actual_freed_bytes && u.notes == t.notes
            } else {
                r == tier && u == t
            }
        }),
{
    if !same_chars(target.status.as_str(), "pending") {
        return None;
    }
    let found = find_variant(target.framework.as_str(), target.variant.as_str());
    match found {
        None => {
            target.status = copy_str("error");
            target.notes = copy_str("variant not found in registry");
            None
        },
        Some(v) => {
            if gated_exec(v.tier, force) {
                let (status, reason) = gate(v.tier, force);
                target.status = status;
                target.skip_reason = reason;
                None
            } else {
                Some(v.tier)
            }
        },
    }
}

fn gated_exec(t: Tier, force: bool) -> (r: bool)
    ensures
        r == gated(t, force),
{
    !force && t != Tier::Safe
}

/// Records what applying a target did: its freed bytes and `completed`,
/// or `completed-with-errors` with the errors joined by `; ` as its notes;
/// an apply that failed outright makes it an error with the failure as
/// its notes. Returns the bytes freed.
pub fn record_apply(target: &mut ReclaimTarget, outcome: Result<ApplyReport, String>) -> (freed: u64)
    ensures
        ({
            let t = *old(target);
            let u = *final(target);
            &&& u.framework == t.framework && u.variant == t.variant && u.tier == t.tier
            &&& u.scope == t.scope && u.paths == t.paths && u.surfaces == t.surfaces
            &&& u.estimated_freed_bytes == t.estimated_freed_bytes && u.skip_reason == t.skip_reason
            &&& match outcome {
                Ok(report) => {
                    &&& freed == report.freed_bytes
                    &&& u.actual_freed_bytes == Some(report.freed_bytes)
                    &&& report.errors@.len() == 0 ==> u.status@ == "completed"@ && u.notes == t.notes
                    &&& report.errors@.len() > 0 ==> u.status@ == "completed-with-errors"@ && u.notes@
                        == crate::text::joined(views(report.errors@), "; "@)
                },
                Err(message) => {
                    &&& freed == 0
                    &&& u.status@ == "error"@
                    &&& u.notes@ == message@
                    &&& u.actual_freed_bytes == t.actual_freed_bytes
                },
            }
        }),
{
    match outcome {
        Ok(report) => {
            target.actual_freed_bytes = Some(report.freed_bytes);
            if report.errors.len() == 0 {
                target.status = copy_str("completed");
            } else {
                target.status = copy_str("completed-with-errors");
                let notes = crate::text::join(&report.errors, "; ");
                assert(report.errors@.map_values(|p: String| p@) =~= views(report.errors@));
                target.notes = notes;
            }
            report.freed_bytes
        },
        Err(message) => {
            target.status = copy_str("error");
            target.notes = message;
            0
        },
    }
}

/// Records a filesystem's available space after the apply, as `df`
/// reported it: the goal is met when at least the goal's bytes are
/// available. Where `df` gave nothing, nothing is known and the goal
/// counts as not met.
pub fn record_final_available(fs: &mut ReclaimFilesystem, available: Option<u64>)
    ensures
        same_report_but_result(*old(fs), *final(fs)),
        final(fs).targets == old(fs).targets,
        final(fs).estimated_freed_bytes == old(fs).estimated_freed_bytes,
        final(fs).final_available_bytes == available,
        final(fs).goal_met == Some(
            match available {
                Some(a) => a >= old(fs).target_free_bytes,
                None => false,
            },
        ),
{
    match available {
        Some(a) => {
            fs.final_available_bytes = Some(a);
            fs.goal_met = Some(a >= fs.target_free_bytes);
        },
        None => {
            fs.final_available_bytes = None;
            fs.goal_met = Some(false);
        },
    }
}

/// `a` and `b` agree on everything but the result of the apply.
pub open spec fn same_report_but_result(a: ReclaimFilesystem, b: ReclaimFilesystem) -> bool {
    &&& a.device == b.device
    &&& a.fstype == b.fstype
    &&& a.maj_min == b.maj_min
    &&& a.fsroot == b.fsroot
    &&& a.mounts == b.mounts
    &&& a.total_bytes == b.total_bytes
    &&& a.used_bytes == b.used_bytes
    &&& a.available_bytes == b.available_bytes
    &&& a.target_free_bytes == b.target_free_bytes
    &&& a.actual_freed_bytes == b.actual_freed_bytes
}

// ---------------------------------------------------------------------------
// Table rows
// ---------------------------------------------------------------------------

/// The first `max_chars` characters of `value`.
pub open spec fn truncated(value: Seq<char>, max_chars: nat) -> Seq<char> {
    if value.len() > max_chars {
        value.take(max_chars as int)
    } else {
        value
    }
}

/// `value` cut to at most `max_chars` characters.
pub fn truncate(value: &str, max_chars: usize) -> (r: String)
    ensures
        r@ == truncated(value@, max_chars as nat),
{
    let cs = crate::text::chars_of(value);
    if cs.len() > max_chars {
        let r = crate::text::string_of_range(&cs, 0, max_chars);
        assert(r@ =~= value@.take(max_chars as int));
        r
    } else {
        copy_str(value)
    }
}

/// What the surface column of a row shows: the surfaces joined by `, `,
/// or by scope when there are none.
pub open spec fn surface_text(t: ReclaimTarget) -> Seq<char> {
    if t.surfaces@.len() == 0 {
        match t.scope {
            TargetScope::SingleSurface => seq!['\u{2014}'],
            TargetScope::MultiSurface => "multi-surface"@,
            TargetScope::Unassigned => "unassigned"@,
        }
    } else {
        crate::text::joined(views(t.surfaces@), ", "@)
    }
}

/// What the notes column of a row shows: the skip reason first, then the
/// notes, then the paths after a dash.
pub open spec fn notes_text(t: ReclaimTarget) -> Seq<char> {
    let notes = if t.paths@.len() == 0 {
        t.notes@
    } else {
        t.notes@ + " \u{2014} "@ + crate::text::joined(views(t.paths@), ", "@)
    };
    match t.skip_reason {
        Some(reason) => reason@ + "; "@ + notes,
        None => notes,
    }
}

/// One table row for a target: name, tier, estimate, status and surface
/// in padded columns, then the notes.
pub open spec fn row_text(t: ReclaimTarget) -> Seq<char> {
    "  "@ + padded(t.framework@ + "/"@ + t.variant@, 36) + " "@ + padded(t.tier@, 11) + " "@ + padded(
        crate::text::size_text(t.estimated_freed_bytes as nat),
        12,
    ) + " "@ + padded(t.status@, 10) + " "@ + padded(truncated(surface_text(t), 18), 18) + " "@
        + notes_text(t) + "\n"@
}

/// The table row for a target.
pub fn format_target_row(target: &ReclaimTarget) -> (r: String)
    ensures
        r@ == row_text(*target),
{
    let surfaces = if target.surfaces.len() == 0 {
        match target.scope {
            TargetScope::SingleSurface => copy_str("\u{2014}"),
            TargetScope::MultiSurface => copy_str("multi-surface"),
            TargetScope::Unassigned => copy_str("unassigned"),
        }
    } else {
        let j = crate::text::join(&target.surfaces, ", ");
        assert(target.surfaces@.map_values(|p: String| p@) =~= views(target.surfaces@));
        j
    };
    proof {
        reveal_strlit("\u{2014}");
    }
    let mut notes = copy_str(target.notes.as_str());
    if target.paths.len() > 0 {
        push_str(&mut notes, " \u{2014} ");
        let j = crate::text::join(&target.paths, ", ");
        assert(target.paths@.map_values(|p: String| p@) =~= views(target.paths@));
        push_str(&mut notes, j.as_str());
    }
    let notes = match &target.skip_reason {
        Some(reason) => {
            let mut n = copy_str(reason.as_str());
            push_str(&mut n, "; ");
            push_str(&mut n, notes.as_str());
            n
        },
        None => notes,
    };
    let mut name = copy_str(target.framework.as_str());
    push_str(&mut name, "/");
    push_str(&mut name, target.variant.as_str());
    let size = crate::text::human_size(target.estimated_freed_bytes);
    let shown = truncate(surfaces.as_str(), 18);
    let mut r = copy_str("  ");
    push_padded(&mut r, name.as_str(), 36);
    push_str(&mut r, " ");
    push_padded(&mut r, target.tier.as_str(), 11);
    push_str(&mut r, " ");
    push_padded(&mut r, size.as_str(), 12);
    push_str(&mut r, " ");
    push_padded(&mut r, target.status.as_str(), 10);
    push_str(&mut r, " ");
    push_padded(&mut r, shown.as_str(), 18);
    push_str(&mut r, " ");
    push_str(&mut r, notes.as_str());
    push_str(&mut r, "\n");
    assert(r@ =~= row_text(*target));
    r
}

} // verus!
