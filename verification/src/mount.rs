//! Mounted filesystems: the identity table that `findmnt` reports, the
//! usage table that `df` prints, and which mount a path lives on.
//!
//! The commands are run by the caller; this module reads their output.
use vstd::prelude::*;
use crate::text::{copy_str, has_prefix, seq_lt, starts_with, str_lt, same_chars, utf8_len, byte_len};
use crate::text::{lemma_seq_lt_irreflexive, lemma_seq_lt_transitive, lemma_seq_lt_total};
use crate::tokens::{views, opt_view, copy_opt, pieces, words, split_on, split_words, lemma_pieces_nonempty};
use crate::tokens::{trim_end_char, trim_end, parsed_u64, parse_u64};
use crate::sort::{SortKey, stable_sort, stably_sorted, is_permutation, stable_before};

verus! {

broadcast use vstd::string::group_string_axioms;

/// One mounted filesystem with its usage in bytes.
#[derive(Debug, Clone)]
pub struct MountInfo {
    pub mount_point: String,
    pub device: String,
    pub fstype: String,
    pub maj_min: String,
    pub fsroot: Option<String>,
    pub total_bytes: u64,
    pub used_bytes: u64,
    pub available_bytes: u64,
}

/// What a `MountInfo` holds, as character sequences.
pub struct MountView {
    pub mount_point: Seq<char>,
    pub device: Seq<char>,
    pub fstype: Seq<char>,
    pub maj_min: Seq<char>,
    pub fsroot: Option<Seq<char>>,
    pub total_bytes: u64,
    pub used_bytes: u64,
    pub available_bytes: u64,
}

impl View for MountInfo {
    type V = MountView;

    open spec fn view(&self) -> MountView {
        MountView {
            mount_point: self.mount_point@,
            device: self.device@,
            fstype: self.fstype@,
            maj_min: self.maj_min@,
            fsroot: opt_view(self.fsroot),
            total_bytes: self.total_bytes,
            used_bytes: self.used_bytes,
            available_bytes: self.available_bytes,
        }
    }
}

/// The views of a sequence of mounts.
pub open spec fn mount_views(ms: Seq<MountInfo>) -> Seq<MountView> {
    ms.map_values(|m: MountInfo| m@)
}

impl MountInfo {
    /// A copy of this record.
    pub fn duplicate(&self) -> (r: MountInfo)
        ensures
            r@ == self@,
    {
        MountInfo {
            mount_point: copy_str(self.mount_point.as_str()),
            device: copy_str(self.device.as_str()),
            fstype: copy_str(self.fstype.as_str()),
            maj_min: copy_str(self.maj_min.as_str()),
            fsroot: copy_opt(&self.fsroot),
            total_bytes: self.total_bytes,
            used_bytes: self.used_bytes,
            available_bytes: self.available_bytes,
        }
    }
}

/// Mounts sort by mount point.
impl SortKey for MountInfo {
    open spec fn key_lt(self, other: Self) -> bool {
        seq_lt(self.mount_point@, other.mount_point@)
    }

    proof fn lemma_irreflexive(a: Self) {
        lemma_seq_lt_irreflexive(a.mount_point@);
    }

    proof fn lemma_transitive(a: Self, b: Self, c: Self) {
        lemma_seq_lt_transitive(a.mount_point@, b.mount_point@, c.mount_point@);
    }

    proof fn lemma_ties_transitive(a: Self, b: Self, c: Self) {
        lemma_seq_lt_total(a.mount_point@, b.mount_point@);
        lemma_seq_lt_total(b.mount_point@, c.mount_point@);
    }

    fn less(&self, other: &Self) -> (r: bool) {
        str_lt(self.mount_point.as_str(), other.mount_point.as_str())
    }
}

// ---------------------------------------------------------------------------
// The identity table from `findmnt`
// ---------------------------------------------------------------------------

/// One line of `findmnt --json` output, with the filesystems mounted
/// below it.
#[derive(Debug)]
pub struct FindmntEntry {
    pub target: String,
    pub source: String,
    pub fstype: String,
    pub maj_min: String,
    pub fsroot: Option<String>,
    pub children: Vec<FindmntEntry>,
}

/// What backs a mount point: device, type, device numbers and the root of
/// the mount inside its filesystem.
#[derive(Debug, Clone)]
pub struct MountIdentity {
    pub device: String,
    pub fstype: String,
    pub maj_min: String,
    pub fsroot: Option<String>,
}

/// A `MountIdentity` as character sequences.
pub struct IdentityView {
    pub device: Seq<char>,
    pub fstype: Seq<char>,
    pub maj_min: Seq<char>,
    pub fsroot: Option<Seq<char>>,
}

impl View for MountIdentity {
    type V = IdentityView;

    open spec fn view(&self) -> IdentityView {
        IdentityView {
            device: self.device@,
            fstype: self.fstype@,
            maj_min: self.maj_min@,
            fsroot: opt_view(self.fsroot),
        }
    }
}

/// The index of the first `c` in `s` at or after `from`, or `s.len()`.
pub open spec fn first_at(s: Seq<char>, c: char, from: int) -> int
    decreases s.len() - from,
{
    if from < 0 || from >= s.len() || s[from] == c {
        if from < 0 {
            0
        } else {
            from
        }
    } else {
        first_at(s, c, from + 1)
    }
}

/// A `findmnt` source without its bracketed subvolume, e.g.
/// `/dev/sda2[/@home]` reads `/dev/sda2`.
pub open spec fn cleaned_source(s: Seq<char>) -> Seq<char> {
    s.take(first_at(s, '[', 0))
}

proof fn lemma_first_at_bounds(s: Seq<char>, c: char, from: int)
    requires
        0 <= from,
    ensures
        from <= first_at(s, c, from),
        first_at(s, c, from) <= s.len() || first_at(s, c, from) == from,
    decreases s.len() - from,
{
    if from < s.len() && s[from] != c {
        lemma_first_at_bounds(s, c, from + 1);
    }
}

/// `source` up to its first `[`.
pub fn clean_source(source: &str) -> (r: String)
    ensures
        r@ == cleaned_source(source@),
{
    let cs = crate::text::chars_of(source);
    let mut i: usize = 0;
    while i < cs.len() && cs[i] != '['
        invariant
            cs@ == source@,
            i <= cs@.len(),
            first_at(source@, '[', 0) == first_at(source@, '[', i as int),
        decreases cs.len() - i,
    {
        i = i + 1;
    }
    let r = crate::text::string_of_range(&cs, 0, i);
    assert(r@ =~= cleaned_source(source@));
    r
}

/// The identity that `findmnt` reports for one entry.
pub open spec fn entry_identity(e: FindmntEntry) -> IdentityView {
    IdentityView {
        device: cleaned_source(e.source@),
        fstype: e.fstype@,
        maj_min: e.maj_min@,
        fsroot: opt_view(e.fsroot),
    }
}

/// The entries of a `findmnt` tree in pre-order, each keyed by its mount
/// point.
pub open spec fn flat_entry(e: FindmntEntry) -> Seq<(Seq<char>, IdentityView)>
    decreases e,
{
    seq![(e.target@, entry_identity(e))] + flat_list(e.children@)
}

/// `flat_entry` of each of `es`, in order.
pub open spec fn flat_list(es: Seq<FindmntEntry>) -> Seq<(Seq<char>, IdentityView)>
    decreases es,
{
    if es.len() == 0 {
        Seq::empty()
    } else {
        flat_list(es.drop_last()) + flat_entry(es.last())
    }
}

/// A table of identities by mount point, as sequences.
pub open spec fn table_view(t: Seq<(String, MountIdentity)>) -> Seq<(Seq<char>, IdentityView)> {
    t.map_values(|p: (String, MountIdentity)| (p.0@, p.1@))
}

impl MountIdentity {
    /// A copy of this identity.
    pub fn duplicate(&self) -> (r: MountIdentity)
        ensures
            r@ == self@,
    {
        MountIdentity {
            device: copy_str(self.device.as_str()),
            fstype: copy_str(self.fstype.as_str()),
            maj_min: copy_str(self.maj_min.as_str()),
            fsroot: copy_opt(&self.fsroot),
        }
    }
}

fn flatten_into(entries: &Vec<FindmntEntry>, table: &mut Vec<(String, MountIdentity)>)
    ensures
        table_view(final(table)@) == table_view(old(table)@) + flat_list(entries@),
    decreases entries@,
{
    let ghost start = table_view(table@);
    let mut i: usize = 0;
    assert(entries@.take(0) =~= Seq::<FindmntEntry>::empty());
    while i < entries.len()
        invariant
            i <= entries@.len(),
            table_view(table@) == start + flat_list(entries@.take(i as int)),
        decreases entries.len() - i,
    {
        let entry = &entries[i];
        let identity = MountIdentity {
            device: clean_source(entry.source.as_str()),
            fstype: copy_str(entry.fstype.as_str()),
            maj_min: copy_str(entry.maj_min.as_str()),
            fsroot: copy_opt(&entry.fsroot),
        };
        let ghost before = table@;
        let ghost head = seq![(entry.target@, entry_identity(*entry))];
        table.push((copy_str(entry.target.as_str()), identity));
        assert(table_view(table@) =~= table_view(before) + head);
        let ghost middle = table_view(table@);
        flatten_into(&entry.children, table);
        assert(table_view(table@) == middle + flat_list(entry.children@));
        assert(flat_entry(*entry) == head + flat_list(entry.children@));
        assert(entries@.take(i + 1).drop_last() =~= entries@.take(i as int));
        assert(entries@.take(i + 1).last() == *entry);
        assert(flat_list(entries@.take(i + 1)) == flat_list(entries@.take(i as int)) + flat_entry(
            *entry,
        ));
        i = i + 1;
        assert(table_view(table@) =~= start + flat_list(entries@.take(i as int)));
    }
    assert(entries@.take(entries@.len() as int) =~= entries@);
}

/// The identity table of a `findmnt` tree: every entry in pre-order,
/// keyed by its mount point (`flatten_findmnt`).
pub fn flatten_findmnt(entries: &Vec<FindmntEntry>) -> (table: Vec<(String, MountIdentity)>)
    ensures
        table_view(table@) == flat_list(entries@),
{
    let mut table: Vec<(String, MountIdentity)> = Vec::new();
    flatten_into(entries, &mut table);
    assert(table_view(table@) =~= flat_list(entries@));
    table
}

/// The identity recorded last for `key`: a later entry for the same mount
/// point replaces an earlier one.
pub open spec fn lookup(t: Seq<(Seq<char>, IdentityView)>, key: Seq<char>) -> Option<IdentityView>
    decreases t.len(),
{
    if t.len() == 0 {
        None
    } else if t.last().0 == key {
        Some(t.last().1)
    } else {
        lookup(t.drop_last(), key)
    }
}

/// The position of the identity for `key`, searching from the end.
fn find_identity(table: &Vec<(String, MountIdentity)>, key: &str) -> (r: Option<usize>)
    ensures
        match r {
            Some(i) => i < table@.len() && lookup(table_view(table@), key@) == Some(
                table@[i as int].1@,
            ),
            None => lookup(table_view(table@), key@) is None,
        },
{
    let ghost tv = table_view(table@);
    let mut n: usize = table.len();
    assert(tv.take(n as int) =~= tv);
    while n > 0
        invariant
            n <= table@.len(),
            tv == table_view(table@),
            lookup(tv, key@) == lookup(tv.take(n as int), key@),
        decreases n,
    {
        assert(tv.take(n as int).last() == (table@[n - 1].0@, table@[n - 1].1@));
        if same_chars(table[n - 1].0.as_str(), key) {
            return Some(n - 1);
        }
        assert(tv.take(n as int).drop_last() =~= tv.take(n - 1));
        n = n - 1;
    }
    None
}

/// `df` and `findmnt` do not list these pseudo filesystems.
pub open spec fn excluded_fstype(f: Seq<char>) -> bool {
    f == "tmpfs"@ || f == "devtmpfs"@ || f == "devfs"@ || f == "overlay"@
}

/// Whether a filesystem type is a pseudo filesystem that reclaim ignores.
pub fn should_exclude_fstype(fstype: &str) -> (r: bool)
    ensures
        r == excluded_fstype(fstype@),
{
    same_chars(fstype, "tmpfs") || same_chars(fstype, "devtmpfs") || same_chars(fstype, "devfs")
        || same_chars(fstype, "overlay")
}

/// A mount point without trailing slashes; the root stays `/`.
pub open spec fn point_of(target: Seq<char>) -> Seq<char> {
    let t = trim_end_char(target, '/');
    if t.len() == 0 {
        "/"@
    } else {
        t
    }
}

/// `mount` without trailing slashes, `/` when nothing is left.
pub fn normalize_mount(mount: &str) -> (r: String)
    ensures
        r@ == point_of(mount@),
{
    let t = trim_end(mount, '/');
    if same_chars(t.as_str(), "") {
        proof {
            reveal_strlit("");
        }
        let r = copy_str("/");
        r
    } else {
        proof {
            reveal_strlit("");
            if t@.len() == 0 {
                assert(t@ =~= ""@);
            }
        }
        t
    }
}

// ---------------------------------------------------------------------------
// The usage table from `df`
// ---------------------------------------------------------------------------

/// A number column: its value, or 0 where it does not read as one
/// (`parse::<u64>().unwrap_or(0)`).
pub open spec fn or_zero(o: Option<u64>) -> u64 {
    match o {
        Some(v) => v,
        None => 0,
    }
}

/// The record for a `df` line with words `w` (source, target, size, used,
/// available, type), listed under mount point `mp`. Where the identity
/// table knows `mp`, it supplies device, type, device numbers and root;
/// otherwise the line's own source and type stand, with no device numbers.
pub open spec fn mount_row(
    w: Seq<Seq<char>>,
    mp: Seq<char>,
    ids: Seq<(Seq<char>, IdentityView)>,
) -> MountView {
    let id = lookup(ids, mp);
    MountView {
        mount_point: mp,
        device: if id is Some {
            id->0.device
        } else {
            w[0]
        },
        fstype: if id is Some {
            id->0.fstype
        } else {
            w[5]
        },
        maj_min: if id is Some {
            id->0.maj_min
        } else {
            Seq::empty()
        },
        fsroot: if id is Some {
            id->0.fsroot
        } else {
            None
        },
        total_bytes: or_zero(parsed_u64(w[2])),
        used_bytes: or_zero(parsed_u64(w[3])),
        available_bytes: or_zero(parsed_u64(w[4])),
    }
}

/// The filesystem that one line of `df` output lists, if it is kept:
/// lines of fewer than six words, a zero or unreadable size, and pseudo
/// filesystem types are dropped.
pub open spec fn df_listed(line: Seq<char>, ids: Seq<(Seq<char>, IdentityView)>) -> Option<MountView> {
    let w = words(line);
    if w.len() < 6 {
        None
    } else {
        let row = mount_row(w, point_of(w[1]), ids);
        if row.total_bytes == 0 || excluded_fstype(w[5]) {
            None
        } else {
            Some(row)
        }
    }
}

/// The records that `lines` list, in order.
pub open spec fn df_rows(lines: Seq<Seq<char>>, ids: Seq<(Seq<char>, IdentityView)>) -> Seq<MountView>
    decreases lines.len(),
{
    if lines.len() == 0 {
        Seq::empty()
    } else {
        let prev = df_rows(lines.drop_last(), ids);
        match df_listed(lines.last(), ids) {
            Some(row) => prev.push(row),
            None => prev,
        }
    }
}

/// The lines of command output after its header line. A final newline
/// leaves an empty last line, which has no words and lists nothing.
pub open spec fn body_lines(out: Seq<char>) -> Seq<Seq<char>> {
    pieces(out, '\n').drop_first()
}

/// Mount `a`, at position `ia`, sorts before `b`, at `ib`: a smaller mount
/// point, or the same one listed earlier.
pub open spec fn point_before(a: MountView, ia: int, b: MountView, ib: int) -> bool {
    seq_lt(a.mount_point, b.mount_point) || (a.mount_point == b.mount_point && ia < ib)
}

/// `out` is `rows` rearranged by `p` into mount-point order, ties kept in
/// their original order.
pub open spec fn sorted_with(rows: Seq<MountView>, out: Seq<MountView>, p: Seq<int>) -> bool {
    &&& is_permutation(p, rows.len())
    &&& out.len() == rows.len()
    &&& forall|i: int| 0 <= i < out.len() ==> #[trigger] out[i] == rows[p[i]]
    &&& forall|i: int, j: int|
        0 <= i < j < out.len() ==> point_before(rows[#[trigger] p[i]], p[i], rows[#[trigger] p[j]], p[j])
}

/// `out` is `rows` stably sorted by mount point.
pub open spec fn sorted_by_point(rows: Seq<MountView>, out: Seq<MountView>) -> bool {
    exists|p: Seq<int>| sorted_with(rows, out, p)
}

fn column(w: &Vec<String>, k: usize) -> (v: u64)
    requires
        k < w@.len(),
    ensures
        v == or_zero(parsed_u64(w@[k as int]@)),
{
    match parse_u64(w[k].as_str()) {
        Some(v) => v,
        None => 0,
    }
}

fn build_row(w: &Vec<String>, mp: String, ids: &Vec<(String, MountIdentity)>) -> (m: MountInfo)
    requires
        w@.len() >= 6,
    ensures
        m@ == mount_row(views(w@), mp@, table_view(ids@)),
{
    let found = find_identity(ids, mp.as_str());
    let ghost wv = views(w@);
    assert(wv[0] == w@[0]@ && wv[5] == w@[5]@);
    assert(wv[2] == w@[2]@ && wv[3] == w@[3]@ && wv[4] == w@[4]@);
    let total_bytes = column(w, 2);
    let used_bytes = column(w, 3);
    let available_bytes = column(w, 4);
    match found {
        Some(i) => {
            let id = ids[i].1.duplicate();
            MountInfo {
                mount_point: mp,
                device: id.device,
                fstype: id.fstype,
                maj_min: id.maj_min,
                fsroot: id.fsroot,
                total_bytes,
                used_bytes,
                available_bytes,
            }
        },
        None => MountInfo {
            mount_point: mp,
            device: copy_str(w[0].as_str()),
            fstype: copy_str(w[5].as_str()),
            maj_min: String::new(),
            fsroot: None,
            total_bytes,
            used_bytes,
            available_bytes,
        },
    }
}

/// The filesystems that `df` output lists, sorted by mount point: each
/// line after the header with at least six words, a non-zero size and a
/// real filesystem type, its identity taken from the `findmnt` table where
/// that knows the mount point.
pub fn read_mounts(df_output: &str, identities: &Vec<(String, MountIdentity)>) -> (mounts: Vec<MountInfo>)
    ensures
        sorted_by_point(
            df_rows(body_lines(df_output@), table_view(identities@)),
            mount_views(mounts@),
        ),
{
    let lines = split_on(df_output, '\n');
    proof {
        lemma_pieces_nonempty(df_output@, '\n');
    }
    let ghost body = body_lines(df_output@);
    let ghost ids = table_view(identities@);
    let mut rows: Vec<MountInfo> = Vec::new();
    let mut i: usize = 1;
    assert(body.take(0) =~= Seq::<Seq<char>>::empty());
    assert(mount_views(rows@) =~= Seq::<MountView>::empty());
    while i < lines.len()
        invariant
            1 <= i <= lines@.len(),
            views(lines@) == pieces(df_output@, '\n'),
            body == views(lines@).drop_first(),
            ids == table_view(identities@),
            mount_views(rows@) == df_rows(body.take(i - 1), ids),
        decreases lines.len() - i,
    {
        let w = split_words(lines[i].as_str());
        assert(body.take(i as int).drop_last() =~= body.take(i - 1));
        assert(body.take(i as int).last() == lines@[i as int]@);
        let ghost before = rows@;
        if w.len() >= 6 {
            let mp = normalize_mount(w[1].as_str());
            assert(views(w@)[1] == w@[1]@);
            assert(views(w@)[5] == w@[5]@);
            let row = build_row(&w, mp, identities);
            if row.total_bytes != 0 && !should_exclude_fstype(w[5].as_str()) {
                rows.push(row);
                assert(mount_views(rows@) =~= mount_views(before).push(row@));
            }
        }
        i = i + 1;
    }
    assert(body.take(lines@.len() - 1) =~= body);
    let ghost rows_v = rows@;
    let out = stable_sort(rows);
    proof {
        let p = choose|p: Seq<int>| stably_sorted(rows_v, out@, p);
        let rv = mount_views(rows_v);
        let ov = mount_views(out@);
        assert forall|a: int, b: int| 0 <= a < b < ov.len() implies point_before(
            rv[#[trigger] p[a]],
            p[a],
            rv[#[trigger] p[b]],
            p[b],
        ) by {
            assert(stable_before(rows_v[p[a]], p[a], rows_v[p[b]], p[b]));
            lemma_seq_lt_total(rv[p[a]].mount_point, rv[p[b]].mount_point);
        }
        assert(sorted_with(rv, ov, p));
    }
    out
}

/// The error of a `df` query.
#[derive(Debug)]
pub enum MountError {
    /// `df` listed no filesystem for the mount point.
    NotFound { mount: String },
}

impl MountError {
    /// The error as text.
    pub fn message(&self) -> (r: String)
        ensures
            match self {
                MountError::NotFound { mount } => r@ == "mount point not found: "@ + mount@,
            },
    {
        match self {
            MountError::NotFound { mount } => {
                let mut r = copy_str("mount point not found: ");
                crate::text::push_str(&mut r, mount.as_str());
                r
            },
        }
    }
}

/// The first of `lines` with at least six words, read as the filesystem
/// at `mp`.
pub open spec fn df_first(lines: Seq<Seq<char>>, mp: Seq<char>, ids: Seq<(Seq<char>, IdentityView)>) -> Option<MountView>
    decreases lines.len(),
{
    if lines.len() == 0 {
        None
    } else if words(lines[0]).len() >= 6 {
        Some(mount_row(words(lines[0]), mp, ids))
    } else {
        df_first(lines.drop_first(), mp, ids)
    }
}

/// The filesystem holding `mount`, from the output of `df` run on it: the
/// first line after the header with at least six words, listed under the
/// requested mount point (without trailing slashes). No such line is
/// `NotFound`.
pub fn df(mount: &str, df_output: &str, identities: &Vec<(String, MountIdentity)>) -> (r: Result<MountInfo, MountError>)
    ensures
        match df_first(body_lines(df_output@), point_of(mount@), table_view(identities@)) {
            Some(v) => r matches Ok(m) && m@ == v,
            None => r matches Err(MountError::NotFound { mount: m }) && m@ == point_of(mount@),
        },
{
    let mp = normalize_mount(mount);
    let lines = split_on(df_output, '\n');
    proof {
        lemma_pieces_nonempty(df_output@, '\n');
    }
    let ghost body = body_lines(df_output@);
    let ghost ids = table_view(identities@);
    let mut i: usize = 1;
    assert(body.skip(0) =~= body);
    while i < lines.len()
        invariant
            1 <= i <= lines@.len(),
            views(lines@) == pieces(df_output@, '\n'),
            body == views(lines@).drop_first(),
            ids == table_view(identities@),
            mp@ == point_of(mount@),
            df_first(body, mp@, ids) == df_first(body.skip(i - 1), mp@, ids),
        decreases lines.len() - i,
    {
        let w = split_words(lines[i].as_str());
        assert(body.skip(i - 1)[0] == lines@[i as int]@);
        if w.len() >= 6 {
            let row = build_row(&w, mp, identities);
            return Ok(row);
        }
        assert(body.skip(i - 1).drop_first() =~= body.skip(i as int));
        i = i + 1;
    }
    assert(body.skip(i - 1).len() == 0);
    Err(MountError::NotFound { mount: mp })
}

// ---------------------------------------------------------------------------
// The mount of a path
// ---------------------------------------------------------------------------

/// Mount `m` may hold `path`: a non-empty mount point other than the root
/// that `path` begins with, as text.
pub open spec fn covers(m: MountView, path: Seq<char>) -> bool {
    &&& m.mount_point != "/"@
    &&& utf8_len(m.mount_point) > 0
    &&& has_prefix(path, m.mount_point)
}

/// Mount `i` is the longest of `ms` that may hold `path`, the first of
/// that length.
pub open spec fn is_best_mount(ms: Seq<MountView>, path: Seq<char>, i: int) -> bool {
    &&& 0 <= i < ms.len()
    &&& covers(ms[i], path)
    &&& forall|j: int|
        0 <= j < ms.len() && covers(#[trigger] ms[j], path) ==> utf8_len(ms[j].mount_point) <= utf8_len(
            ms[i].mount_point,
        )
    &&& forall|j: int|
        0 <= j < i && covers(#[trigger] ms[j], path) ==> utf8_len(ms[j].mount_point) < utf8_len(
            ms[i].mount_point,
        )
}

/// No mount other than the root may hold `path`.
pub open spec fn uncovered(ms: Seq<MountView>, path: Seq<char>) -> bool {
    forall|j: int| 0 <= j < ms.len() ==> !covers(#[trigger] ms[j], path)
}

/// The mount point that holds `path`: the longest one (other than the
/// root) that `path` begins with, the first listed among equals; else the
/// root for an absolute path, and nothing for a relative one.
pub fn mount_for_path(path: &str, mounts: &Vec<MountInfo>) -> (r: Option<String>)
    ensures
        ({
            let ms = mount_views(mounts@);
            match r {
                Some(s) => (exists|i: int| is_best_mount(ms, path@, i) && s@ == ms[i].mount_point) || (
                uncovered(ms, path@) && has_prefix(path@, "/"@) && s@ == "/"@),
                None => uncovered(ms, path@) && !has_prefix(path@, "/"@),
            }
        }),
{
    let ghost ms = mount_views(mounts@);
    let mut best: Option<usize> = None;
    let mut best_len: u128 = 0;
    let mut k: usize = 0;
    proof {
        reveal_strlit("/");
    }
    while k < mounts.len()
        invariant
            k <= mounts@.len(),
            ms == mount_views(mounts@),
            best is None ==> best_len == 0 && forall|j: int| 0 <= j < k ==> !covers(#[trigger] ms[j], path@),
            best matches Some(b) ==> b < k && covers(ms[b as int], path@) && best_len == utf8_len(
                ms[b as int].mount_point,
            ),
            best matches Some(b) ==> forall|j: int|
                0 <= j < k && covers(#[trigger] ms[j], path@) ==> utf8_len(ms[j].mount_point) <= best_len,
            best matches Some(b) ==> forall|j: int|
                0 <= j < b && covers(#[trigger] ms[j], path@) ==> utf8_len(ms[j].mount_point) < best_len,
        decreases mounts.len() - k,
    {
        let mp = mounts[k].mount_point.as_str();
        assert(ms[k as int].mount_point == mp@);
        if !same_chars(mp, "/") {
            let n = byte_len(mp);
            if starts_with(path, mp) && n > best_len {
                best = Some(k);
                best_len = n;
            }
        }
        k = k + 1;
    }
    match best {
        Some(b) => {
            assert(is_best_mount(ms, path@, b as int));
            Some(copy_str(mounts[b].mount_point.as_str()))
        },
        None => {
            if starts_with(path, "/") {
                Some(copy_str("/"))
            } else {
                None
            }
        },
    }
}

} // verus!
