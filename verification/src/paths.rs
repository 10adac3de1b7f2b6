//! Path strings and their components.
//!
//! Paths are carried as strings. Their structure comes from std's
//! `Path::components`, whose documented result is `path_components`;
//! equality and containment are then decided component by component, as
//! `Path` does.
use vstd::prelude::*;

use crate::text::{push_char, push_str, same_chars};
use crate::tokens::pieces;

verus! {

/// The pieces of a path between separators that name something: empty
/// pieces (repeated or trailing `/`) and `.` are dropped.
pub open spec fn named_pieces(ps: Seq<Seq<char>>) -> Seq<Seq<char>>
    decreases ps.len(),
{
    if ps.len() == 0 {
        Seq::empty()
    } else {
        let prev = named_pieces(ps.drop_last());
        if ps.last().len() == 0 || ps.last() == seq!['.'] {
            prev
        } else {
            prev.push(ps.last())
        }
    }
}

/// The components of the path `s` as `Path::components` yields them on
/// Unix, each as its `as_os_str` text. As std documents it: a leading `/`
/// is the root component `/`; repeated separators and a trailing one are
/// ignored; `.` is dropped except as the very first component of a
/// relative path; `..` and names stand as they are.
#[verifier::opaque]
pub open spec fn path_components(s: Seq<char>) -> Seq<Seq<char>> {
    let ps = pieces(s, '/');
    if s.len() > 0 && s[0] == '/' {
        seq![seq!['/']] + named_pieces(ps.drop_first())
    } else if ps.len() > 0 && ps[0] == seq!['.'] {
        seq![seq!['.']] + named_pieces(ps.drop_first())
    } else {
        named_pieces(ps)
    }
}

/// Calls `std::path::Path::components` and converts each component to its
/// text (every component of a `&str` path is valid UTF-8, so the conversion
/// is exact). Claimed: the texts are `path_components` of the path.
#[verifier::external_body]
pub(crate) fn components_of(s: &str) -> (parts: Vec<String>)
    ensures
        parts.deep_view() == path_components(s@),
{
    std::path::Path::new(s).components().map(|c| c.as_os_str().to_string_lossy().into_owned()).collect()
}

/// The root component's text.
pub open spec fn root_text() -> Seq<char> {
    seq!['/']
}

/// A plain name component: neither the root, `.` nor `..`.
pub open spec fn is_name(c: Seq<char>) -> bool {
    c != root_text() && c != seq!['.'] && c != seq!['.', '.']
}

/// `a` is a prefix of `b`, element by element.
pub open spec fn is_prefix_of<T>(a: Seq<T>, b: Seq<T>) -> bool {
    a.len() <= b.len() && b.subrange(0, a.len() as int) == a
}

/// `Path` equality: the same components.
pub open spec fn same_path(a: Seq<char>, b: Seq<char>) -> bool {
    path_components(a) == path_components(b)
}

/// `Path::starts_with`: the components of `base` begin those of `p`.
pub open spec fn path_starts_with(p: Seq<char>, base: Seq<char>) -> bool {
    is_prefix_of(path_components(base), path_components(p))
}

/// `Path::file_name`: the last component when it is a plain name.
pub open spec fn file_name(p: Seq<char>) -> Option<Seq<char>> {
    let c = path_components(p);
    if c.len() > 0 && is_name(c.last()) {
        Some(c.last())
    } else {
        None
    }
}

/// `Path::join` with `name`: an absolute `name` replaces `dir`; otherwise a
/// separator is inserted when `dir` is non-empty and does not end in one.
pub open spec fn join_path(dir: Seq<char>, name: Seq<char>) -> Seq<char> {
    if name.len() > 0 && name[0] == '/' {
        name
    } else if dir.len() > 0 && dir.last() != '/' {
        dir + seq!['/'] + name
    } else {
        dir + name
    }
}

fn same_parts(a: &Vec<String>, b: &Vec<String>, n: usize) -> (r: bool)
    requires
        n <= a@.len(),
        n <= b@.len(),
    ensures
        r == (a.deep_view().subrange(0, n as int) == b.deep_view().subrange(0, n as int)),
{
    let mut i: usize = 0;
    while i < n
        invariant
            n <= a@.len(),
            n <= b@.len(),
            i <= n,
            forall|j: int| 0 <= j < i ==> a.deep_view()[j] == b.deep_view()[j],
        decreases n - i,
    {
        if !same_chars(a[i].as_str(), b[i].as_str()) {
            assert(a.deep_view().subrange(0, n as int)[i as int] != b.deep_view().subrange(
                0,
                n as int,
            )[i as int]);
            return false;
        }
        i = i + 1;
    }
    assert(a.deep_view().subrange(0, n as int) =~= b.deep_view().subrange(0, n as int));
    true
}

/// `Path` equality of `a` and `b`.
pub fn paths_equal(a: &str, b: &str) -> (r: bool)
    ensures
        r == same_path(a@, b@),
{
    let x = components_of(a);
    let y = components_of(b);
    if x.len() != y.len() {
        return false;
    }
    let r = same_parts(&x, &y, x.len());
    assert(x.deep_view().subrange(0, x@.len() as int) =~= x.deep_view());
    assert(y.deep_view().subrange(0, y@.len() as int) =~= y.deep_view());
    r
}

/// `Path::starts_with(p, base)`.
pub fn starts_with_path(p: &str, base: &str) -> (r: bool)
    ensures
        r == path_starts_with(p@, base@),
{
    let x = components_of(p);
    let y = components_of(base);
    if y.len() > x.len() {
        return false;
    }
    let r = same_parts(&y, &x, y.len());
    assert(y.deep_view().subrange(0, y@.len() as int) =~= y.deep_view());
    r
}

/// Whether the component text `c` is a plain name.
pub fn is_name_exec(c: &str) -> (r: bool)
    ensures
        r == is_name(c@),
{
    let cs = crate::text::chars_of(c);
    if cs.len() == 1 && (cs[0] == '/' || cs[0] == '.') {
        assert(cs@ =~= seq![cs@[0]]);
        return false;
    }
    if cs.len() == 2 && cs[0] == '.' && cs[1] == '.' {
        assert(cs@ =~= seq!['.', '.']);
        return false;
    }
    true
}

/// `Path::file_name` of `p`.
pub fn file_name_of(p: &str) -> (r: Option<String>)
    ensures
        match r {
            Some(n) => file_name(p@) == Some(n@),
            None => file_name(p@) is None,
        },
{
    let parts = components_of(p);
    if parts.len() == 0 {
        return None;
    }
    let last = parts.len() - 1;
    assert(parts.deep_view().last() == parts@[last as int]@);
    if is_name_exec(parts[last].as_str()) {
        Some(crate::text::copy_str(parts[last].as_str()))
    } else {
        None
    }
}

/// `dir.join(name)` as a string.
pub fn join(dir: &str, name: &str) -> (r: String)
    ensures
        r@ == join_path(dir@, name@),
{
    let d = crate::text::chars_of(dir);
    let n = crate::text::chars_of(name);
    let mut r = String::new();
    if n.len() > 0 && n[0] == '/' {
        push_str(&mut r, name);
        assert(r@ =~= join_path(dir@, name@));
        return r;
    }
    push_str(&mut r, dir);
    if d.len() > 0 && d[d.len() - 1] != '/' {
        push_char(&mut r, '/');
    }
    push_str(&mut r, name);
    assert(r@ =~= join_path(dir@, name@));
    r
}

/// Component sequences in lexicographic order, each component compared as
/// text.
pub open spec fn parts_lt(a: Seq<Seq<char>>, b: Seq<Seq<char>>) -> bool
    decreases a.len(),
{
    if b.len() == 0 {
        false
    } else if a.len() == 0 {
        true
    } else if a[0] != b[0] {
        crate::text::seq_lt(a[0], b[0])
    } else {
        parts_lt(a.drop_first(), b.drop_first())
    }
}

/// Paths ordered component by component: the order of `Path` wherever the
/// first components that differ are plain names, as they are for paths
/// below one root.
pub open spec fn path_lt(a: Seq<char>, b: Seq<char>) -> bool {
    parts_lt(path_components(a), path_components(b))
}

/// No component sequence is below itself.
pub proof fn lemma_parts_lt_irreflexive(a: Seq<Seq<char>>)
    ensures
        !parts_lt(a, a),
    decreases a.len(),
{
    if a.len() > 0 {
        lemma_parts_lt_irreflexive(a.drop_first());
    }
}

/// `parts_lt` is transitive.
pub proof fn lemma_parts_lt_transitive(a: Seq<Seq<char>>, b: Seq<Seq<char>>, c: Seq<Seq<char>>)
    requires
        parts_lt(a, b),
        parts_lt(b, c),
    ensures
        parts_lt(a, c),
    decreases a.len(),
{
    if a.len() > 0 && b.len() > 0 && c.len() > 0 {
        if a[0] == b[0] && b[0] == c[0] {
            lemma_parts_lt_transitive(a.drop_first(), b.drop_first(), c.drop_first());
        } else if a[0] != b[0] && b[0] != c[0] {
            crate::text::lemma_seq_lt_transitive(a[0], b[0], c[0]);
            if a[0] == c[0] {
                crate::text::lemma_seq_lt_irreflexive(a[0]);
            }
        }
    }
}

/// Of two distinct component sequences, one is below the other.
pub proof fn lemma_parts_lt_total(a: Seq<Seq<char>>, b: Seq<Seq<char>>)
    ensures
        a == b || parts_lt(a, b) || parts_lt(b, a),
    decreases a.len(),
{
    if a.len() == 0 && b.len() == 0 {
        assert(a =~= b);
    } else if a.len() > 0 && b.len() > 0 {
        if a[0] == b[0] {
            lemma_parts_lt_total(a.drop_first(), b.drop_first());
            if a.drop_first() == b.drop_first() {
                assert(a =~= seq![a[0]] + a.drop_first());
                assert(b =~= seq![b[0]] + b.drop_first());
            }
        } else {
            crate::text::lemma_seq_lt_total(a[0], b[0]);
        }
    }
}

/// Whether `a` comes before `b` component by component.
pub fn path_less(a: &str, b: &str) -> (r: bool)
    ensures
        r == path_lt(a@, b@),
{
    let x = components_of(a);
    let y = components_of(b);
    let ghost xv = x.deep_view();
    let ghost yv = y.deep_view();
    let mut i: usize = 0;
    assert(xv.skip(0) =~= xv);
    assert(yv.skip(0) =~= yv);
    while i < x.len() && i < y.len() && same_chars(x[i].as_str(), y[i].as_str())
        invariant
            xv == x.deep_view(),
            yv == y.deep_view(),
            xv == path_components(a@),
            yv == path_components(b@),
            i <= x@.len(),
            i <= y@.len(),
            path_lt(a@, b@) == parts_lt(xv.skip(i as int), yv.skip(i as int)),
        decreases x.len() - i,
    {
        assert(xv.skip(i as int).drop_first() =~= xv.skip(i + 1));
        assert(yv.skip(i as int).drop_first() =~= yv.skip(i + 1));
        assert(xv.skip(i as int)[0] == x@[i as int]@);
        assert(yv.skip(i as int)[0] == y@[i as int]@);
        i = i + 1;
    }
    if i == y.len() {
        assert(yv.skip(i as int).len() == 0);
        false
    } else if i == x.len() {
        assert(xv.skip(i as int).len() == 0);
        true
    } else {
        assert(xv.skip(i as int)[0] == x@[i as int]@);
        assert(yv.skip(i as int)[0] == y@[i as int]@);
        crate::text::str_lt(x[i].as_str(), y[i].as_str())
    }
}

/// Path texts order as `Path` orders them: component by component.
impl crate::sort::SortKey for String {
    open spec fn key_lt(self, other: Self) -> bool {
        path_lt(self@, other@)
    }

    proof fn lemma_irreflexive(a: Self) {
        lemma_parts_lt_irreflexive(path_components(a@));
    }

    proof fn lemma_transitive(a: Self, b: Self, c: Self) {
        lemma_parts_lt_transitive(path_components(a@), path_components(b@), path_components(c@));
    }

    proof fn lemma_ties_transitive(a: Self, b: Self, c: Self) {
        lemma_parts_lt_total(path_components(a@), path_components(b@));
        lemma_parts_lt_total(path_components(b@), path_components(c@));
    }

    fn less(&self, other: &Self) -> (r: bool) {
        path_less(self.as_str(), other.as_str())
    }
}

/// Paths ordered as `Path` orders them (component by component), equal
/// paths in their order.
pub fn sort_paths(paths: Vec<String>) -> (r: Vec<String>)
    ensures
        exists|p: Seq<int>| crate::sort::stably_sorted(paths@, r@, p),
{
    crate::sort::stable_sort(paths)
}

} // verus!
