//! Stuck cgroup scopes: counting stopped or uninterruptible processes and
//! abandoned scopes from command output.
use vstd::prelude::*;
use crate::text::{copy_str, push_str, decimal, decimal_string, has_infix, contains};
use crate::tokens::{views, pieces, count_mentioning, count_lines_mentioning, first_words, first_word_of_lines};

verus! {

broadcast use vstd::string::group_string_axioms;

/// The lines of `ps -eo pid,stat,comm` output that mention a `D` or `T`
/// (uninterruptible or stopped processes).
pub fn stuck_process_count(ps_output: &str) -> (n: u64)
    ensures
        n as nat == count_mentioning(pieces(ps_output@, '\n'), seq!["D"@, "T"@]),
{
    let mut needles: Vec<String> = Vec::new();
    needles.push(copy_str("D"));
    needles.push(copy_str("T"));
    assert(views(needles@) =~= seq!["D"@, "T"@]);
    count_lines_mentioning(ps_output, &needles)
}

/// The lines of the failed-unit listing that name a `.scope`.
pub fn abandoned_scope_count(units_output: &str) -> (n: u64)
    ensures
        n as nat == count_mentioning(pieces(units_output@, '\n'), seq![".scope"@]),
{
    let mut needles: Vec<String> = Vec::new();
    needles.push(copy_str(".scope"));
    assert(views(needles@) =~= seq![".scope"@]);
    count_lines_mentioning(units_output, &needles)
}

/// The note on stuck processes and abandoned scopes.
pub fn scope_notes(stuck: u64, abandoned: u64) -> (r: String)
    ensures
        r@ == decimal(stuck as nat) + " D/T-state processes, "@ + decimal(abandoned as nat) + " abandoned scopes"@,
{
    let mut r = decimal_string(stuck);
    push_str(&mut r, " D/T-state processes, ");
    push_str(&mut r, decimal_string(abandoned).as_str());
    push_str(&mut r, " abandoned scopes");
    r
}

/// The names among `names` that mention `.scope`, in order.
pub open spec fn scope_names(names: Seq<Seq<char>>) -> Seq<Seq<char>>
    decreases names.len(),
{
    if names.len() == 0 {
        Seq::empty()
    } else if has_infix(names.last(), ".scope"@) {
        scope_names(names.drop_last()).push(names.last())
    } else {
        scope_names(names.drop_last())
    }
}

/// The scopes that a reset stops: the first word of each line of the
/// failed-unit listing, where it mentions `.scope`.
pub fn scope_units(listing: &str) -> (r: Vec<String>)
    ensures
        views(r@) == scope_names(first_words(pieces(listing@, '\n'))),
{
    let names = first_word_of_lines(listing);
    let ghost nv = views(names@);
    let mut r: Vec<String> = Vec::new();
    let mut i: usize = 0;
    assert(nv.take(0) =~= Seq::<Seq<char>>::empty());
    while i < names.len()
        invariant
            i <= names@.len(),
            nv == views(names@),
            views(r@) == scope_names(nv.take(i as int)),
        decreases names.len() - i,
    {
        assert(nv.take(i + 1).drop_last() =~= nv.take(i as int));
        assert(nv.take(i + 1).last() == names@[i as int]@);
        if contains(names[i].as_str(), ".scope") {
            let ghost before = views(r@);
            r.push(copy_str(names[i].as_str()));
            assert(views(r@) =~= before.push(names@[i as int]@));
        }
        i = i + 1;
    }
    assert(nv.take(names@.len() as int) =~= nv);
    r
}

} // verus!
