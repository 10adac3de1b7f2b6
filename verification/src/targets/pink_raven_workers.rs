//! Pink Raven workers: which failed units are its own, and how the reset
//! target reports them.
use vstd::prelude::*;
use crate::text::{copy_str, push_str, has_infix, joined, join, contains};
use crate::tokens::{views, pieces, first_words, first_word_of_lines};

verus! {

broadcast use vstd::string::group_string_axioms;

/// The sentinel file a running ingest leaves behind.
pub const INGEST_SENTINEL: &'static str = "/var/lib/pink-raven/ingest-running";

/// The unit names among `names` that mention `pink-raven`, in order.
pub open spec fn raven_units(names: Seq<Seq<char>>) -> Seq<Seq<char>>
    decreases names.len(),
{
    if names.len() == 0 {
        Seq::empty()
    } else if has_infix(names.last(), "pink-raven"@) {
        raven_units(names.drop_last()).push(names.last())
    } else {
        raven_units(names.drop_last())
    }
}

/// The Pink Raven units of a `systemctl --failed --no-legend --plain`
/// listing: the first word of each line, where it mentions `pink-raven`.
pub fn stuck_units(failed: &str) -> (r: Vec<String>)
    ensures
        views(r@) == raven_units(first_words(pieces(failed@, '\n'))),
{
    let names = first_word_of_lines(failed);
    let ghost nv = views(names@);
    let mut r: Vec<String> = Vec::new();
    let mut i: usize = 0;
    assert(nv.take(0) =~= Seq::<Seq<char>>::empty());
    while i < names.len()
        invariant
            i <= names@.len(),
            nv == views(names@),
            views(r@) == raven_units(nv.take(i as int)),
        decreases names.len() - i,
    {
        assert(nv.take(i + 1).drop_last() =~= nv.take(i as int));
        assert(nv.take(i + 1).last() == names@[i as int]@);
        if contains(names[i].as_str(), "pink-raven") {
            let ghost before = views(r@);
            r.push(copy_str(names[i].as_str()));
            assert(views(r@) =~= before.push(names@[i as int]@));
        }
        i = i + 1;
    }
    assert(nv.take(names@.len() as int) =~= nv);
    r
}

/// The note of the reset target: whether the sentinel is there, and the
/// stuck units (`none` when there are none).
pub open spec fn reset_notes(sentinel: bool, units: Seq<Seq<char>>) -> Seq<char> {
    "sentinel: "@ + (if sentinel {
        "present"@
    } else {
        "absent"@
    }) + ", stuck units: "@ + joined(units, ", "@) + if units.len() == 0 {
        "none"@
    } else {
        ""@
    }
}

/// The note of the reset target.
pub fn reset_note(sentinel: bool, units: &Vec<String>) -> (r: String)
    ensures
        r@ == reset_notes(sentinel, views(units@)),
{
    let mut r = copy_str("sentinel: ");
    if sentinel {
        push_str(&mut r, "present");
    } else {
        push_str(&mut r, "absent");
    }
    push_str(&mut r, ", stuck units: ");
    let j = join(units, ", ");
    assert(units@.map_values(|p: String| p@) =~= views(units@));
    push_str(&mut r, j.as_str());
    if units.len() == 0 {
        push_str(&mut r, "none");
    }
    proof {
        reveal_strlit("");
    }
    assert(r@ =~= reset_notes(sentinel, views(units@)));
    r
}

/// How many things the reset target would clear: the stuck units, and the
/// sentinel where it is there.
pub fn reset_count(sentinel: bool, units: &Vec<String>) -> (n: u64)
    requires
        units@.len() < u64::MAX,
    ensures
        n == units@.len() + if sentinel {
            1int
        } else {
            0int
        },
{
    let k = units.len() as u64;
    if sentinel {
        k + 1
    } else {
        k
    }
}

/// The note of the ingest inspection: the state systemd reports for the
/// ingest service.
pub fn ingest_notes(state: &str) -> (r: String)
    ensures
        r@ == "pink-raven-ingest.service: "@ + state@,
{
    let mut r = copy_str("pink-raven-ingest.service: ");
    push_str(&mut r, state);
    r
}

} // verus!
