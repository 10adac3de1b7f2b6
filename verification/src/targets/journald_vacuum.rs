//! The systemd journal: how large `journalctl --disk-usage` says it is.
use vstd::prelude::*;
use crate::text::{push_char, chars_of, copy_str, push_str};
use crate::tokens::{is_digit, parsed_u64, parse_u64};

verus! {

broadcast use vstd::string::group_string_axioms;

/// The decimal digits of `s`, in order, everything else dropped.
pub open spec fn digits_only(s: Seq<char>) -> Seq<char>
    decreases s.len(),
{
    if s.len() == 0 {
        Seq::empty()
    } else if is_digit(s.last()) {
        digits_only(s.drop_last()).push(s.last())
    } else {
        digits_only(s.drop_last())
    }
}

/// The journal size read from `journalctl --disk-usage` output: all its
/// digits run together, as a number (none when there are no digits or the
/// number does not fit).
pub fn disk_usage_bytes(usage: &str) -> (r: Option<u64>)
    ensures
        r == parsed_u64(digits_only(usage@)),
{
    let cs = chars_of(usage);
    let mut digits = String::new();
    let mut i: usize = 0;
    assert(usage@.take(0) =~= Seq::<char>::empty());
    while i < cs.len()
        invariant
            cs@ == usage@,
            i <= cs@.len(),
            digits@ == digits_only(usage@.take(i as int)),
        decreases cs.len() - i,
    {
        assert(usage@.take(i + 1).drop_last() =~= usage@.take(i as int));
        assert(usage@.take(i + 1).last() == cs@[i as int]);
        let c = cs[i];
        if '0' <= c && c <= '9' {
            push_char(&mut digits, c);
        }
        i = i + 1;
    }
    assert(usage@.take(cs@.len() as int) =~= usage@);
    parse_u64(digits.as_str())
}

/// The note of the size inspection: what `journalctl --disk-usage` said.
pub fn usage_notes(usage: &str) -> (r: String)
    ensures
        r@ == "journal disk usage: "@ + usage@,
{
    let mut r = copy_str("journal disk usage: ");
    push_str(&mut r, usage);
    r
}

} // verus!
