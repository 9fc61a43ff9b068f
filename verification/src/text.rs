//! Displayed width of label text.
//!
//! Terminal layout reserves space by the number of columns a string occupies
//! on screen, which differs from its character count for wide and zero-width
//! characters. The width computation itself is delegated to the
//! `unicode_width` crate; the layout logic is verified over its named result.

use vstd::prelude::*;
use vstd::std_specs::iter::IteratorSpec;
use unicode_width::UnicodeWidthStr;

verus! {

/// The number of terminal columns `s` occupies when displayed.
pub uninterp spec fn display_width_of(s: Seq<char>) -> nat;

/// Relies on `unicode_width::UnicodeWidthStr::width`: the displayed width of
/// a string, a function of its characters alone. Its documented rules give
/// each character at most three columns, and the special multi-character
/// sequences stay within that same per-character cap, so the total is at
/// most three per character; an empty string has width zero.
#[verifier::external_body]
pub(crate) fn display_width(s: &str) -> (r: usize)
    ensures
        r == display_width_of(s@),
        r <= 3 * s@.len(),
        s@.len() == 0 ==> r == 0,
{
    UnicodeWidthStr::width(s)
}

/// The characters of `s`, in order, one per future grid cell.
pub fn chars_of(s: &str) -> (r: Vec<char>)
    ensures
        r@ == s@,
{
    broadcast use vstd::string::axiom_spec_iter;
    broadcast use vstd::string::next_postcondition;

    let mut it = s.chars();
    let mut out: Vec<char> = Vec::new();
    loop
        invariant
            it.obeys_prophetic_iter_laws(),
            it.decrease() is Some,
            out@ + vstd::std_specs::iter::IteratorSpec::remaining(&it) == s@,
        decreases vstd::std_specs::iter::IteratorSpec::decrease(&it)->0,
    {
        match it.next() {
            Some(c) => {
                out.push(c);
            },
            None => {
                return out;
            },
        }
    }
}

} // verus!
