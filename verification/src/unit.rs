//! Units of measure: decides whether a rendered unit needs a space between
//! the amount and the unit text (bare SI units and their prefixed forms are
//! set flush against the number).

use vstd::prelude::*;
use vstd::string::StrSliceExecFns;

verus! {

/// The bare SI unit letters: gram, litre, metre.
pub open spec fn is_si_unit(c: char) -> bool {
    c == 'g' || c == 'l' || c == 'm'
}

/// The SI magnitude prefixes: kilo, deci, centi, milli, micro.
pub open spec fn is_si_prefix(c: char) -> bool {
    c == 'k' || c == 'd' || c == 'c' || c == 'm' || c == '\u{b5}'
}

/// Whether a unit text needs a space before it: everything but a bare SI
/// unit letter, optionally preceded by one SI magnitude prefix. A lone
/// prefix letter is not a unit and gets a space.
pub open spec fn spec_unit_needs_space(s: Seq<char>) -> bool {
    if s.len() == 0 {
        false
    } else if is_si_prefix(s[0]) {
        if s.len() == 1 {
            true
        } else {
            !is_si_unit(s[1])
        }
    } else {
        !is_si_unit(s[0])
    }
}

fn si_unit(c: char) -> (r: bool)
    ensures
        r == is_si_unit(c),
{
    c == 'g' || c == 'l' || c == 'm'
}

fn si_prefix(c: char) -> (r: bool)
    ensures
        r == is_si_prefix(c),
{
    c == 'k' || c == 'd' || c == 'c' || c == 'm' || c == '\u{b5}'
}

/// Decides [`spec_unit_needs_space`] for a rendered unit text.
pub fn unit_needs_space(s: &str) -> (r: bool)
    ensures
        r == spec_unit_needs_space(s@),
{
    let n = s.unicode_len();
    if n == 0 {
        return false;
    }
    let first = s.get_char(0);
    if si_prefix(first) {
        if n == 1 {
            true
        } else {
            !si_unit(s.get_char(1))
        }
    } else {
        !si_unit(first)
    }
}

} // verus!
