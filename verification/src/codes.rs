//! Structure of division codes.  A code is six decimal digits: two for the
//! province, two for the prefecture within it, two for the county within
//! that.  A `00` prefecture or county segment means the code is an aggregate
//! at the level above.

use vstd::prelude::*;
use crate::revkey::all_digits;

verus! {

pub open spec fn zeros(n: nat) -> Seq<char> {
    Seq::new(n, |i: int| '0')
}

/// A well-formed code: exactly six decimal digits.
pub open spec fn code_wf(c: Seq<char>) -> bool {
    c.len() == 6 && all_digits(c)
}

/// The code of the province a code belongs to: its first two digits followed
/// by `0000`.
pub open spec fn province_code(c: Seq<char>) -> Seq<char> {
    c.subrange(0, 2) + zeros(4)
}

/// The code of the prefecture a code belongs to: its first four digits
/// followed by `00`.
pub open spec fn prefecture_code(c: Seq<char>) -> Seq<char> {
    c.subrange(0, 4) + zeros(2)
}

pub fn make_province_code(code: &str) -> (r: String)
    requires
        2 <= code@.len(),
    ensures
        r@ == province_code(code@),
{
    let p = code.substring_char(0, 2).to_owned();
    let r = p.concat("0000");
    proof {
        reveal_strlit("0000");
        assert("0000"@ =~= zeros(4));
        assert(r@ =~= province_code(code@));
    }
    r
}

pub fn make_prefecture_code(code: &str) -> (r: String)
    requires
        4 <= code@.len(),
    ensures
        r@ == prefecture_code(code@),
{
    let p = code.substring_char(0, 4).to_owned();
    let r = p.concat("00");
    proof {
        reveal_strlit("00");
        assert("00"@ =~= zeros(2));
        assert(r@ =~= prefecture_code(code@));
    }
    r
}

} // verus!
