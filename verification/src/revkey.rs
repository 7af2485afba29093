//! Recency keys of revision identifiers.  An identifier is either a plain
//! year or year-month number, or a prefix and such a number separated by one
//! hyphen; the number is the key by which revisions are ordered in time.

use vstd::prelude::*;
use crate::strops::split_on;
use crate::strops::split_str;

verus! {

pub open spec fn is_digit(c: char) -> bool {
    48 <= c as u32 && c as u32 <= 57
}

pub open spec fn all_digits(s: Seq<char>) -> bool {
    forall|i: int| 0 <= i < s.len() ==> is_digit(s[i])
}

/// The value of a string of decimal digits, most significant first.
pub open spec fn digits_val(s: Seq<char>) -> nat
    decreases s.len(),
{
    if s.len() == 0 {
        0
    } else {
        (digits_val(s.drop_last()) * 10 + (s.last() as u32 - 48)) as nat
    }
}

/// The part of a revision identifier that carries its recency: the portion
/// after the hyphen when there is exactly one, the whole identifier otherwise.
pub open spec fn rev_key_part(r: Seq<char>) -> Seq<char> {
    let parts = split_on(r, '-');
    if parts.len() == 2 {
        parts[1]
    } else {
        r
    }
}

/// The recency of a revision identifier: the numeric value of its key part.
pub open spec fn rev_key_val(r: Seq<char>) -> nat {
    digits_val(rev_key_part(r))
}

/// The recency key of a revision identifier: the numeric value of its key
/// part, or nothing when that part is not a plain number that fits in `u32`.
pub open spec fn rev_key(r: Seq<char>) -> Option<u32> {
    let k = rev_key_part(r);
    if k.len() > 0 && all_digits(k) && digits_val(k) <= u32::MAX {
        Some(digits_val(k) as u32)
    } else {
        None
    }
}

proof fn lemma_digits_val_step(s: Seq<char>, i: int)
    requires
        0 <= i < s.len(),
    ensures
        digits_val(s.take(i + 1)) == (digits_val(s.take(i)) * 10 + (s[i] as u32 - 48)) as nat,
{
    assert(s.take(i + 1).drop_last() =~= s.take(i));
    assert(s.take(i + 1).last() == s[i]);
}

proof fn lemma_digits_val_prefix_le(s: Seq<char>, i: int)
    requires
        all_digits(s),
        0 <= i <= s.len(),
    ensures
        digits_val(s.take(i)) <= digits_val(s),
    decreases s.len(),
{
    if i < s.len() {
        let t = s.drop_last();
        assert(all_digits(t));
        assert(t.take(i) =~= s.take(i));
        lemma_digits_val_prefix_le(t, i);
        assert(is_digit(s.last()));
    } else {
        assert(s.take(i) =~= s);
    }
}

/// The numeric value of a string of decimal digits, or nothing when the
/// string is empty, holds another character, or exceeds `u32`.
pub fn parse_digits(s: &str) -> (r: Option<u32>)
    ensures
        r == (if s@.len() > 0 && all_digits(s@) && digits_val(s@) <= u32::MAX {
            Some(digits_val(s@) as u32)
        } else {
            None
        }),
{
    let n = s.unicode_len();
    if n == 0 {
        return None;
    }
    let mut i: usize = 0;
    while i < n
        invariant
            n == s@.len(),
            0 <= i <= n,
            forall|j: int| 0 <= j < i ==> is_digit(s@[j]),
        decreases n - i,
    {
        let c = s.get_char(i);
        let u = c as u32;
        if u < 48 || u > 57 {
            return None;
        }
        i = i + 1;
    }
    assert(all_digits(s@));
    let mut acc: u32 = 0;
    let mut i: usize = 0;
    while i < n
        invariant
            n == s@.len(),
            0 <= i <= n,
            all_digits(s@),
            acc == digits_val(s@.take(i as int)),
        decreases n - i,
    {
        let c = s.get_char(i);
        let d = (c as u32) - 48;
        proof {
            lemma_digits_val_step(s@, i as int);
        }
        if acc > (u32::MAX - d) / 10 {
            proof {
                lemma_digits_val_prefix_le(s@, i + 1);
            }
            return None;
        }
        acc = acc * 10 + d;
        i = i + 1;
    }
    proof {
        assert(s@.take(n as int) =~= s@);
    }
    Some(acc)
}

/// The recency key of a revision identifier, as `rev_key` gives it.
pub fn parse_rev_key(rev: &str) -> (r: Option<u32>)
    ensures
        r == rev_key(rev@),
{
    let parts = split_str(rev, '-');
    if parts.len() == 2 {
        parse_digits(parts[1].as_str())
    } else {
        parse_digits(rev)
    }
}

} // verus!
