//! Small verified helpers over strings: equality of two string slices and
//! splitting a string at a separator character.

use vstd::prelude::*;

verus! {

/// The parts of `s` split at every occurrence of `sep`, in order.  A string
/// with no separator is one part; each separator ends the part before it, so
/// the result always has one part more than `s` has separators.
pub open spec fn split_on(s: Seq<char>, sep: char) -> Seq<Seq<char>>
    decreases s.len(),
{
    if s.len() == 0 {
        seq![Seq::<char>::empty()]
    } else {
        let rest = split_on(s.drop_last(), sep);
        if s.last() == sep {
            rest.push(Seq::<char>::empty())
        } else {
            rest.update(rest.len() - 1, rest.last().push(s.last()))
        }
    }
}

pub proof fn lemma_split_on_len(s: Seq<char>, sep: char)
    ensures
        split_on(s, sep).len() >= 1,
    decreases s.len(),
{
    if s.len() > 0 {
        lemma_split_on_len(s.drop_last(), sep);
    }
}

/// Splitting one more character onto the end of `s` either opens a fresh
/// empty part (when that character is the separator) or lengthens the last
/// part by that character.
proof fn lemma_split_on_step(s: Seq<char>, sep: char, i: int)
    requires
        0 <= i < s.len(),
    ensures
        s[i] == sep ==> split_on(s.take(i + 1), sep) == split_on(s.take(i), sep).push(
            Seq::<char>::empty(),
        ),
        s[i] != sep ==> split_on(s.take(i + 1), sep) == split_on(s.take(i), sep).update(
            split_on(s.take(i), sep).len() - 1,
            split_on(s.take(i), sep).last().push(s[i]),
        ),
{
    assert(s.take(i + 1).drop_last() =~= s.take(i));
    assert(s.take(i + 1).last() == s[i]);
}

/// The parts of `s` split at every occurrence of `sep`, as owned strings.
pub fn split_str(s: &str, sep: char) -> (r: Vec<String>)
    ensures
        r@.len() == split_on(s@, sep).len(),
        forall|j: int| 0 <= j < r@.len() ==> r@[j]@ == split_on(s@, sep)[j],
{
    let n = s.unicode_len();
    let mut parts: Vec<String> = Vec::new();
    let mut start: usize = 0;
    let mut i: usize = 0;
    while i < n
        invariant
            n == s@.len(),
            start <= i <= n,
            split_on(s@.take(i as int), sep).len() == parts@.len() + 1,
            forall|j: int|
                0 <= j < parts@.len() ==> parts@[j]@ == split_on(s@.take(i as int), sep)[j],
            split_on(s@.take(i as int), sep).last() == s@.subrange(start as int, i as int),
        decreases n - i,
    {
        proof {
            lemma_split_on_step(s@, sep, i as int);
            lemma_split_on_len(s@.take(i as int), sep);
        }
        if s.get_char(i) == sep {
            let part = s.substring_char(start, i).to_owned();
            let ghost old_parts = parts@;
            let ghost partv = part@;
            proof {
                assert(split_on(s@.take(i as int), sep)[old_parts.len() as int] == s@.subrange(
                    start as int,
                    i as int,
                ));
            }
            parts.push(part);
            start = i + 1;
            proof {
                let prev = split_on(s@.take(i as int), sep);
                let next = split_on(s@.take(i + 1), sep);
                assert(next == prev.push(Seq::<char>::empty()));
                assert(next.last() =~= s@.subrange(start as int, i + 1));
                assert(parts@ == old_parts.push(part));
                assert forall|j: int| 0 <= j < parts@.len() implies parts@[j]@ == next[j] by {
                    assert(next[j] == prev[j]);
                    if j == old_parts.len() {
                        assert(parts@[j]@ == partv);
                    } else {
                        assert(parts@[j] == old_parts[j]);
                        assert(old_parts[j]@ == prev[j]);
                    }
                }
            }
        } else {
            proof {
                let prev = split_on(s@.take(i as int), sep);
                let next = split_on(s@.take(i + 1), sep);
                assert(next == prev.update(prev.len() - 1, prev.last().push(s@[i as int])));
                assert(next.last() =~= s@.subrange(start as int, i + 1));
                assert forall|j: int| 0 <= j < parts@.len() implies parts@[j]@ == next[j] by {
                    assert(parts@[j]@ == prev[j]);
                    assert(next[j] == prev[j]);
                }
            }
        }
        i = i + 1;
    }
    let last = s.substring_char(start, n).to_owned();
    parts.push(last);
    proof {
        assert(s@.take(n as int) =~= s@);
    }
    parts
}

/// Character-for-character equality of two string slices.
pub fn str_eq(a: &str, b: &str) -> (r: bool)
    ensures
        r == (a@ == b@),
{
    let n = a.unicode_len();
    if n != b.unicode_len() {
        return false;
    }
    for i in 0..n
        invariant
            n == a@.len(),
            n == b@.len(),
            forall|j: int| 0 <= j < i ==> a@[j] == b@[j],
    {
        if a.get_char(i) != b.get_char(i) {
            return false;
        }
    }
    proof {
        assert(a@ =~= b@);
    }
    true
}

} // verus!
