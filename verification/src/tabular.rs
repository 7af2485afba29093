//! Parsing of one revision's source text: tab-separated rows, one header row
//! first, the code in the third column and the name in the fourth.  Reading
//! the text in is the caller's business; this module only turns it into rows.

use vstd::prelude::*;
use crate::store::Entry;
use crate::strops::lemma_split_on_len;
use crate::strops::split_on;
use crate::strops::split_str;

verus! {

/// A line with a trailing carriage return loses it; any other line stays.
pub open spec fn strip_cr(l: Seq<char>) -> Seq<char> {
    if l.len() > 0 && l.last() == '\r' {
        l.drop_last()
    } else {
        l
    }
}

/// The lines of `s`: the parts between newlines, each freed of a trailing
/// carriage return; a final empty part after a terminating newline is no
/// line of its own.
pub open spec fn spec_lines(s: Seq<char>) -> Seq<Seq<char>> {
    if s.len() == 0 {
        Seq::empty()
    } else {
        let p = split_on(s, '\n');
        let init = Seq::new((p.len() - 1) as nat, |i: int| strip_cr(p[i]));
        if p.last().len() == 0 {
            init
        } else {
            init.push(p.last())
        }
    }
}

/// The data rows of a table text: its lines after the header line.
pub open spec fn spec_data_rows(s: Seq<char>) -> Seq<Seq<char>> {
    if spec_lines(s).len() <= 1 {
        Seq::empty()
    } else {
        spec_lines(s).skip(1)
    }
}

/// The lines of `s`, as owned strings.
pub fn lines_of(s: &str) -> (r: Vec<String>)
    ensures
        r@.len() == spec_lines(s@).len(),
        forall|i: int| 0 <= i < r@.len() ==> r@[i]@ == spec_lines(s@)[i],
{
    let mut out: Vec<String> = Vec::new();
    if s.unicode_len() == 0 {
        return out;
    }
    let parts = split_str(s, '\n');
    proof {
        lemma_split_on_len(s@, '\n');
    }
    let m = parts.len();
    let mut k: usize = 0;
    while k < m - 1
        invariant
            m == split_on(s@, '\n').len(),
            m == parts@.len(),
            m >= 1,
            s@.len() > 0,
            0 <= k <= m - 1,
            out@.len() == k,
            forall|j: int| 0 <= j < m ==> parts@[j]@ == split_on(s@, '\n')[j],
            forall|j: int| 0 <= j < k ==> out@[j]@ == strip_cr(split_on(s@, '\n')[j]),
        decreases m - 1 - k,
    {
        let li = &parts[k];
        let ln = li.unicode_len();
        if ln > 0 && li.as_str().get_char(ln - 1) == '\r' {
            let stripped = li.as_str().substring_char(0, ln - 1).to_owned();
            proof {
                assert(li@.subrange(0, ln - 1) =~= li@.drop_last());
            }
            out.push(stripped);
        } else {
            out.push(li.clone());
        }
        k = k + 1;
    }
    let last = &parts[m - 1];
    if last.unicode_len() > 0 {
        out.push(last.clone());
    }
    proof {
        let p = split_on(s@, '\n');
        let init = Seq::new((p.len() - 1) as nat, |i: int| strip_cr(p[i]));
        assert(p.last() == p[m - 1]);
        if p.last().len() == 0 {
            assert(spec_lines(s@) =~= init);
        } else {
            assert(spec_lines(s@) =~= init.push(p.last()));
        }
    }
    out
}

/// The rows of one revision's table text, header skipped: the third and
/// fourth tab-separated fields of every data line, or nothing when some data
/// line has fewer than four fields.
pub fn parse_table(content: &str) -> (r: Option<Vec<Entry>>)
    ensures
        match r {
            Some(v) => {
                &&& v@.len() == spec_data_rows(content@).len()
                &&& forall|k: int|
                    0 <= k < v@.len() ==> {
                        &&& split_on(#[trigger] spec_data_rows(content@)[k], '\t').len() >= 4
                        &&& v@[k].code@ == split_on(spec_data_rows(content@)[k], '\t')[2]
                        &&& v@[k].name@ == split_on(spec_data_rows(content@)[k], '\t')[3]
                    }
            },
            None => exists|k: int|
                0 <= k < spec_data_rows(content@).len() && split_on(
                    #[trigger] spec_data_rows(content@)[k],
                    '\t',
                ).len() < 4,
        },
{
    let lines = lines_of(content);
    let total = lines.len();
    let mut entries: Vec<Entry> = Vec::new();
    if total <= 1 {
        return Some(entries);
    }
    let mut k: usize = 1;
    while k < total
        invariant
            total == spec_lines(content@).len(),
            total == lines@.len(),
            total > 1,
            1 <= k <= total,
            entries@.len() == k - 1,
            forall|j: int| 0 <= j < total ==> lines@[j]@ == spec_lines(content@)[j],
            forall|j: int|
                0 <= j < k - 1 ==> {
                    &&& split_on(#[trigger] spec_data_rows(content@)[j], '\t').len() >= 4
                    &&& entries@[j].code@ == split_on(spec_data_rows(content@)[j], '\t')[2]
                    &&& entries@[j].name@ == split_on(spec_data_rows(content@)[j], '\t')[3]
                },
        decreases total - k,
    {
        proof {
            assert(spec_data_rows(content@)[k - 1] == spec_lines(content@)[k as int]);
        }
        let fields = split_str(lines[k].as_str(), '\t');
        if fields.len() < 4 {
            return None;
        }
        let code = fields[2].clone();
        let name = fields[3].clone();
        entries.push(Entry { code, name });
        k = k + 1;
    }
    Some(entries)
}

} // verus!
