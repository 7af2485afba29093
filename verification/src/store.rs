//! The dataset: one code-to-name table per revision, immutable once built.
//! `Store::from_tables` admits a dataset only when it is self-consistent:
//! every revision identifier carries a recency key, codes are six digits and
//! unique within their table, and every code's province entry is present in
//! the same table.

use vstd::prelude::*;
use crate::codes::code_wf;
use crate::codes::make_province_code;
use crate::codes::province_code;
use crate::revkey::all_digits;
use crate::revkey::is_digit;
use crate::revkey::rev_key;
use crate::revkey::parse_rev_key;
use crate::strops::str_eq;

verus! {

/// One code-to-name row of a revision's table.
pub struct Entry {
    pub code: String,
    pub name: String,
}

/// The whole table of one revision.
pub struct RevisionTable {
    pub id: String,
    pub entries: Vec<Entry>,
}

/// All revisions' tables.
pub struct Store {
    pub tables: Vec<RevisionTable>,
}

/// The name at the first entry whose code is `code`, if any.
pub open spec fn table_lookup(entries: Seq<Entry>, code: Seq<char>) -> Option<Seq<char>>
    decreases entries.len(),
{
    if entries.len() == 0 {
        None
    } else if entries[0].code@ == code {
        Some(entries[0].name@)
    } else {
        table_lookup(entries.drop_first(), code)
    }
}

/// The first table whose identifier is `rev`, if any.
pub open spec fn find_table(tables: Seq<RevisionTable>, rev: Seq<char>) -> Option<RevisionTable>
    decreases tables.len(),
{
    if tables.len() == 0 {
        None
    } else if tables[0].id@ == rev {
        Some(tables[0])
    } else {
        find_table(tables.drop_first(), rev)
    }
}

/// Some entry of the table carries the province code of entry `i`'s code.
pub open spec fn province_present(t: RevisionTable, i: int) -> bool {
    exists|j: int|
        0 <= j < t.entries@.len() && t.entries@[j].code@ == province_code(t.entries@[i].code@)
}

/// A self-consistent revision table: non-empty, with a recency key on its
/// identifier, six-digit codes, no code twice, and the province entry of
/// every code present.
pub open spec fn table_wf(t: RevisionTable) -> bool {
    &&& t.entries@.len() > 0
    &&& rev_key(t.id@) is Some
    &&& forall|i: int| 0 <= i < t.entries@.len() ==> code_wf(#[trigger] t.entries@[i].code@)
    &&& forall|i: int, j: int|
        0 <= i < j < t.entries@.len() ==> t.entries@[i].code@ != t.entries@[j].code@
    &&& forall|i: int| 0 <= i < t.entries@.len() ==> #[trigger] province_present(t, i)
}

/// A self-consistent dataset: at least one revision, each table
/// self-consistent, no revision identifier twice.
pub open spec fn tables_wf(tables: Seq<RevisionTable>) -> bool {
    &&& tables.len() > 0
    &&& forall|i: int| 0 <= i < tables.len() ==> table_wf(#[trigger] tables[i])
    &&& forall|i: int, j: int| 0 <= i < j < tables.len() ==> tables[i].id@ != tables[j].id@
}

impl Store {
    pub open spec fn wf(self) -> bool {
        tables_wf(self.tables@)
    }
}

pub proof fn lemma_table_lookup_skip(entries: Seq<Entry>, code: Seq<char>, i: int)
    requires
        0 <= i <= entries.len(),
        forall|k: int| 0 <= k < i ==> entries[k].code@ != code,
    ensures
        table_lookup(entries, code) == table_lookup(entries.skip(i), code),
    decreases i,
{
    if i > 0 {
        assert(entries.skip(i - 1).drop_first() =~= entries.skip(i));
        lemma_table_lookup_skip(entries, code, i - 1);
        assert(entries.skip(i - 1)[0] == entries[i - 1]);
    } else {
        assert(entries.skip(0) =~= entries);
    }
}

/// A lookup succeeds exactly when some entry carries the code.
pub proof fn lemma_table_lookup_some_iff(entries: Seq<Entry>, code: Seq<char>)
    ensures
        table_lookup(entries, code) is Some <==> exists|j: int|
            0 <= j < entries.len() && entries[j].code@ == code,
    decreases entries.len(),
{
    if entries.len() > 0 {
        lemma_table_lookup_some_iff(entries.drop_first(), code);
        if entries[0].code@ != code {
            if exists|j: int| 0 <= j < entries.len() && entries[j].code@ == code {
                let j = choose|j: int| 0 <= j < entries.len() && entries[j].code@ == code;
                assert(entries.drop_first()[j - 1].code@ == code);
            }
            assert forall|j: int|
                0 <= j < entries.drop_first().len() && entries.drop_first()[j].code@
                    == code implies exists|k: int|
                0 <= k < entries.len() && entries[k].code@ == code by {
                assert(entries[j + 1].code@ == code);
            }
        }
    }
}

pub proof fn lemma_find_table_skip(tables: Seq<RevisionTable>, rev: Seq<char>, i: int)
    requires
        0 <= i <= tables.len(),
        forall|k: int| 0 <= k < i ==> tables[k].id@ != rev,
    ensures
        find_table(tables, rev) == find_table(tables.skip(i), rev),
    decreases i,
{
    if i > 0 {
        assert(tables.skip(i - 1).drop_first() =~= tables.skip(i));
        lemma_find_table_skip(tables, rev, i - 1);
        assert(tables.skip(i - 1)[0] == tables[i - 1]);
    } else {
        assert(tables.skip(0) =~= tables);
    }
}

/// A found table is a member of the dataset and carries the identifier that
/// was sought.
pub proof fn lemma_find_table_member(tables: Seq<RevisionTable>, rev: Seq<char>)
    requires
        find_table(tables, rev) is Some,
    ensures
        exists|i: int|
            0 <= i < tables.len() && tables[i] == find_table(tables, rev).unwrap(),
        find_table(tables, rev).unwrap().id@ == rev,
    decreases tables.len(),
{
    if tables.len() > 0 && tables[0].id@ != rev {
        lemma_find_table_member(tables.drop_first(), rev);
        let i = choose|i: int|
            0 <= i < tables.drop_first().len() && tables.drop_first()[i] == find_table(
                tables.drop_first(),
                rev,
            ).unwrap();
        assert(tables[i + 1] == find_table(tables, rev).unwrap());
    }
}

/// When no identifier repeats, the table at position `i` is the one found
/// under its own identifier.
pub proof fn lemma_find_table_at(tables: Seq<RevisionTable>, i: int)
    requires
        0 <= i < tables.len(),
        forall|p: int, q: int| 0 <= p < q < tables.len() ==> tables[p].id@ != tables[q].id@,
    ensures
        find_table(tables, tables[i].id@) == Some(tables[i]),
{
    lemma_find_table_skip(tables, tables[i].id@, i);
    assert(tables.skip(i)[0] == tables[i]);
}

/// The position of the first entry carrying `code`, when the lookup succeeds.
pub fn table_find(entries: &Vec<Entry>, code: &str) -> (r: Option<usize>)
    ensures
        match r {
            Some(j) => j < entries@.len() && entries@[j as int].code@ == code@ && table_lookup(
                entries@,
                code@,
            ) == Some(entries@[j as int].name@),
            None => table_lookup(entries@, code@) is None,
        },
{
    let n = entries.len();
    let mut i: usize = 0;
    while i < n
        invariant
            n == entries@.len(),
            0 <= i <= n,
            forall|k: int| 0 <= k < i ==> entries@[k].code@ != code@,
        decreases n - i,
    {
        if str_eq(entries[i].code.as_str(), code) {
            proof {
                lemma_table_lookup_skip(entries@, code@, i as int);
                assert(entries@.skip(i as int)[0] == entries@[i as int]);
            }
            return Some(i);
        }
        i = i + 1;
    }
    proof {
        lemma_table_lookup_skip(entries@, code@, n as int);
        assert(entries@.skip(n as int) =~= Seq::<Entry>::empty());
    }
    None
}

/// The position of the first table with identifier `rev`, when one exists.
pub fn store_find(tables: &Vec<RevisionTable>, rev: &str) -> (r: Option<usize>)
    ensures
        match r {
            Some(i) => i < tables@.len() && tables@[i as int].id@ == rev@ && find_table(
                tables@,
                rev@,
            ) == Some(tables@[i as int]),
            None => find_table(tables@, rev@) is None,
        },
{
    let n = tables.len();
    let mut i: usize = 0;
    while i < n
        invariant
            n == tables@.len(),
            0 <= i <= n,
            forall|k: int| 0 <= k < i ==> tables@[k].id@ != rev@,
        decreases n - i,
    {
        if str_eq(tables[i].id.as_str(), rev) {
            proof {
                lemma_find_table_skip(tables@, rev@, i as int);
                assert(tables@.skip(i as int)[0] == tables@[i as int]);
            }
            return Some(i);
        }
        i = i + 1;
    }
    proof {
        lemma_find_table_skip(tables@, rev@, n as int);
        assert(tables@.skip(n as int) =~= Seq::<RevisionTable>::empty());
    }
    None
}

/// Whether `s` is a well-formed code: six decimal digits.
pub fn check_code(s: &str) -> (r: bool)
    ensures
        r == code_wf(s@),
{
    let n = s.unicode_len();
    if n != 6 {
        return false;
    }
    let mut i: usize = 0;
    while i < n
        invariant
            n == s@.len(),
            0 <= i <= n,
            forall|j: int| 0 <= j < i ==> is_digit(s@[j]),
        decreases n - i,
    {
        let u = s.get_char(i) as u32;
        if u < 48 || u > 57 {
            return false;
        }
        i = i + 1;
    }
    proof {
        assert(all_digits(s@));
    }
    true
}

/// Whether one revision's table is self-consistent, as `table_wf` states it.
pub fn check_table(t: &RevisionTable) -> (r: bool)
    ensures
        r == table_wf(*t),
{
    let n = t.entries.len();
    if n == 0 {
        return false;
    }
    if parse_rev_key(t.id.as_str()).is_none() {
        return false;
    }
    let mut i: usize = 0;
    while i < n
        invariant
            n == t.entries@.len(),
            0 <= i <= n,
            forall|k: int| 0 <= k < i ==> code_wf(#[trigger] t.entries@[k].code@),
        decreases n - i,
    {
        if !check_code(t.entries[i].code.as_str()) {
            return false;
        }
        i = i + 1;
    }
    let mut i: usize = 0;
    while i < n
        invariant
            n == t.entries@.len(),
            0 <= i <= n,
            n > 0,
            rev_key(t.id@) is Some,
            forall|k: int| 0 <= k < n ==> code_wf(#[trigger] t.entries@[k].code@),
            forall|p: int, q: int|
                0 <= p < q < n && p < i ==> t.entries@[p].code@ != t.entries@[q].code@,
        decreases n - i,
    {
        let mut j: usize = i + 1;
        while j < n
            invariant
                n == t.entries@.len(),
                0 <= i < j <= n,
                n > 0,
                rev_key(t.id@) is Some,
                forall|k: int| 0 <= k < n ==> code_wf(#[trigger] t.entries@[k].code@),
                forall|q: int| i < q < j ==> t.entries@[i as int].code@ != t.entries@[q].code@,
                forall|p: int, q: int|
                    0 <= p < q < n && p < i ==> t.entries@[p].code@ != t.entries@[q].code@,
            decreases n - j,
        {
            if str_eq(t.entries[i].code.as_str(), t.entries[j].code.as_str()) {
                return false;
            }
            j = j + 1;
        }
        i = i + 1;
    }
    let mut i: usize = 0;
    while i < n
        invariant
            n == t.entries@.len(),
            0 <= i <= n,
            n > 0,
            rev_key(t.id@) is Some,
            forall|k: int| 0 <= k < n ==> code_wf(#[trigger] t.entries@[k].code@),
            forall|p: int, q: int|
                0 <= p < q < n ==> t.entries@[p].code@ != t.entries@[q].code@,
            forall|k: int| 0 <= k < i ==> #[trigger] province_present(*t, k),
        decreases n - i,
    {
        let pc = make_province_code(t.entries[i].code.as_str());
        match table_find(&t.entries, pc.as_str()) {
            None => {
                proof {
                    lemma_table_lookup_some_iff(t.entries@, pc@);
                    assert(!province_present(*t, i as int));
                }
                return false;
            },
            Some(j) => {
                proof {
                    assert(t.entries@[j as int].code@ == province_code(
                        t.entries@[i as int].code@,
                    ));
                    assert(province_present(*t, i as int));
                }
            },
        }
        i = i + 1;
    }
    true
}

impl Store {
    /// Builds the store from the revisions' tables, or refuses a dataset that
    /// is not self-consistent.
    pub fn from_tables(tables: Vec<RevisionTable>) -> (r: Option<Store>)
        ensures
            match r {
                Some(st) => st.tables@ == tables@ && st.wf(),
                None => !tables_wf(tables@),
            },
    {
        let n = tables.len();
        if n == 0 {
            return None;
        }
        let mut i: usize = 0;
        while i < n
            invariant
                n == tables@.len(),
                0 <= i <= n,
                forall|k: int| 0 <= k < i ==> table_wf(#[trigger] tables@[k]),
            decreases n - i,
        {
            if !check_table(&tables[i]) {
                return None;
            }
            i = i + 1;
        }
        let mut i: usize = 0;
        while i < n
            invariant
                n == tables@.len(),
                0 <= i <= n,
                n > 0,
                forall|k: int| 0 <= k < n ==> table_wf(#[trigger] tables@[k]),
                forall|p: int, q: int| 0 <= p < q < n && p < i ==> tables@[p].id@ != tables@[q].id@,
            decreases n - i,
        {
            let mut j: usize = i + 1;
            while j < n
                invariant
                    n == tables@.len(),
                    0 <= i < j <= n,
                    n > 0,
                    forall|k: int| 0 <= k < n ==> table_wf(#[trigger] tables@[k]),
                    forall|q: int| i < q < j ==> tables@[i as int].id@ != tables@[q].id@,
                    forall|p: int, q: int|
                        0 <= p < q < n && p < i ==> tables@[p].id@ != tables@[q].id@,
                decreases n - j,
            {
                if str_eq(tables[i].id.as_str(), tables[j].id.as_str()) {
                    return None;
                }
                j = j + 1;
            }
            i = i + 1;
        }
        Some(Store { tables })
    }
}

} // verus!
