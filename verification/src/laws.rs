//! The general properties of the resolution engine, stated and proved once
//! for every self-consistent dataset.

use vstd::prelude::*;
use crate::codes::prefecture_code;
use crate::codes::province_code;
use crate::codes::zeros;
use crate::division::div_in_store;
use crate::division::spec_get_by_revision;
use crate::division::spec_is_county;
use crate::division::spec_is_prefecture;
use crate::division::spec_is_province;
use crate::division::spec_prefecture;
use crate::division::spec_province;
use crate::division::spec_stack;
use crate::division::DivisionView;
use crate::store::find_table;
use crate::store::lemma_find_table_at;
use crate::store::lemma_find_table_member;
use crate::store::lemma_table_lookup_some_iff;
use crate::store::province_present;
use crate::store::table_lookup;
use crate::store::table_wf;
use crate::store::Store;

verus! {

/// A successful lookup hands back a division that is recorded, as itself, in
/// the revision it names: the other laws therefore apply to every lookup
/// result.
pub proof fn lemma_get_in_store(s: Store, code: Seq<char>, rev: Seq<char>)
    requires
        spec_get_by_revision(s, code, rev) is Some,
    ensures
        div_in_store(s, spec_get_by_revision(s, code, rev)->Some_0),
        spec_get_by_revision(s, code, rev)->Some_0.code == code,
        spec_get_by_revision(s, code, rev)->Some_0.revision == rev,
{
}

/// Every division recorded in a self-consistent dataset has a resolvable
/// province: the dataset carries a row for the province code of each of its
/// rows.
pub proof fn lemma_in_store_province_resolves(s: Store, d: DivisionView)
    requires
        s.wf(),
        div_in_store(s, d),
    ensures
        spec_province(s, d) is Some,
{
    let t = find_table(s.tables@, d.revision)->Some_0;
    lemma_find_table_member(s.tables@, d.revision);
    let ti = choose|ti: int| 0 <= ti < s.tables@.len() && s.tables@[ti] == t;
    assert(table_wf(s.tables@[ti]));
    lemma_table_lookup_some_iff(t.entries@, d.code);
    let j = choose|j: int| 0 <= j < t.entries@.len() && t.entries@[j].code@ == d.code;
    assert(province_present(t, j));
    lemma_table_lookup_some_iff(t.entries@, province_code(d.code));
}

/// A division of a dataset equals the row its own province code resolves to
/// exactly when its last four digits are zero.
pub proof fn lemma_province_shape(s: Store, d: DivisionView)
    requires
        div_in_store(s, d),
        d.code.len() == 6,
    ensures
        spec_is_province(s, d) <==> (forall|i: int| 2 <= i < 6 ==> d.code[i] == '0'),
{
    if forall|i: int| 2 <= i < 6 ==> d.code[i] == '0' {
        assert(province_code(d.code) =~= d.code);
    }
    if spec_is_province(s, d) {
        assert forall|i: int| 2 <= i < 6 implies d.code[i] == '0' by {
            assert(d.code == province_code(d.code));
            assert(province_code(d.code)[i] == zeros(4)[i - 2]);
        }
    }
}

/// A division recorded with its last four digits zero is province-level, is
/// neither prefecture- nor county-level, and its ancestry chain is itself
/// alone.
pub proof fn lemma_province_level(s: Store, d: DivisionView)
    requires
        div_in_store(s, d),
        d.code.len() == 6,
        forall|i: int| 2 <= i < 6 ==> d.code[i] == '0',
    ensures
        spec_is_province(s, d),
        !spec_is_prefecture(s, d),
        !spec_is_county(s, d),
        spec_stack(s, d).len() == 1,
        spec_stack(s, d)[0] == d,
{
    assert(province_code(d.code) =~= d.code);
}

/// A division recorded with digits five and six zero but a non-zero
/// prefecture segment is prefecture-level and its ancestry chain has two
/// members, ending in itself.
pub proof fn lemma_prefecture_level(s: Store, d: DivisionView)
    requires
        div_in_store(s, d),
        d.code.len() == 6,
        d.code[4] == '0' && d.code[5] == '0',
        !(d.code[2] == '0' && d.code[3] == '0'),
    ensures
        spec_is_prefecture(s, d),
        !spec_is_province(s, d),
        !spec_is_county(s, d),
        spec_stack(s, d).len() == 2,
        spec_stack(s, d)[1] == d,
{
    if spec_is_province(s, d) {
        assert(d.code == province_code(d.code));
        assert(d.code[2] == zeros(4)[0]);
        assert(d.code[3] == zeros(4)[1]);
    }
    assert(prefecture_code(d.code) =~= d.code);
}

/// A county-level division of a self-consistent dataset, when its prefecture
/// row is present, has a full three-member ancestry chain ending in itself.
pub proof fn lemma_county_stack(s: Store, d: DivisionView)
    requires
        s.wf(),
        div_in_store(s, d),
        spec_is_county(s, d),
        spec_prefecture(s, d) is Some,
    ensures
        spec_province(s, d) is Some,
        spec_stack(s, d).len() == 3,
        spec_stack(s, d)[0] == spec_province(s, d)->Some_0,
        spec_stack(s, d)[1] == spec_prefecture(s, d)->Some_0,
        spec_stack(s, d)[2] == d,
{
    lemma_in_store_province_resolves(s, d);
}

/// Taking the province twice is the same as taking it once: the province row
/// a division resolves to is itself province-level.
pub proof fn lemma_province_idempotent(s: Store, d: DivisionView)
    requires
        2 <= d.code.len(),
        spec_province(s, d) is Some,
    ensures
        spec_is_province(s, spec_province(s, d)->Some_0),
        spec_province(s, spec_province(s, d)->Some_0) == spec_province(s, d),
{
    let p = spec_province(s, d)->Some_0;
    assert(p.code == province_code(d.code));
    assert(province_code(p.code) =~= p.code);
}

/// A self-consistent dataset has at least one revision, and every one of its
/// revision identifiers resolves at least one code.
pub proof fn lemma_revisions_resolve(s: Store)
    requires
        s.wf(),
    ensures
        s.tables@.len() > 0,
        forall|i: int|
            0 <= i < s.tables@.len() ==> exists|c: Seq<char>|
                spec_get_by_revision(s, c, #[trigger] s.tables@[i].id@) is Some,
{
    assert forall|i: int| 0 <= i < s.tables@.len() implies exists|c: Seq<char>|
        spec_get_by_revision(s, c, #[trigger] s.tables@[i].id@) is Some by {
        assert(table_wf(s.tables@[i]));
        lemma_find_table_at(s.tables@, i);
        let t = s.tables@[i];
        let c = t.entries@[0].code@;
        lemma_table_lookup_some_iff(t.entries@, c);
        assert(t.entries@[0].code@ == c);
        assert(spec_get_by_revision(s, c, s.tables@[i].id@) is Some);
    }
}


} // verus!
