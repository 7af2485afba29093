//! Divisions and their resolution.  A division is one row of one revision's
//! table; its place in the province/prefecture/county hierarchy is derived
//! from the digits of its code together with lookups in the same revision.

use vstd::prelude::*;
use crate::codes::make_prefecture_code;
use crate::codes::make_province_code;
use crate::codes::prefecture_code;
use crate::codes::province_code;
use crate::revkey::parse_rev_key;
use crate::revkey::rev_key;
use crate::revkey::rev_key_val;
use crate::store::find_table;
use crate::store::table_wf;
use crate::store::table_lookup;
use crate::store::table_find;
use crate::store::store_find;
use crate::store::Store;

verus! {

/// The default revision, the newest one a dataset is expected to carry.
pub const CURRENT_REVISION: &'static str = "202011";

/// What a division is, mathematically: its code, name, and revision as
/// character sequences.
pub ghost struct DivisionView {
    pub code: Seq<char>,
    pub name: Seq<char>,
    pub revision: Seq<char>,
}

/// One administrative division of one revision.
#[derive(Debug)]
pub struct Division {
    /// The six-digit code of the division.
    pub code: String,
    /// The name of the division.
    pub name: String,
    /// The revision the entry was found in.
    pub revision: String,
}

impl View for Division {
    type V = DivisionView;

    open spec fn view(&self) -> DivisionView {
        DivisionView { code: self.code@, name: self.name@, revision: self.revision@ }
    }
}

impl PartialEq for Division {
    fn eq(&self, other: &Self) -> bool {
        self.code == other.code && self.name == other.name && self.revision == other.revision
    }
}

impl vstd::std_specs::cmp::PartialEqSpecImpl for Division {
    open spec fn obeys_eq_spec() -> bool {
        true
    }

    open spec fn eq_spec(&self, other: &Self) -> bool {
        self@ == other@
    }
}

/// The view of a possibly absent division.
pub open spec fn opt_division_view(r: Option<Division>) -> Option<DivisionView> {
    match r {
        None => None,
        Some(d) => Some(d@),
    }
}

/// The division that revision `rev` records under `code`, if any.
pub open spec fn spec_get_by_revision(s: Store, code: Seq<char>, rev: Seq<char>) -> Option<
    DivisionView,
> {
    match find_table(s.tables@, rev) {
        None => None,
        Some(t) => match table_lookup(t.entries@, code) {
            None => None,
            Some(name) => Some(DivisionView { code, name, revision: rev }),
        },
    }
}

/// The division is recorded, as itself, in its own revision's table.
pub open spec fn div_in_store(s: Store, d: DivisionView) -> bool {
    spec_get_by_revision(s, d.code, d.revision) == Some(d)
}

/// The province-level division above `d`, at `d`'s own revision.
pub open spec fn spec_province(s: Store, d: DivisionView) -> Option<DivisionView> {
    spec_get_by_revision(s, province_code(d.code), d.revision)
}

/// A division is province-level exactly when it is its own province.
pub open spec fn spec_is_province(s: Store, d: DivisionView) -> bool {
    spec_province(s, d) == Some(d)
}

/// The prefecture-level division above `d`: absent for a province, otherwise
/// whatever the table records under `d`'s prefecture code.
pub open spec fn spec_prefecture(s: Store, d: DivisionView) -> Option<DivisionView> {
    if spec_is_province(s, d) {
        None
    } else {
        spec_get_by_revision(s, prefecture_code(d.code), d.revision)
    }
}

/// A division is prefecture-level exactly when it is its own prefecture.
pub open spec fn spec_is_prefecture(s: Store, d: DivisionView) -> bool {
    spec_prefecture(s, d) == Some(d)
}

/// County-level is what is neither province- nor prefecture-level.
pub open spec fn spec_is_county(s: Store, d: DivisionView) -> bool {
    !spec_is_province(s, d) && !spec_is_prefecture(s, d)
}

/// The ancestry chain of `d`, top down: the province; the prefecture when `d`
/// is below province level; `d` itself when it is county-level.
pub open spec fn spec_stack(s: Store, d: DivisionView) -> Seq<DivisionView> {
    let base = seq![spec_province(s, d)->Some_0];
    let with_pref = if spec_is_prefecture(s, d) || spec_is_county(s, d) {
        base.push(spec_prefecture(s, d)->Some_0)
    } else {
        base
    };
    if spec_is_county(s, d) {
        with_pref.push(d)
    } else {
        with_pref
    }
}

impl Division {
    /// The division recorded under `code` in the default revision.
    pub fn get(store: &Store, code: &str) -> (r: Option<Division>)
        ensures
            opt_division_view(r) == spec_get_by_revision(*store, code@, CURRENT_REVISION@),
    {
        Self::get_by_revision(store, code, CURRENT_REVISION)
    }

    /// The division recorded under `code` in revision `revision`; absence of
    /// either the revision or the code is a plain miss, not a failure.
    pub fn get_by_revision(store: &Store, code: &str, revision: &str) -> (r: Option<Division>)
        ensures
            opt_division_view(r) == spec_get_by_revision(*store, code@, revision@),
    {
        match store_find(&store.tables, revision) {
            None => None,
            Some(ti) => {
                let table = &store.tables[ti];
                match table_find(&table.entries, code) {
                    None => None,
                    Some(j) => {
                        let e = &table.entries[j];
                        Some(
                            Division {
                                code: e.code.clone(),
                                name: e.name.clone(),
                                revision: table.id.clone(),
                            },
                        )
                    },
                }
            },
        }
    }

    /// The most recent division recorded under `code` in any revision:
    /// revisions are ranked by their recency key, and the match with the
    /// greatest key wins; among equal keys the earliest table in the store.
    pub fn search(store: &Store, code: &str) -> (r: Option<Division>)
        requires
            store.wf(),
        ensures
            match r {
                None => forall|k: int|
                    0 <= k < store.tables@.len() ==> spec_get_by_revision(
                        *store,
                        code@,
                        #[trigger] store.tables@[k].id@,
                    ) is None,
                Some(d) => {
                    &&& spec_get_by_revision(*store, code@, d@.revision) == Some(d@)
                    &&& forall|k: int|
                        0 <= k < store.tables@.len() && spec_get_by_revision(
                            *store,
                            code@,
                            #[trigger] store.tables@[k].id@,
                        ) is Some ==> rev_key_val(store.tables@[k].id@) <= rev_key_val(d@.revision)
                },
            },
    {
        let n = store.tables.len();
        let mut best: Option<Division> = None;
        let mut best_key: u32 = 0;
        let mut i: usize = 0;
        while i < n
            invariant
                store.wf(),
                n == store.tables@.len(),
                0 <= i <= n,
                match best {
                    None => forall|k: int|
                        0 <= k < i ==> spec_get_by_revision(
                            *store,
                            code@,
                            #[trigger] store.tables@[k].id@,
                        ) is None,
                    Some(b) => {
                        &&& spec_get_by_revision(*store, code@, b@.revision) == Some(b@)
                        &&& rev_key(b@.revision) == Some(best_key)
                        &&& forall|k: int|
                            0 <= k < i && spec_get_by_revision(
                                *store,
                                code@,
                                #[trigger] store.tables@[k].id@,
                            ) is Some ==> rev_key_val(store.tables@[k].id@) <= best_key
                    },
                },
            decreases n - i,
        {
            proof {
                assert(table_wf(store.tables@[i as int]));
            }
            let found = Division::get_by_revision(store, code, store.tables[i].id.as_str());
            match found {
                None => {},
                Some(d) => {
                    let key = match parse_rev_key(store.tables[i].id.as_str()) {
                        Some(k) => k,
                        None => vstd::pervasive::unreached(),
                    };
                    let take = match &best {
                        None => true,
                        Some(_) => key > best_key,
                    };
                    if take {
                        best = Some(d);
                        best_key = key;
                    }
                },
            }
            i = i + 1;
        }
        best
    }

    /// The province-level division above this one, at the same revision.  A
    /// self-consistent dataset records a province entry for every division in
    /// it; a division whose province entry is missing is outside this
    /// function's contract, as the dataset it came from is malformed.
    pub fn province(&self, store: &Store) -> (r: Division)
        requires
            2 <= self@.code.len(),
            spec_province(*store, self@) is Some,
        ensures
            Some(r@) == spec_province(*store, self@),
    {
        let pc = make_province_code(self.code.as_str());
        match Self::get_by_revision(store, pc.as_str(), self.revision.as_str()) {
            Some(d) => d,
            None => vstd::pervasive::unreached(),
        }
    }

    /// Whether this division is province-level: equal to its own province.
    pub fn is_province(&self, store: &Store) -> (r: bool)
        requires
            2 <= self@.code.len(),
            spec_province(*store, self@) is Some,
        ensures
            r == spec_is_province(*store, self@),
    {
        let p = self.province(store);
        *self == p
    }

    /// The prefecture-level division above this one: absent for a province,
    /// and possibly absent for a gap in the dataset.
    pub fn prefecture(&self, store: &Store) -> (r: Option<Division>)
        requires
            4 <= self@.code.len(),
            spec_province(*store, self@) is Some,
        ensures
            opt_division_view(r) == spec_prefecture(*store, self@),
    {
        if self.is_province(store) {
            return None;
        }
        let pc = make_prefecture_code(self.code.as_str());
        Self::get_by_revision(store, pc.as_str(), self.revision.as_str())
    }

    /// Whether this division is prefecture-level: equal to its own prefecture.
    pub fn is_prefecture(&self, store: &Store) -> (r: bool)
        requires
            4 <= self@.code.len(),
            spec_province(*store, self@) is Some,
        ensures
            r == spec_is_prefecture(*store, self@),
    {
        match self.prefecture(store) {
            Some(p) => *self == p,
            None => false,
        }
    }

    /// This division itself when it is county-level, nothing otherwise.
    pub fn county<'a>(&'a self, store: &Store) -> (r: Option<&'a Division>)
        requires
            4 <= self@.code.len(),
            spec_province(*store, self@) is Some,
        ensures
            match r {
                Some(d) => spec_is_county(*store, self@) && d == self,
                None => !spec_is_county(*store, self@),
            },
    {
        if self.is_province(store) || self.is_prefecture(store) {
            return None;
        }
        Some(self)
    }

    /// Whether this division is county-level: neither province- nor
    /// prefecture-level.
    pub fn is_county(&self, store: &Store) -> (r: bool)
        requires
            4 <= self@.code.len(),
            spec_province(*store, self@) is Some,
        ensures
            r == spec_is_county(*store, self@),
    {
        match self.county(store) {
            Some(_) => true,
            None => false,
        }
    }

    /// The ancestry chain, top down: the province alone for a province-level
    /// division; province and prefecture for a prefecture-level one; all
    /// three for a county-level one.  A county-level division whose
    /// prefecture entry the dataset lacks is outside this contract, as the
    /// chain it asks for cannot be built.
    pub fn stack(&self, store: &Store) -> (r: Vec<Division>)
        requires
            4 <= self@.code.len(),
            spec_province(*store, self@) is Some,
            spec_is_county(*store, self@) ==> spec_prefecture(*store, self@) is Some,
        ensures
            r@.len() == spec_stack(*store, self@).len(),
            forall|i: int| 0 <= i < r@.len() ==> r@[i]@ == spec_stack(*store, self@)[i],
    {
        let mut res: Vec<Division> = Vec::new();
        res.push(self.province(store));
        let is_pref = self.is_prefecture(store);
        let is_cnty = self.is_county(store);
        if is_pref || is_cnty {
            match self.prefecture(store) {
                Some(p) => res.push(p),
                None => {
                    proof {
                        assert(false);
                    }
                },
            }
        }
        if is_cnty {
            res.push(
                Division {
                    code: self.code.clone(),
                    name: self.name.clone(),
                    revision: self.revision.clone(),
                },
            );
        }
        res
    }

    /// All revision identifiers the store knows, in store order.
    pub fn revisions(store: &Store) -> (r: Vec<String>)
        ensures
            r@.len() == store.tables@.len(),
            forall|i: int| 0 <= i < r@.len() ==> r@[i]@ == store.tables@[i].id@,
    {
        let n = store.tables.len();
        let mut ids: Vec<String> = Vec::new();
        let mut i: usize = 0;
        while i < n
            invariant
                n == store.tables@.len(),
                0 <= i <= n,
                ids@.len() == i,
                forall|k: int| 0 <= k < i ==> ids@[k]@ == store.tables@[k].id@,
            decreases n - i,
        {
            ids.push(store.tables[i].id.clone());
            i = i + 1;
        }
        ids
    }
}

} // verus!
