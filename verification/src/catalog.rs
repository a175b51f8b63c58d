//! Item catalog and the derived filter tables.
//!
//! The catalog is a read-only table of item metadata keyed by a 16-bit id;
//! it is built once at startup from the pre-baked dataset and never mutated.
//! The merchant draws ids from the fixed domain `[0, 790)`.  Two exclusion
//! sets mark ids that can never appear as stock (absent or blacklisted ids,
//! and category-rule rejects); the fast-exclude jump table maps every id to
//! the next id, scanning forward cyclically, that is in neither set.

use vstd::prelude::*;

verus! {

/// One catalog record: the slash-delimited fields of the dataset.
pub struct ObjectInformation {
    pub name: String,
    pub price: u16,
    pub edibility: i16,
    pub type_and_category: String,
    pub display_name: String,
    pub description: String,
}

/// The catalog, as a dense table: `entries[id]` is the record for `id`, or
/// `None` where the dataset has no such id.
pub struct Catalog {
    pub entries: Vec<Option<ObjectInformation>>,
}

/// The record for `id`, or `None` where the catalog has none.
pub open spec fn spec_catalog_get(entries: Seq<Option<ObjectInformation>>, id: u16) -> Option<
    ObjectInformation,
> {
    if id < entries.len() {
        entries[id as int]
    } else {
        None
    }
}

impl Catalog {
    pub fn get(&self, id: u16) -> (r: Option<&ObjectInformation>)
        ensures
            match r {
                Some(e) => spec_catalog_get(self.entries@, id) == Some(*e),
                None => spec_catalog_get(self.entries@, id) is None,
            },
    {
        if (id as usize) < self.entries.len() {
            match &self.entries[id as usize] {
                Some(e) => Some(e),
                None => None,
            }
        } else {
            None
        }
    }
}

/// The three derived lookup tables, each covering the whole domain.
pub struct FilterTables {
    /// Ids that can never appear as stock: absent from the catalog or
    /// blacklisted.
    pub first: Vec<bool>,
    /// Ids that pass the first set but are disallowed by category rules.
    pub second: Vec<bool>,
    /// For every id, the next id forward (cyclically, strictly after it)
    /// outside both exclusion sets.
    pub fast: Vec<u16>,
}

/// Forward cyclic distance from `i` to `j` in the domain: in `[1, 790]`,
/// with a full lap for `j == i`.
pub open spec fn spec_cyc_dist(i: int, j: int) -> int {
    if j > i {
        j - i
    } else {
        j - i + 790
    }
}

impl FilterTables {
    pub open spec fn len_ok(&self) -> bool {
        &&& self.first@.len() == 790
        &&& self.second@.len() == 790
        &&& self.fast@.len() == 790
    }

    /// `id` is in neither exclusion set.
    pub open spec fn spec_open_id(&self, id: int) -> bool {
        &&& 0 <= id < 790
        &&& !self.first@[id]
        &&& !self.second@[id]
    }

    /// The jump table is exactly "next open id, strictly after, cyclically".
    pub open spec fn wf(&self) -> bool {
        &&& self.len_ok()
        &&& forall|i: int|
            0 <= i < 790 ==> self.spec_open_id(#[trigger] self.fast@[i] as int)
        &&& forall|i: int, k: int|
            #![trigger spec_cyc_dist(i, k)]
            0 <= i < 790 && 0 <= k < 790 && spec_cyc_dist(i, k) < spec_cyc_dist(
                i,
                self.fast@[i] as int,
            ) ==> !self.spec_open_id(k)
    }

    /// Derive the jump table from the two exclusion sets.  Returns `None`
    /// exactly when every id is excluded, in which case no jump table
    /// exists.
    pub fn build(first: Vec<bool>, second: Vec<bool>) -> (r: Option<FilterTables>)
        requires
            first@.len() == 790,
            second@.len() == 790,
        ensures
            match r {
                Some(t) => t.wf() && t.first == first && t.second == second,
                None => forall|k: int|
                    0 <= k < 790 ==> (#[trigger] first@[k] || second@[k]),
            },
    {
        let mut fast: Vec<u16> = Vec::new();
        let mut i: usize = 0;
        while i < 790
            invariant
                first@.len() == 790,
                second@.len() == 790,
                i <= 790,
                fast@.len() == i,
                forall|x: int|
                    0 <= x < i ==> (0 <= #[trigger] fast@[x] < 790 && !first@[fast@[x] as int]
                        && !second@[fast@[x] as int]),
                forall|x: int, k: int|
                    #![trigger spec_cyc_dist(x, k)]
                    0 <= x < i && 0 <= k < 790 && spec_cyc_dist(x, k) < spec_cyc_dist(
                        x,
                        fast@[x] as int,
                    ) ==> (first@[k] || second@[k]),
            decreases 790 - i,
        {
            let mut d: usize = 1;
            let mut found: bool = false;
            let mut hit: u16 = 0;
            while d <= 790 && !found
                invariant
                    first@.len() == 790,
                    second@.len() == 790,
                    i < 790,
                    1 <= d <= 791,
                    !found ==> forall|k: int|
                        0 <= k < 790 && 1 <= spec_cyc_dist(i as int, k) < d ==> (#[trigger] first@[k]
                            || second@[k]),
                    found ==> ({
                        &&& 0 <= hit < 790
                        &&& !first@[hit as int]
                        &&& !second@[hit as int]
                        &&& spec_cyc_dist(i as int, hit as int) <= d
                        &&& forall|k: int|
                            0 <= k < 790 && spec_cyc_dist(i as int, k) < spec_cyc_dist(
                                i as int,
                                hit as int,
                            ) ==> (#[trigger] first@[k] || second@[k])
                    }),
                decreases 791 - d + (if found { 0int } else { 1int }),
            {
                let j: usize = (i + d) % 790;
                if !first[j] && !second[j] {
                    found = true;
                    hit = j as u16;
                    proof {
                        assert(spec_cyc_dist(i as int, j as int) == d);
                    }
                } else {
                    proof {
                        assert(spec_cyc_dist(i as int, j as int) == d);
                    }
                    d = d + 1;
                }
            }
            if !found {
                proof {
                    assert forall|k: int| 0 <= k < 790 implies (#[trigger] first@[k] || second@[k])
                    by {
                        assert(1 <= spec_cyc_dist(i as int, k) <= 790);
                    }
                }
                return None;
            }
            fast.push(hit);
            i = i + 1;
        }
        Some(FilterTables { first, second, fast })
    }
}

/// Repeated application of the jump table, `k` steps from `start`.
pub open spec fn spec_iter_fast(t: FilterTables, start: u16, k: nat) -> u16
    decreases k,
{
    if k == 0 {
        start
    } else {
        let prev = spec_iter_fast(t, start, (k - 1) as nat);
        if 0 <= prev < 790 {
            t.fast@[prev as int]
        } else {
            prev
        }
    }
}

/// Fast-exclude totality: from any id in the domain, following the jump
/// table reaches an id outside both exclusion sets after a single step —
/// well within the domain-size bound — and every later step stays outside
/// both sets.
pub proof fn lemma_fast_exclude_total(t: FilterTables, start: u16, k: nat)
    requires
        t.wf(),
        start < 790,
        k >= 1,
    ensures
        t.spec_open_id(spec_iter_fast(t, start, k) as int),
    decreases k,
{
    if k == 1 {
        assert(spec_iter_fast(t, start, 0) == start);
        assert(t.spec_open_id(t.fast@[start as int] as int));
    } else {
        lemma_fast_exclude_total(t, start, (k - 1) as nat);
        let prev = spec_iter_fast(t, start, (k - 1) as nat);
        assert(t.spec_open_id(t.fast@[prev as int] as int));
    }
}

} // verus!
