//! Stock replay and comparison.
//!
//! For a candidate seed, the comparator replays the ten-slot stock
//! generation procedure and compares it against the observed stock,
//! rejecting at the first mismatch.  The whole replay is stated in the
//! `spec_*` functions, one recursion step per scan step of the procedure,
//! and `seed_valid` is proved to return exactly that statement's verdict.

use vstd::prelude::*;

use crate::catalog::spec_catalog_get;
use crate::catalog::spec_cyc_dist;
use crate::catalog::Catalog;
use crate::catalog::FilterTables;
use crate::catalog::ObjectInformation;
use crate::error::SearchError;
use crate::jkiss::Jkiss;
use crate::prng::gen_to_st;
use crate::prng::get_prng;
use crate::prng::spec_gen_float_g;
use crate::prng::spec_gen_range_g;
use crate::prng::spec_state_init;
use crate::prng::Generator;
use crate::unit;

verus! {

/// Number of stock slots the merchant offers.
pub const STOCK_QUANTITY: usize = 10;

#[derive(Clone, Copy, PartialEq, Eq, Structural, Debug)]
pub enum Platform {
    PC,
    Switch,
}

/// One observed stock slot: item id, shown price, quantity (1 or 5).
#[derive(Clone, Copy, PartialEq, Eq, Structural, Debug)]
pub struct Item {
    pub index: u16,
    pub price: u16,
    pub quantity: u8,
}

/// The observed stock, in generation order, and the platform it came from.
#[derive(Clone, Copy)]
pub struct TravelingMerchant {
    pub platform: Platform,
    pub stock: [Item; STOCK_QUANTITY],
}

/// Follow the fast-exclude jump table from `id` until the value is not in
/// the used set.  A lookup outside the table fails; a chain that cannot
/// leave the used set within the fuel bound revisits a value and would
/// otherwise never finish.
pub open spec fn spec_resolve_fast(fastv: Seq<u16>, used: Seq<u16>, id: u16, fuel: nat) -> Result<
    u16,
    SearchError,
>
    decreases fuel,
{
    if fuel == 0 {
        Err(SearchError::NoOpenCandidate)
    } else if id >= fastv.len() {
        Err(SearchError::FastExcludeMissing)
    } else {
        let nxt = fastv[id as int];
        if !used.contains(nxt) {
            Ok(nxt)
        } else {
            spec_resolve_fast(fastv, used, nxt, (fuel - 1) as nat)
        }
    }
}

/// One step of the forward scan: the next candidate id, cyclically.
pub open spec fn spec_next_index(index: u16) -> u16 {
    index.wrapping_add(1) % 790
}

/// The forward scan from `index`: skip ids in the first exclusion set
/// (drawing nothing), handle the second set and the multiplier draws in the
/// platform's order, skip used ids (draws already consumed), and commit the
/// first surviving id.  Returns the state after the commit, the grown used
/// set, the committed id, the two multiplier draws and whether the quantity
/// decider was below one tenth.
pub open spec fn spec_scan(
    platform: Platform,
    firstv: Seq<bool>,
    secondv: Seq<bool>,
    used: Seq<u16>,
    gst: (Jkiss, (Seq<i32>, int, int)),
    index: u16,
    fuel: nat,
) -> Result<((Jkiss, (Seq<i32>, int, int)), Seq<u16>, u16, i32, i32, bool), SearchError>
    decreases fuel,
{
    if fuel == 0 {
        Err(SearchError::NoOpenCandidate)
    } else {
        let idx = spec_next_index(index);
        if firstv[idx as int] {
            spec_scan(platform, firstv, secondv, used, gst, idx, (fuel - 1) as nat)
        } else {
            match platform {
                Platform::PC => {
                    if secondv[idx as int] {
                        spec_scan(platform, firstv, secondv, used, gst, idx, (fuel - 1) as nat)
                    } else {
                        let (g1, c) = spec_gen_range_g(platform, gst, 1, 11);
                        let (g2, v) = spec_gen_range_g(platform, g1, 3, 6);
                        let (g3, q) = spec_gen_float_g(platform, g2);
                        if used.contains(idx) {
                            spec_scan(platform, firstv, secondv, used, g3, idx, (fuel - 1) as nat)
                        } else {
                            Ok((g3, used.push(idx), idx, c, v, unit::spec_below_tenth(q)))
                        }
                    }
                },
                Platform::Switch => {
                    let (g1, c) = spec_gen_range_g(platform, gst, 1, 11);
                    let (g2, v) = spec_gen_range_g(platform, g1, 3, 6);
                    let (g3, q) = spec_gen_float_g(platform, g2);
                    if secondv[idx as int] {
                        spec_scan(platform, firstv, secondv, used, g3, idx, (fuel - 1) as nat)
                    } else if used.contains(idx) {
                        spec_scan(platform, firstv, secondv, used, g3, idx, (fuel - 1) as nat)
                    } else {
                        Ok((g3, used.push(idx), idx, c, v, unit::spec_below_tenth(q)))
                    }
                },
            }
        }
    }
}

/// The price of a committed id: the greater of `100 * constant_multiplier`
/// and `base_price * variable_multiplier`, with the multiplier draws cast
/// to 16 bits first, exactly as the game's stock routine casts them.
pub open spec fn spec_price(base: u16, c: i32, v: i32) -> int {
    let cm = (c as u16) as int;
    let vm = (v as u16) as int;
    let p1 = 100 * cm;
    let p2 = base * vm;
    if p1 >= p2 {
        p1
    } else {
        p2
    }
}

/// One stock slot of the replay: raw draw, fast-exclude shortcut check,
/// forward scan, quantity check, price check.
pub open spec fn spec_slot(
    platform: Platform,
    firstv: Seq<bool>,
    secondv: Seq<bool>,
    fastv: Seq<u16>,
    cat: Seq<Option<ObjectInformation>>,
    used: Seq<u16>,
    gst: (Jkiss, (Seq<i32>, int, int)),
    item: Item,
) -> Result<((Jkiss, (Seq<i32>, int, int)), Seq<u16>, bool), SearchError> {
    let (g1, raw) = spec_gen_range_g(platform, gst, 2, 790);
    let rawu = raw as u16;
    match spec_resolve_fast(fastv, used, rawu, 800) {
        Err(e) => Err(e),
        Ok(fe) => if fe != item.index {
            Ok((g1, used, false))
        } else {
            match spec_scan(platform, firstv, secondv, used, g1, rawu, 790) {
                Err(e) => Err(e),
                Ok((g2, used2, idx, c, v, qs)) => {
                    let quantity: u8 = if qs {
                        5
                    } else {
                        1
                    };
                    if quantity != item.quantity {
                        Ok((g2, used2, false))
                    } else {
                        match spec_catalog_get(cat, idx) {
                            None => Err(SearchError::ObjectInformationMissing),
                            Some(entry) => {
                                if spec_price(entry.price, c, v) == item.price as int {
                                    Ok((g2, used2, true))
                                } else {
                                    Ok((g2, used2, false))
                                }
                            },
                        }
                    }
                },
            }
        },
    }
}

/// The replay from slot `i` on: the seed is valid when every remaining slot
/// matches.
pub open spec fn spec_slots(
    platform: Platform,
    firstv: Seq<bool>,
    secondv: Seq<bool>,
    fastv: Seq<u16>,
    cat: Seq<Option<ObjectInformation>>,
    stock: Seq<Item>,
    used: Seq<u16>,
    gst: (Jkiss, (Seq<i32>, int, int)),
    i: int,
) -> Result<bool, SearchError>
    decreases stock.len() - i,
{
    if i >= stock.len() {
        Ok(true)
    } else {
        match spec_slot(platform, firstv, secondv, fastv, cat, used, gst, stock[i]) {
            Err(e) => Err(e),
            Ok((g2, used2, slot_ok)) => if !slot_ok {
                Ok(false)
            } else {
                spec_slots(platform, firstv, secondv, fastv, cat, stock, used2, g2, i + 1)
            },
        }
    }
}

/// The comparator's whole verdict for one seed.
#[verifier::opaque]
pub open spec fn spec_seed_valid(
    m: TravelingMerchant,
    t: FilterTables,
    cat: Catalog,
    seed: i32,
) -> Result<bool, SearchError> {
    spec_slots(
        m.platform,
        t.first@,
        t.second@,
        t.fast@,
        cat.entries@,
        m.stock@,
        Seq::empty(),
        spec_state_init(m.platform, seed),
        0,
    )
}

/// Whether `x` occurs in the vector.
fn contains_u16(v: &Vec<u16>, x: u16) -> (r: bool)
    ensures
        r == v@.contains(x),
{
    let mut i: usize = 0;
    while i < v.len()
        invariant
            i <= v@.len(),
            forall|j: int| 0 <= j < i ==> v@[j] != x,
        decreases v@.len() - i,
    {
        if v[i] == x {
            return true;
        }
        i = i + 1;
    }
    false
}

/// Follow the fast-exclude jump table until the value is unused.
fn resolve_fast(fast: &Vec<u16>, used: &Vec<u16>, id: u16) -> (r: Result<u16, SearchError>)
    ensures
        r == spec_resolve_fast(fast@, used@, id, 800),
{
    let mut cur: u16 = id;
    let mut fuel: u32 = 800;
    while fuel > 0
        invariant
            spec_resolve_fast(fast@, used@, id, 800) == spec_resolve_fast(
                fast@,
                used@,
                cur,
                fuel as nat,
            ),
        decreases fuel,
    {
        if cur as usize >= fast.len() {
            return Err(SearchError::FastExcludeMissing);
        }
        let nxt: u16 = fast[cur as usize];
        if !contains_u16(used, nxt) {
            return Ok(nxt);
        }
        cur = nxt;
        fuel = fuel - 1;
    }
    Err(SearchError::NoOpenCandidate)
}

/// The forward scan, committing the first surviving id into `used`.
fn scan_commit(
    platform: Platform,
    first: &Vec<bool>,
    second: &Vec<bool>,
    prng: &mut Generator,
    used: &mut Vec<u16>,
    start: u16,
) -> (r: Result<(u16, i32, i32, bool), SearchError>)
    requires
        first@.len() == 790,
        second@.len() == 790,
        old(prng).wf(),
        old(prng).spec_platform() == platform,
    ensures
        final(prng).wf(),
        final(prng).spec_platform() == platform,
        ({
            let sres = spec_scan(
                platform,
                first@,
                second@,
                old(used)@,
                gen_to_st(*old(prng)),
                start,
                790,
            );
            match r {
                Ok(t) => sres == Ok::<_, SearchError>(
                    (gen_to_st(*final(prng)), final(used)@, t.0, t.1, t.2, t.3),
                ),
                Err(e) => sres == Err::<
                    ((Jkiss, (Seq<i32>, int, int)), Seq<u16>, u16, i32, i32, bool),
                    SearchError,
                >(e) && final(used)@ == old(used)@,
            }
        }),
{
    let mut idx: u16 = start;
    let mut fuel: u32 = 790;
    while fuel > 0
        invariant
            first@.len() == 790,
            second@.len() == 790,
            prng.wf(),
            prng.spec_platform() == platform,
            used@ == old(used)@,
            spec_scan(platform, first@, second@, old(used)@, gen_to_st(*old(prng)), start, 790)
                == spec_scan(platform, first@, second@, used@, gen_to_st(*prng), idx, fuel as nat),
        decreases fuel,
    {
        let idx2: u16 = idx.wrapping_add(1) % 790;
        if first[idx2 as usize] {
            idx = idx2;
            fuel = fuel - 1;
            continue ;
        }
        match platform {
            Platform::PC => {
                if second[idx2 as usize] {
                    idx = idx2;
                    fuel = fuel - 1;
                    continue ;
                }
                let c: i32 = match prng.gen_range(1, 11) {
                    Ok(x) => x,
                    Err(e) => {
                        proof {
                            assert(false);
                        }
                        return Err(e);
                    },
                };
                let v: i32 = match prng.gen_range(3, 6) {
                    Ok(x) => x,
                    Err(e) => {
                        proof {
                            assert(false);
                        }
                        return Err(e);
                    },
                };
                let q = prng.gen_float();
                let qs: bool = unit::below_tenth(&q);
                if contains_u16(used, idx2) {
                    idx = idx2;
                    fuel = fuel - 1;
                    continue ;
                }
                used.push(idx2);
                return Ok((idx2, c, v, qs));
            },
            Platform::Switch => {
                let c: i32 = match prng.gen_range(1, 11) {
                    Ok(x) => x,
                    Err(e) => {
                        proof {
                            assert(false);
                        }
                        return Err(e);
                    },
                };
                let v: i32 = match prng.gen_range(3, 6) {
                    Ok(x) => x,
                    Err(e) => {
                        proof {
                            assert(false);
                        }
                        return Err(e);
                    },
                };
                let q = prng.gen_float();
                let qs: bool = unit::below_tenth(&q);
                if second[idx2 as usize] {
                    idx = idx2;
                    fuel = fuel - 1;
                    continue ;
                }
                if contains_u16(used, idx2) {
                    idx = idx2;
                    fuel = fuel - 1;
                    continue ;
                }
                used.push(idx2);
                return Ok((idx2, c, v, qs));
            },
        }
    }
    Err(SearchError::NoOpenCandidate)
}

/// One stock slot of the replay, advancing the generator and the used set.
#[verifier::rlimit(100)]
fn check_slot(
    platform: Platform,
    tables: &FilterTables,
    catalog: &Catalog,
    prng: &mut Generator,
    used: &mut Vec<u16>,
    item: Item,
) -> (r: Result<bool, SearchError>)
    requires
        tables.len_ok(),
        old(prng).wf(),
        old(prng).spec_platform() == platform,
    ensures
        final(prng).wf(),
        final(prng).spec_platform() == platform,
        ({
            let slot_res = spec_slot(
                platform,
                tables.first@,
                tables.second@,
                tables.fast@,
                catalog.entries@,
                old(used)@,
                gen_to_st(*old(prng)),
                item,
            );
            match r {
                Ok(flag) => slot_res == Ok::<_, SearchError>(
                    (gen_to_st(*final(prng)), final(used)@, flag),
                ),
                Err(e) => slot_res == Err::<
                    ((Jkiss, (Seq<i32>, int, int)), Seq<u16>, bool),
                    SearchError,
                >(e),
            }
        }),
{
    let ghost gst0 = gen_to_st(*prng);
    let ghost used0 = used@;
    let raw: i32 = match prng.gen_range(2, 790) {
        Ok(x) => x,
        Err(e) => {
            proof {
                assert(false);
            }
            return Err(e);
        },
    };
    let rawu: u16 = #[verifier::truncate] (raw as u16);
    proof {
        assert((gen_to_st(*prng), raw) == spec_gen_range_g(platform, gst0, 2, 790));
    }
    let fe: u16 = match resolve_fast(&tables.fast, used, rawu) {
        Ok(f) => f,
        Err(e) => {
            return Err(e);
        },
    };
    if fe != item.index {
        return Ok(false);
    }
    let (idx, c, v, qs): (u16, i32, i32, bool) = match scan_commit(
        platform,
        &tables.first,
        &tables.second,
        prng,
        used,
        rawu,
    ) {
        Ok(t) => t,
        Err(e) => {
            return Err(e);
        },
    };
    let quantity: u8 = if qs {
        5
    } else {
        1
    };
    if quantity != item.quantity {
        return Ok(false);
    }
    let price_ok: bool = match catalog.get(idx) {
        Some(entry) => {
            let cm: u16 = #[verifier::truncate] (c as u16);
            let vm: u16 = #[verifier::truncate] (v as u16);
            let p1: u64 = 100u64 * (cm as u64);
            let pe: u64 = entry.price as u64;
            let vme: u64 = vm as u64;
            proof {
                assert(pe * vme < 0x1_0000_0000u64) by (nonlinear_arith)
                    requires
                        pe < 0x1_0000,
                        vme < 0x1_0000,
                ;
            }
            let p2: u64 = pe * vme;
            let price: u64 = if p1 >= p2 {
                p1
            } else {
                p2
            };
            proof {
                assert(price == spec_price(entry.price, c, v));
            }
            price == item.price as u64
        },
        None => {
            return Err(SearchError::ObjectInformationMissing);
        },
    };
    if !price_ok {
        return Ok(false);
    }
    Ok(true)
}

impl TravelingMerchant {
    /// Replay the stock generation for `seed` and compare against the
    /// observed stock: `Ok(true)` exactly when every slot matches, `Ok(false)`
    /// at the first mismatch, and an error exactly where a lookup into the
    /// catalog or the jump table fails (which aborts this seed only).
    pub fn seed_valid(&self, tables: &FilterTables, catalog: &Catalog, seed: i32) -> (r: Result<
        bool,
        SearchError,
    >)
        requires
            tables.len_ok(),
        ensures
            r == spec_seed_valid(*self, *tables, *catalog, seed),
    {
        let mut prng: Generator = get_prng(self.platform, seed);
        let mut used: Vec<u16> = Vec::new();
        let ghost overall = spec_seed_valid(*self, *tables, *catalog, seed);
        proof {
            assert(used@ =~= Seq::<u16>::empty());
            reveal(spec_seed_valid);
        }

        let mut i: usize = 0;
        while i < STOCK_QUANTITY
            invariant
                i <= 10,
                tables.len_ok(),
                prng.wf(),
                prng.spec_platform() == self.platform,
                overall == spec_seed_valid(*self, *tables, *catalog, seed),
                overall == spec_slots(
                    self.platform,
                    tables.first@,
                    tables.second@,
                    tables.fast@,
                    catalog.entries@,
                    self.stock@,
                    used@,
                    gen_to_st(prng),
                    i as int,
                ),
            decreases 10 - i,
        {
            let item: Item = self.stock[i];
            proof {
                assert(item == self.stock@[i as int]);
            }
            match check_slot(self.platform, tables, catalog, &mut prng, &mut used, item) {
                Ok(true) => {},
                Ok(false) => {
                    return Ok(false);
                },
                Err(e) => {
                    return Err(e);
                },
            }
            i = i + 1;
        }
        Ok(true)
    }
}

/// One generated stock slot: raw draw, forward scan, quantity from the
/// decider, price from the catalog entry of the committed id.
pub open spec fn spec_gen_slot(
    platform: Platform,
    firstv: Seq<bool>,
    secondv: Seq<bool>,
    cat: Seq<Option<ObjectInformation>>,
    used: Seq<u16>,
    gst: (Jkiss, (Seq<i32>, int, int)),
) -> Result<((Jkiss, (Seq<i32>, int, int)), Seq<u16>, Item), SearchError> {
    let (g1, raw) = spec_gen_range_g(platform, gst, 2, 790);
    let rawu = raw as u16;
    match spec_scan(platform, firstv, secondv, used, g1, rawu, 790) {
        Err(e) => Err(e),
        Ok((g2, used2, idx, c, v, qs)) => match spec_catalog_get(cat, idx) {
            None => Err(SearchError::ObjectInformationMissing),
            Some(entry) => Ok(
                (
                    g2,
                    used2,
                    Item {
                        index: idx,
                        price: spec_price(entry.price, c, v) as u16,
                        quantity: if qs {
                            5
                        } else {
                            1
                        },
                    },
                ),
            ),
        },
    }
}

/// `n` more generated slots appended to `acc`.
pub open spec fn spec_gen_slots(
    platform: Platform,
    firstv: Seq<bool>,
    secondv: Seq<bool>,
    cat: Seq<Option<ObjectInformation>>,
    used: Seq<u16>,
    gst: (Jkiss, (Seq<i32>, int, int)),
    acc: Seq<Item>,
    n: nat,
) -> Result<Seq<Item>, SearchError>
    decreases n,
{
    if n == 0 {
        Ok(acc)
    } else {
        match spec_gen_slot(platform, firstv, secondv, cat, used, gst) {
            Err(e) => Err(e),
            Ok((g2, used2, item)) => spec_gen_slots(
                platform,
                firstv,
                secondv,
                cat,
                used2,
                g2,
                acc.push(item),
                (n - 1) as nat,
            ),
        }
    }
}

/// The full ten-slot stock that `seed` generates.
pub open spec fn spec_generate(
    platform: Platform,
    t: FilterTables,
    cat: Catalog,
    seed: i32,
) -> Result<Seq<Item>, SearchError> {
    spec_gen_slots(
        platform,
        t.first@,
        t.second@,
        cat.entries@,
        Seq::empty(),
        spec_state_init(platform, seed),
        Seq::empty(),
        10,
    )
}

/// One generated slot, advancing the generator and the used set.
#[verifier::rlimit(100)]
fn gen_slot(
    platform: Platform,
    tables: &FilterTables,
    catalog: &Catalog,
    prng: &mut Generator,
    used: &mut Vec<u16>,
) -> (r: Result<Item, SearchError>)
    requires
        tables.len_ok(),
        old(prng).wf(),
        old(prng).spec_platform() == platform,
    ensures
        final(prng).wf(),
        final(prng).spec_platform() == platform,
        ({
            let slot_res = spec_gen_slot(
                platform,
                tables.first@,
                tables.second@,
                catalog.entries@,
                old(used)@,
                gen_to_st(*old(prng)),
            );
            match r {
                Ok(item) => slot_res == Ok::<_, SearchError>(
                    (gen_to_st(*final(prng)), final(used)@, item),
                ),
                Err(e) => slot_res == Err::<
                    ((Jkiss, (Seq<i32>, int, int)), Seq<u16>, Item),
                    SearchError,
                >(e),
            }
        }),
{
    let ghost gst0 = gen_to_st(*prng);
    let raw: i32 = match prng.gen_range(2, 790) {
        Ok(x) => x,
        Err(e) => {
            proof {
                assert(false);
            }
            return Err(e);
        },
    };
    let rawu: u16 = #[verifier::truncate] (raw as u16);
    proof {
        assert((gen_to_st(*prng), raw) == spec_gen_range_g(platform, gst0, 2, 790));
    }
    let (idx, c, v, qs): (u16, i32, i32, bool) = match scan_commit(
        platform,
        &tables.first,
        &tables.second,
        prng,
        used,
        rawu,
    ) {
        Ok(t) => t,
        Err(e) => {
            return Err(e);
        },
    };
    match catalog.get(idx) {
        Some(entry) => {
            let cm: u16 = #[verifier::truncate] (c as u16);
            let vm: u16 = #[verifier::truncate] (v as u16);
            let p1: u64 = 100u64 * (cm as u64);
            let pe: u64 = entry.price as u64;
            let vme: u64 = vm as u64;
            proof {
                assert(pe * vme < 0x1_0000_0000u64) by (nonlinear_arith)
                    requires
                        pe < 0x1_0000,
                        vme < 0x1_0000,
                ;
            }
            let p2: u64 = pe * vme;
            let price: u64 = if p1 >= p2 {
                p1
            } else {
                p2
            };
            proof {
                assert(price == spec_price(entry.price, c, v));
            }
            Ok(
                Item {
                    index: idx,
                    price: #[verifier::truncate] (price as u16),
                    quantity: if qs {
                        5
                    } else {
                        1
                    },
                },
            )
        },
        None => Err(SearchError::ObjectInformationMissing),
    }
}

/// Generate the ten-slot stock a seed produces, through the comparator's
/// own generation path.
pub fn generate_stock(
    platform: Platform,
    tables: &FilterTables,
    catalog: &Catalog,
    seed: i32,
) -> (r: Result<Vec<Item>, SearchError>)
    requires
        tables.len_ok(),
    ensures
        match r {
            Ok(items) => Ok::<_, SearchError>(items@) == spec_generate(
                platform,
                *tables,
                *catalog,
                seed,
            ) && items@.len() == 10,
            Err(e) => Err::<Seq<Item>, SearchError>(e) == spec_generate(
                platform,
                *tables,
                *catalog,
                seed,
            ),
        },
{
    let mut prng: Generator = get_prng(platform, seed);
    let mut used: Vec<u16> = Vec::new();
    let mut out: Vec<Item> = Vec::new();
    proof {
        assert(used@ =~= Seq::<u16>::empty());
        assert(out@ =~= Seq::<Item>::empty());
    }
    let mut i: usize = 0;
    while i < STOCK_QUANTITY
        invariant
            i <= 10,
            tables.len_ok(),
            prng.wf(),
            prng.spec_platform() == platform,
            out@.len() == i,
            spec_generate(platform, *tables, *catalog, seed) == spec_gen_slots(
                platform,
                tables.first@,
                tables.second@,
                catalog.entries@,
                used@,
                gen_to_st(prng),
                out@,
                (10 - i) as nat,
            ),
        decreases 10 - i,
    {
        match gen_slot(platform, tables, catalog, &mut prng, &mut used) {
            Ok(item) => {
                out.push(item);
            },
            Err(e) => {
                return Err(e);
            },
        }
        i = i + 1;
    }
    Ok(out)
}

/// Strictly ascending (and therefore duplicate-free).
pub open spec fn spec_sorted_strict(s: Seq<u16>) -> bool {
    forall|a: int, b: int| 0 <= a < b < s.len() ==> s[a] < s[b]
}

/// The minimum price an item can ever show: the price formula with the
/// smallest multipliers.
pub open spec fn spec_possible_min(base: u16) -> int {
    if 100 >= 3 * base {
        100int
    } else {
        3 * base
    }
}

/// `p` belongs to the possible-price list of an item with base price
/// `base`: one of the candidate products, at or above the minimum.
pub open spec fn spec_listed(base: u16, p: int) -> bool {
    ||| (exists|c: int| 1 <= c < 11 && p == #[trigger] (100 * c) && p >= spec_possible_min(base))
    ||| (exists|v: int| 3 <= v < 6 && p == #[trigger] (base * v) && p >= spec_possible_min(base))
}

/// Insert `x` into a strictly sorted vector, keeping it strictly sorted
/// and adding exactly `x` to its contents.
fn insert_sorted_unique(v: &mut Vec<u16>, x: u16)
    requires
        spec_sorted_strict(old(v)@),
    ensures
        spec_sorted_strict(final(v)@),
        forall|y: u16| final(v)@.contains(y) <==> (old(v)@.contains(y) || y == x),
{
    let mut i: usize = 0;
    while i < v.len() && v[i] < x
        invariant
            spec_sorted_strict(v@),
            v@ == old(v)@,
            i <= v@.len(),
            forall|j: int| 0 <= j < i ==> v@[j] < x,
        decreases v@.len() - i,
    {
        i = i + 1;
    }
    if i < v.len() {
        if v[i] == x {
            proof {
                assert(v@.contains(x));
                assert forall|y: u16| v@.contains(y) implies (old(v)@.contains(y) || y == x) by {}
            }
            return ;
        }
    }
    let ghost before = v@;
    v.insert(i, x);
    proof {
        assert(v@ == before.insert(i as int, x));
        assert forall|a: int, b: int| 0 <= a < b < v@.len() implies v@[a] < v@[b] by {
            if b < i {
            } else if a < i && b == i {
                assert(v@[a] == before[a]);
            } else if a < i && b > i {
                assert(v@[a] == before[a] && v@[b] == before[b - 1]);
                if b - 1 >= i {
                    assert(before[b - 1] >= x) by {
                        if before[b - 1] < x {
                            assert(false);
                        }
                    }
                }
            } else if a == i {
                assert(v@[b] == before[b - 1]);
                assert(before[b - 1] > x || before[b - 1] == x || before[b - 1] < x);
                if b - 1 == i {
                    assert(before[b - 1] >= x);
                    assert(before[b - 1] != x);
                } else {
                    assert(before[i as int] >= x && before[i as int] != x);
                    assert(before[i as int] < before[b - 1]);
                }
            } else {
                assert(v@[a] == before[a - 1] && v@[b] == before[b - 1]);
            }
        }
        assert forall|y: u16| v@.contains(y) implies (before.contains(y) || y == x) by {
            let j = choose|j: int| 0 <= j < v@.len() && v@[j] == y;
            if j < i {
                assert(before[j] == y);
            } else if j == i {
            } else {
                assert(before[j - 1] == y);
            }
        }
        assert forall|y: u16| (before.contains(y) || y == x) implies v@.contains(y) by {
            if before.contains(y) {
                let j = choose|j: int| 0 <= j < before.len() && before[j] == y;
                if j < i {
                    assert(v@[j] == y);
                } else {
                    assert(v@[j + 1] == y);
                }
            } else {
                assert(v@[i as int] == x);
            }
        }
    }
}

/// The sorted list of distinct prices an item could legally show, computed
/// from the same multiplier ranges as the replay and filtered below the
/// minimum achievable price.
pub fn possible_prices(catalog: &Catalog, item_index: u16) -> (r: Result<Vec<u16>, SearchError>)
    requires
        (spec_catalog_get(catalog.entries@, item_index) matches Some(e) ==> e.price <= 13107),
    ensures
        match r {
            Err(e) => e == SearchError::ObjectInformationMissing && spec_catalog_get(
                catalog.entries@,
                item_index,
            ) is None,
            Ok(prices) => {
                &&& spec_catalog_get(catalog.entries@, item_index) matches Some(entry)
                &&& spec_sorted_strict(prices@)
                &&& (spec_catalog_get(catalog.entries@, item_index) matches Some(entry) ==> (
                forall|p: u16|
                    prices@.contains(p) <==> spec_listed(entry.price, p as int)))
            },
        },
{
    let entry: &ObjectInformation = match catalog.get(item_index) {
        Some(e) => e,
        None => {
            return Err(SearchError::ObjectInformationMissing);
        },
    };
    let base: u16 = entry.price;
    let m3: u32 = 3u32 * (base as u32);
    let minimum: u32 = if 100u32 >= m3 {
        100u32
    } else {
        m3
    };
    proof {
        assert(minimum == spec_possible_min(base));
    }
    let mut prices: Vec<u16> = Vec::new();

    let mut c: u32 = 1;
    while c < 11
        invariant
            1 <= c <= 11,
            base <= 13107,
            minimum == spec_possible_min(base),
            spec_sorted_strict(prices@),
            forall|p: u16|
                prices@.contains(p) <==> (exists|cc: int|
                    1 <= cc < c && p == #[trigger] (100 * cc) && p >= spec_possible_min(base)),
        decreases 11 - c,
    {
        let pr: u32 = 100u32 * c;
        if pr >= minimum {
            insert_sorted_unique(&mut prices, pr as u16);
            proof {
                let pu = pr as u16;
                assert(pu == 100 * (c as int) && pu >= spec_possible_min(base));
            }
        }
        proof {
            assert forall|p: u16|
                prices@.contains(p) <==> (exists|cc: int|
                    1 <= cc < c + 1 && p == #[trigger] (100 * cc) && p >= spec_possible_min(base)) by {
                if prices@.contains(p) {
                }
            }
        }
        c = c + 1;
    }

    let mut v: u32 = 3;
    while v < 6
        invariant
            3 <= v <= 6,
            base <= 13107,
            minimum == spec_possible_min(base),
            spec_sorted_strict(prices@),
            forall|p: u16|
                prices@.contains(p) <==> ((exists|cc: int|
                    1 <= cc < 11 && p == #[trigger] (100 * cc) && p >= spec_possible_min(base)) || (exists|vv: int|
                    3 <= vv < v && p == #[trigger] (base * vv) && p >= spec_possible_min(base))),
        decreases 6 - v,
    {
        proof {
            assert((base as u32) * v <= 65535) by (nonlinear_arith)
                requires
                    base <= 13107,
                    v <= 5,
            ;
        }
        let pv: u32 = (base as u32) * v;
        if pv >= minimum {
            insert_sorted_unique(&mut prices, pv as u16);
            proof {
                let pu = pv as u16;
                assert(pu == base * (v as int) && pu >= spec_possible_min(base));
            }
        }
        proof {
            assert forall|p: u16|
                prices@.contains(p) <==> ((exists|cc: int|
                    1 <= cc < 11 && p == #[trigger] (100 * cc) && p >= spec_possible_min(base)) || (exists|vv: int|
                    3 <= vv < v + 1 && p == #[trigger] (base * vv) && p >= spec_possible_min(base))) by {
                if prices@.contains(p) {
                }
            }
        }
        v = v + 1;
    }
    Ok(prices)
}

/// Price-formula round trip: every listed price is reproduced exactly by
/// the price formula with some valid multiplier pair, and conversely every
/// price the formula can produce is listed.
pub proof fn lemma_price_round_trip(base: u16, p: int)
    requires
        base <= 13107,
    ensures
        spec_listed(base, p) <==> (exists|c: i32, v: i32|
            1 <= c < 11 && 3 <= v < 6 && p == spec_price(base, c, v)),
{
    if spec_listed(base, p) {
        if exists|c: int| 1 <= c < 11 && p == #[trigger] (100 * c) && p >= spec_possible_min(base) {
            let c = choose|c: int| 1 <= c < 11 && p == #[trigger] (100 * c) && p >= spec_possible_min(base);
            let ci = c as i32;
            assert(p == spec_price(base, ci, 3i32));
            assert(1 <= ci < 11 && 3 <= 3i32 < 6);
        } else {
            let v = choose|v: int| 3 <= v < 6 && p == #[trigger] (base * v) && p >= spec_possible_min(base);
            let vi = v as i32;
            assert(p == spec_price(base, 1i32, vi));
            assert(1 <= 1i32 < 11 && 3 <= vi < 6);
        }
    }
    if exists|c: i32, v: i32| 1 <= c < 11 && 3 <= v < 6 && p == spec_price(base, c, v) {
        let (c, v) = choose|c: i32, v: i32| 1 <= c < 11 && 3 <= v < 6 && p == spec_price(base, c, v);
        assert(p == spec_price(base, c, v));
        let cm = (c as u16) as int;
        let vm = (v as u16) as int;
        assert(cm == c as int && vm == v as int);
        if 100 * cm >= base * vm {
            assert(p == 100 * cm);
            assert(p >= spec_possible_min(base)) by {
                assert(base * vm >= base * 3) by (nonlinear_arith)
                    requires
                        vm >= 3,
                        base >= 0,
                ;
            }
        } else {
            assert(p == base * vm);
            assert(p >= spec_possible_min(base)) by {
                assert(base * vm >= base * 3) by (nonlinear_arith)
                    requires
                        vm >= 3,
                        base >= 0,
                ;
                assert(100 * cm >= 100);
            }
        }
    }
}

/// Soundness of the fast-exclude shortcut: with a well-formed jump table,
/// whenever the resolution succeeds it lands on an id outside both
/// exclusion sets and outside the used set — the only kind of id the full
/// forward scan can ever commit.  (`lemma_fast_shortcut_agrees` sharpens
/// this: it is the very id the scan commits.)
pub proof fn lemma_resolve_fast_sound(t: FilterTables, used: Seq<u16>, id: u16, fuel: nat)
    requires
        t.wf(),
    ensures
        match spec_resolve_fast(t.fast@, used, id, fuel) {
            Ok(j) => t.spec_open_id(j as int) && !used.contains(j),
            Err(_) => true,
        },
    decreases fuel,
{
    if fuel > 0 && id < t.fast@.len() {
        let nxt = t.fast@[id as int];
        assert(t.spec_open_id(t.fast@[id as int] as int));
        if used.contains(nxt) {
            lemma_resolve_fast_sound(t, used, nxt, (fuel - 1) as nat);
        }
    }
}

/// `j` is the first id strictly after `raw` (cyclically) that is outside
/// both exclusion sets and not yet used.
pub open spec fn spec_first_open_unused(t: FilterTables, used: Seq<u16>, raw: u16, j: u16) -> bool {
    &&& t.spec_open_id(j as int)
    &&& !used.contains(j)
    &&& forall|k: u16|
        k < 790 && spec_cyc_dist(raw as int, k as int) < spec_cyc_dist(raw as int, j as int)
            ==> !(#[trigger] t.spec_open_id(k as int) && !used.contains(k))
}

/// Some first open unused id exists as soon as any open unused id exists.
pub proof fn lemma_first_open_unused_exists(t: FilterTables, used: Seq<u16>, raw: u16, k: u16)
    requires
        t.wf(),
        raw < 790,
        k < 790,
        t.spec_open_id(k as int),
        !used.contains(k),
    ensures
        exists|j: u16| #[trigger] spec_first_open_unused(t, used, raw, j),
    decreases spec_cyc_dist(raw as int, k as int),
{
    if exists|k2: u16|
        k2 < 790 && spec_cyc_dist(raw as int, k2 as int) < spec_cyc_dist(raw as int, k as int)
            && #[trigger] t.spec_open_id(k2 as int) && !used.contains(k2) {
        let k2 = choose|k2: u16|
            k2 < 790 && spec_cyc_dist(raw as int, k2 as int) < spec_cyc_dist(raw as int, k as int)
                && #[trigger] t.spec_open_id(k2 as int) && !used.contains(k2);
        lemma_first_open_unused_exists(t, used, raw, k2);
    } else {
        assert(spec_first_open_unused(t, used, raw, k));
    }
}

/// With a well-formed jump table, the resolution returns exactly the first
/// open unused id after the start.
pub proof fn lemma_resolve_fast_exact(t: FilterTables, used: Seq<u16>, raw: u16, j: u16, fuel: nat)
    requires
        t.wf(),
        raw < 790,
        j < 790,
        spec_first_open_unused(t, used, raw, j),
        fuel >= spec_cyc_dist(raw as int, j as int),
    ensures
        spec_resolve_fast(t.fast@, used, raw, fuel) == Ok::<u16, SearchError>(j),
    decreases spec_cyc_dist(raw as int, j as int),
{
    let dj = spec_cyc_dist(raw as int, j as int);
    let c = t.fast@[raw as int];
    assert(t.spec_open_id(t.fast@[raw as int] as int));
    let dc = spec_cyc_dist(raw as int, c as int);
    assert(1 <= dj <= 790 && 1 <= dc <= 790);
    if c == j {
        assert(spec_resolve_fast(t.fast@, used, raw, fuel) == Ok::<u16, SearchError>(j));
    } else {
        // c is an earlier open id than j, so it must be used
        assert(dc != dj);
        assert(!(dj < dc)) by {
            assert(spec_cyc_dist(raw as int, j as int) < spec_cyc_dist(raw as int, c as int)
                ==> !t.spec_open_id(j as int));
        }
        assert(dc < dj);
        assert(used.contains(c));
        // j is also the first open unused id after c
        assert(spec_cyc_dist(c as int, j as int) == dj - dc);
        assert forall|k: u16|
            k < 790 && spec_cyc_dist(c as int, k as int) < spec_cyc_dist(c as int, j as int)
                implies !(#[trigger] t.spec_open_id(k as int) && !used.contains(k)) by {
            let dk = spec_cyc_dist(c as int, k as int);
            if k == raw {
                assert(spec_cyc_dist(c as int, raw as int) == 790 - dc);
            } else {
                assert(spec_cyc_dist(raw as int, k as int) == dc + dk);
            }
        }
        assert(spec_first_open_unused(t, used, c, j));
        lemma_resolve_fast_exact(t, used, c, j, (fuel - 1) as nat);
    }
}

/// The forward scan commits exactly the first open unused id after the
/// start, whatever the generator drew along the way.
pub proof fn lemma_scan_commits_first(
    platform: Platform,
    t: FilterTables,
    used: Seq<u16>,
    gst: (Jkiss, (Seq<i32>, int, int)),
    index: u16,
    j: u16,
    fuel: nat,
)
    requires
        t.len_ok(),
        index < 790,
        j < 790,
        spec_first_open_unused(t, used, index, j),
        fuel >= spec_cyc_dist(index as int, j as int),
    ensures
        match spec_scan(platform, t.first@, t.second@, used, gst, index, fuel) {
            Ok((g2, used2, idx, c, v, qs)) => idx == j && used2 == used.push(j),
            Err(_) => false,
        },
    decreases spec_cyc_dist(index as int, j as int),
{
    let dj = spec_cyc_dist(index as int, j as int);
    let idx2 = spec_next_index(index);
    assert(idx2 == ((index + 1) as u16) % 790);
    assert(idx2 < 790);
    assert(spec_cyc_dist(index as int, idx2 as int) == 1);
    if idx2 == j {
        assert(!t.first@[j as int] && !t.second@[j as int] && !used.contains(j));
    } else {
        assert(dj != 1);
        assert(dj > 1);
        // idx2 is strictly earlier than j, so it is excluded or used
        assert(!(t.spec_open_id(idx2 as int) && !used.contains(idx2)));
        // j is also the first open unused id after idx2
        assert(spec_cyc_dist(idx2 as int, j as int) == dj - 1);
        assert forall|k: u16|
            k < 790 && spec_cyc_dist(idx2 as int, k as int) < spec_cyc_dist(idx2 as int, j as int)
                implies !(#[trigger] t.spec_open_id(k as int) && !used.contains(k)) by {
            let dk = spec_cyc_dist(idx2 as int, k as int);
            if k == index {
                assert(spec_cyc_dist(idx2 as int, index as int) == 789);
            } else {
                assert(spec_cyc_dist(index as int, k as int) == 1 + dk);
            }
        }
        assert(spec_first_open_unused(t, used, idx2, j));
        if t.first@[idx2 as int] {
            lemma_scan_commits_first(platform, t, used, gst, idx2, j, (fuel - 1) as nat);
        } else {
            match platform {
                Platform::PC => {
                    if t.second@[idx2 as int] {
                        lemma_scan_commits_first(platform, t, used, gst, idx2, j, (fuel - 1) as nat);
                    } else {
                        let (g1, _) = spec_gen_range_g(platform, gst, 1, 11);
                        let (g2, _) = spec_gen_range_g(platform, g1, 3, 6);
                        let (g3, _) = spec_gen_float_g(platform, g2);
                        assert(used.contains(idx2));
                        lemma_scan_commits_first(platform, t, used, g3, idx2, j, (fuel - 1) as nat);
                    }
                },
                Platform::Switch => {
                    let (g1, _) = spec_gen_range_g(platform, gst, 1, 11);
                    let (g2, _) = spec_gen_range_g(platform, g1, 3, 6);
                    let (g3, _) = spec_gen_float_g(platform, g2);
                    lemma_scan_commits_first(platform, t, used, g3, idx2, j, (fuel - 1) as nat);
                },
            }
        }
    }
}

/// The fast-exclude shortcut agrees with the full forward scan: with a
/// well-formed jump table both resolve to the same id — the first id after
/// the raw draw that is outside both exclusion sets and unused — so the
/// early rejection test in the replay rejects exactly the seeds the full
/// scan would reject.
pub proof fn lemma_fast_shortcut_agrees(
    platform: Platform,
    t: FilterTables,
    used: Seq<u16>,
    gst: (Jkiss, (Seq<i32>, int, int)),
    raw: u16,
    j: u16,
)
    requires
        t.wf(),
        raw < 790,
        j < 790,
        spec_first_open_unused(t, used, raw, j),
    ensures
        spec_resolve_fast(t.fast@, used, raw, 800) == Ok::<u16, SearchError>(j),
        match spec_scan(platform, t.first@, t.second@, used, gst, raw, 790) {
            Ok((g2, used2, idx, c, v, qs)) => idx == j,
            Err(_) => false,
        },
{
    lemma_resolve_fast_exact(t, used, raw, j, 800);
    lemma_scan_commits_first(platform, t, used, gst, raw, j, 790);
}

} // verus!
