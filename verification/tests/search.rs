//! End-to-end seed search over a small synthetic catalog.

use seed_cracker::agent::Agent;
use seed_cracker::agent::AgentInput;
use seed_cracker::agent::AgentOutput;
use seed_cracker::agent::AgentStart;
use seed_cracker::catalog::Catalog;
use seed_cracker::catalog::FilterTables;
use seed_cracker::catalog::ObjectInformation;
use seed_cracker::coordinator::Coordinator;
use seed_cracker::coordinator::SeedStatus;
use seed_cracker::error::SearchError;
use seed_cracker::merchant::generate_stock;
use seed_cracker::merchant::possible_prices;
use seed_cracker::merchant::Item;
use seed_cracker::merchant::Platform;
use seed_cracker::merchant::TravelingMerchant;

fn entry(name: &str, price: u16) -> ObjectInformation {
    ObjectInformation {
        name: String::from(name),
        price,
        edibility: -300,
        type_and_category: String::from("Basic -16"),
        display_name: String::from(name),
        description: String::from("a test item"),
    }
}

/// A catalog with a couple dozen purchasable ids spread over the domain,
/// plus the derived tables.
fn world() -> (Catalog, FilterTables) {
    let mut entries: Vec<Option<ObjectInformation>> = Vec::new();
    for _ in 0..790 {
        entries.push(None);
    }
    let stocked: [(u16, u16); 16] = [
        (16, 50),
        (20, 200),
        (24, 50),
        (78, 40),
        (88, 30),
        (92, 15),
        (174, 50),
        (176, 50),
        (180, 100),
        (257, 150),
        (281, 75),
        (404, 40),
        (420, 100),
        (422, 200),
        (718, 60),
        (787, 300),
    ];
    for &(id, price) in &stocked {
        entries[id as usize] = Some(entry("stockable", price));
    }
    // id 300 exists but is disallowed by category rules
    entries[300] = Some(entry("forbidden", 10));
    let mut first: Vec<bool> = Vec::new();
    let mut second: Vec<bool> = Vec::new();
    for i in 0..790usize {
        first.push(entries[i].is_none());
        second.push(i == 300);
    }
    let tables = FilterTables::build(first, second).unwrap();
    let catalog = Catalog { entries };
    (catalog, tables)
}

fn stock_array(v: Vec<Item>) -> [Item; 10] {
    [v[0], v[1], v[2], v[3], v[4], v[5], v[6], v[7], v[8], v[9]]
}

#[test]
fn fast_exclude_is_total() {
    let (_, t) = world();
    for id in 0..790usize {
        let mut cur = t.fast[id];
        // one application already lands outside both sets, and repeated
        // application stays there
        for _ in 0..790 {
            assert!(!t.first[cur as usize] && !t.second[cur as usize]);
            cur = t.fast[cur as usize];
        }
    }
}

#[test]
fn build_fails_when_everything_is_excluded() {
    let first = vec![true; 790];
    let second = vec![false; 790];
    assert!(FilterTables::build(first, second).is_none());
}

#[test]
fn replay_round_trip_console() {
    let (c, t) = world();
    let stock = stock_array(generate_stock(Platform::Switch, &t, &c, 12345).unwrap());
    let tm = TravelingMerchant { platform: Platform::Switch, stock };
    assert_eq!(tm.seed_valid(&t, &c, 12345).unwrap(), true);
    assert_eq!(tm.seed_valid(&t, &c, 12346).unwrap(), false);
}

#[test]
fn replay_round_trip_desktop() {
    let (c, t) = world();
    let stock = stock_array(generate_stock(Platform::PC, &t, &c, 12345).unwrap());
    let tm = TravelingMerchant { platform: Platform::PC, stock };
    assert_eq!(tm.seed_valid(&t, &c, 12345).unwrap(), true);
    assert_eq!(tm.seed_valid(&t, &c, 12346).unwrap(), false);
}

#[test]
fn replay_rejects_nearly_all_other_seeds() {
    let (c, t) = world();
    for &platform in &[Platform::Switch, Platform::PC] {
        let stock = stock_array(generate_stock(platform, &t, &c, 777_000).unwrap());
        let tm = TravelingMerchant { platform, stock };
        let mut hits = 0u32;
        for seed in 0..4000i32 {
            if tm.seed_valid(&t, &c, seed).unwrap() {
                hits += 1;
            }
        }
        // far fewer than 0.1% of sampled foreign seeds may collide
        assert!(hits <= 4, "{} collisions", hits);
        assert_eq!(tm.seed_valid(&t, &c, 777_000).unwrap(), true);
    }
}

#[test]
fn mismatched_platform_is_rejected() {
    let (c, t) = world();
    let stock = stock_array(generate_stock(Platform::Switch, &t, &c, 424242).unwrap());
    let tm = TravelingMerchant { platform: Platform::PC, stock };
    assert_eq!(tm.seed_valid(&t, &c, 424242).unwrap(), false);
}

#[test]
fn possible_prices_round_trip() {
    let (c, _) = world();
    // base price 200: minimum is 600, candidates are the 100-multiples from
    // 600 and the base multiples 600/800/1000
    let prices = possible_prices(&c, 20).unwrap();
    assert_eq!(prices, vec![600, 700, 800, 900, 1000]);
    // every listed price is reproduced by the formula with some multipliers
    for &p in &prices {
        let mut reachable = false;
        for cm in 1u32..11 {
            for vm in 3u32..6 {
                if (100 * cm).max(200 * vm) == p as u32 {
                    reachable = true;
                }
            }
        }
        assert!(reachable, "price {} unreachable", p);
    }
    // base price 30: minimum is 100
    let prices = possible_prices(&c, 88).unwrap();
    assert_eq!(
        prices,
        vec![100, 120, 150, 200, 300, 400, 500, 600, 700, 800, 900, 1000]
    );
}

#[test]
fn possible_prices_missing_id() {
    let (c, _) = world();
    assert_eq!(
        possible_prices(&c, 555).unwrap_err(),
        SearchError::ObjectInformationMissing
    );
}

#[test]
fn catalog_gap_surfaces_as_error() {
    // id 80 passes the filters but has no catalog record, so a slot that
    // commits it cannot price it
    let (mut c, _) = world();
    let mut first: Vec<bool> = Vec::new();
    let mut second: Vec<bool> = Vec::new();
    for i in 0..790usize {
        first.push(!(i == 80));
        second.push(false);
    }
    let t = FilterTables::build(first, second).unwrap();
    c.entries[80] = None;
    for quantity in [1u8, 5] {
        let item = Item { index: 80, price: 100, quantity };
        let tm = TravelingMerchant { platform: Platform::Switch, stock: [item; 10] };
        match tm.seed_valid(&t, &c, 99) {
            Err(e) => {
                assert_eq!(e, SearchError::ObjectInformationMissing);
                return;
            }
            Ok(valid) => assert!(!valid),
        }
    }
    panic!("no quantity reached the catalog lookup");
}

#[test]
fn scan_without_open_ids_reports_no_candidate() {
    let (c, _) = world();
    // a jump table built by hand: every id maps to 0, and every id is in
    // the first exclusion set, so the forward scan can never commit
    let t = FilterTables {
        first: vec![true; 790],
        second: vec![false; 790],
        fast: vec![0u16; 790],
    };
    let item = Item { index: 0, price: 100, quantity: 1 };
    let tm = TravelingMerchant { platform: Platform::Switch, stock: [item; 10] };
    assert_eq!(
        tm.seed_valid(&t, &c, 5).unwrap_err(),
        SearchError::NoOpenCandidate
    );
}

#[test]
fn tiny_partitioned_search_finds_planted_seed() {
    let (c, t) = world();
    let planted: i32 = 77;
    let date: i32 = 30;
    let stock = stock_array(generate_stock(Platform::Switch, &t, &c, planted).unwrap());
    let merchant = TravelingMerchant { platform: Platform::Switch, stock };

    // two workers partition [0, 100) by parity; each gets one batch of 50
    let mut outputs: Vec<Option<AgentOutput>> = Vec::new();
    for index in 0..2u32 {
        let mut agent = Agent::new();
        let start = Coordinator::make_start(index, 2, date, 50, merchant);
        outputs.push(agent.handle_input(&t, &c, AgentInput::Start(start)));
    }
    // the worker owning the planted seed's residue class reports it,
    // calendar-adjusted, within its first batch
    assert_eq!(
        outputs[(planted % 2) as usize],
        Some(AgentOutput::SeedFound(planted - date))
    );
    // the other worker just reports progress
    assert_eq!(outputs[((planted + 1) % 2) as usize], Some(AgentOutput::Progress));
}

#[test]
fn worker_reports_exhaustion_at_domain_end() {
    let (c, t) = world();
    let item = Item { index: 16, price: 999, quantity: 3 };
    let merchant = TravelingMerchant { platform: Platform::Switch, stock: [item; 10] };
    let mut agent = Agent::new();
    let start = AgentStart {
        start: u32::MAX - 10,
        add: 4,
        date: 0,
        batch: 100,
        merchant,
    };
    let out = agent.handle_input(&t, &c, AgentInput::Start(start));
    assert_eq!(out, Some(AgentOutput::SeedNotFound));
    // a drained worker ignores further continue commands
    assert_eq!(agent.handle_input(&t, &c, AgentInput::Continue), None);
}

#[test]
fn worker_resumes_from_batch_boundary() {
    let (c, t) = world();
    let planted: i32 = 260;
    let stock = stock_array(generate_stock(Platform::Switch, &t, &c, planted).unwrap());
    let merchant = TravelingMerchant { platform: Platform::Switch, stock };
    let mut agent = Agent::new();
    let start = AgentStart { start: 0, add: 2, date: 0, batch: 100, merchant };
    // first batch covers [0, 200) by twos: progress only
    assert_eq!(
        agent.handle_input(&t, &c, AgentInput::Start(start)),
        Some(AgentOutput::Progress)
    );
    // the resumed batch covers [200, 400) and finds the seed
    assert_eq!(
        agent.handle_input(&t, &c, AgentInput::Continue),
        Some(AgentOutput::SeedFound(planted))
    );
}

#[test]
fn coordinator_aggregates_and_cancels() {
    let mut coord = Coordinator::new(2, 16, 64);
    assert_eq!(coord.status, SeedStatus::NotRun);
    // a progress tick advances the counter and resumes the worker
    assert!(coord.on_worker_output(AgentOutput::Progress));
    assert_eq!(coord.progress, 16);
    // a found seed caps progress and stops resuming anyone
    assert!(!coord.on_worker_output(AgentOutput::SeedFound(555)));
    assert_eq!(coord.status, SeedStatus::Found(555));
    assert_eq!(coord.progress, 64);
    assert_eq!(coord.running, 1);
    // the straggler's next tick is discarded, not resumed
    assert!(!coord.on_worker_output(AgentOutput::Progress));
    assert_eq!(coord.running, 0);
    assert_eq!(coord.status, SeedStatus::Found(555));
}

#[test]
fn coordinator_reports_exhaustion() {
    let mut coord = Coordinator::new(2, 16, 64);
    assert!(!coord.on_worker_output(AgentOutput::SeedNotFound));
    assert_eq!(coord.status, SeedStatus::NotRun);
    assert!(!coord.on_worker_output(AgentOutput::SeedNotFound));
    assert_eq!(coord.status, SeedStatus::NotFound);
    assert_eq!(coord.progress, 64);
}

#[test]
fn coordinator_caps_progress() {
    let mut coord = Coordinator::new(1, 48, 64);
    assert!(coord.on_worker_output(AgentOutput::Progress));
    assert_eq!(coord.progress, 48);
    assert!(coord.on_worker_output(AgentOutput::Progress));
    assert_eq!(coord.progress, 64);
}
