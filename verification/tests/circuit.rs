use committed_records::constraints::{AnalysisCircuit, ConstraintSystem, MonthEntry, PossessionCircuit};
use committed_records::field::Fe;
use committed_records::hash::{duplicate_params, setup_params, HashParams};
use committed_records::util::{get_test_data, get_test_leaf};

// Sets up a legitimate analysis circuit, mirroring a prover who holds the
// record at index 7 of the test tree and uses it for every month.
fn setup(leaf_crh_params: &HashParams) -> AnalysisCircuit {
    let two_to_one_crh_params = setup_params();

    let our_idx = 7;
    let (data, data_com_rand) = get_test_data(our_idx);
    let claimed_leaf = get_test_leaf(leaf_crh_params, our_idx);

    // The claimed aggregate is the raw sum of the twelve (equal) records.
    let mut claimed_avg = Fe::from_u64(0);
    for _ in 0..12 {
        claimed_avg = claimed_avg.add(&data.purchase_price);
    }

    let mut months = Vec::new();
    for _ in 0..12 {
        months.push(MonthEntry {
            com: claimed_leaf.duplicate(),
            purchase_price: data.purchase_price.duplicate(),
            com_rand: data_com_rand.duplicate(),
        });
    }

    AnalysisCircuit {
        leaf_crh_params: duplicate_params(leaf_crh_params),
        two_to_one_crh_params,
        months,
        output_purchase_price_avg: claimed_avg,
        bounds_purchase_price_min: Fe::from_u64(0),
        bounds_purchase_price_max: Fe::from_u64(1000),
    }
}

// Correctness test: make a fresh constraint system and run the circuit.
#[test]
fn data_correctness() {
    let leaf_crh_params = setup_params();
    let circuit = setup(&leaf_crh_params);

    println!("data_purchase_price_jan = {}", 37 + 59 * 7);

    let mut cs = ConstraintSystem::new();
    circuit.generate_constraints(&mut cs);

    assert!(
        cs.is_satisfied(),
        "circuit correctness check failed; a valid circuit did not succeed"
    );
}

// Soundness test: modify the circuit to have a different amount.  The
// computed commitment no longer matches the claimed commitment.
#[test]
fn data_soundness() {
    let leaf_crh_params = setup_params();
    let mut bad_data_circuit = setup(&leaf_crh_params);
    bad_data_circuit.months[0].purchase_price = Fe::from_u64(987_654_321);

    let mut cs = ConstraintSystem::new();
    bad_data_circuit.generate_constraints(&mut cs);

    assert!(
        !cs.is_satisfied(),
        "circuit should not be satisfied after changing the data purchase price"
    );
}

// Builds a circuit over twelve independent records of the given prices, with
// honest commitments and the given claim and bounds.
fn circuit_for(
    leaf_crh_params: &HashParams,
    prices: &[u64; 12],
    claim: &Fe,
    min: u64,
    max: u64,
) -> AnalysisCircuit {
    let mut months = Vec::new();
    for (i, p) in prices.iter().enumerate() {
        let price = Fe::from_u64(*p);
        let rand = Fe::from_u64(1_000_000 + i as u64);
        let com = committed_records::econ_data::Data::new(price.duplicate())
            .commit(leaf_crh_params, &rand);
        months.push(MonthEntry { com, purchase_price: price, com_rand: rand });
    }
    AnalysisCircuit {
        leaf_crh_params: duplicate_params(leaf_crh_params),
        two_to_one_crh_params: setup_params(),
        months,
        output_purchase_price_avg: claim.duplicate(),
        bounds_purchase_price_min: Fe::from_u64(min),
        bounds_purchase_price_max: Fe::from_u64(max),
    }
}

fn satisfied(circuit: AnalysisCircuit) -> bool {
    let mut cs = ConstraintSystem::new();
    circuit.generate_constraints(&mut cs);
    cs.is_satisfied()
}

// Twelve records of 543 each, bounds (0, 1000), claim 6516: satisfied.
// The same instance with claim 6000: unsatisfied.
#[test]
fn scenario_twelve_records() {
    let params = setup_params();
    let prices = [543u64; 12];

    let good = circuit_for(&params, &prices, &Fe::from_u64(6516), 0, 1000);
    assert!(satisfied(good), "twelve records of 543 summing to 6516 must satisfy the system");

    let bad = circuit_for(&params, &prices, &Fe::from_u64(6000), 0, 1000);
    assert!(!satisfied(bad), "claim 6000 against a sum of 6516 must not satisfy");
}

// A record equal to the minimum bound is rejected.
#[test]
fn range_rejects_min_boundary() {
    let params = setup_params();
    let mut prices = [543u64; 12];
    prices[4] = 100;
    let claim = Fe::from_u64(543 * 11 + 100);
    let c = circuit_for(&params, &prices, &claim, 100, 1000);
    assert!(!satisfied(c));
}

// A record equal to the maximum bound is rejected.
#[test]
fn range_rejects_max_boundary() {
    let params = setup_params();
    let mut prices = [543u64; 12];
    prices[11] = 1000;
    let claim = Fe::from_u64(543 * 11 + 1000);
    let c = circuit_for(&params, &prices, &claim, 0, 1000);
    assert!(!satisfied(c));
}

// A record outside the bounds is rejected.
#[test]
fn range_rejects_outside() {
    let params = setup_params();
    let mut prices = [543u64; 12];
    prices[0] = 5000;
    let claim = Fe::from_u64(543 * 11 + 5000);
    let c = circuit_for(&params, &prices, &claim, 0, 1000);
    assert!(!satisfied(c));
}

// Perturbing one record with its commitment recomputed, but the claim left
// unchanged, trips the sum relation alone.
#[test]
fn sum_soundness_isolated() {
    let params = setup_params();
    let mut prices = [543u64; 12];
    let claim = Fe::from_u64(6516);

    prices[3] = 544;
    let c = circuit_for(&params, &prices, &claim, 0, 1000);
    assert!(!satisfied(c), "a perturbed record without a recomputed claim must not satisfy");
}

// Identical (record, randomness, parameters) always commit identically, and
// the digest is not the record itself.
#[test]
fn commit_deterministic() {
    let params = setup_params();
    let price = Fe::from_u64(543);
    let rand = Fe::from_u64(77777);
    let d = committed_records::econ_data::Data::new(price.duplicate());
    let c1 = d.commit(&params, &rand);
    let c2 = d.commit(&params, &rand);
    assert!(c1.eq_val(&c2), "commit must be a pure function of its inputs");
    assert!(!c1.eq_val(&price), "the digest must not be the record value itself");

    // Two set-ups derive the same parameters, so commitments agree too.
    let params2 = setup_params();
    let c3 = d.commit(&params2, &rand);
    assert!(c1.eq_val(&c3), "set-up must be deterministic");
}

// Documented current behaviour: the circuit checks commitment openings but
// not membership of the commitments in any Merkle tree.  An instance whose
// commitments appear in no tree still satisfies the system.
#[test]
fn merkle_membership_is_not_enforced() {
    let params = setup_params();
    let tree = committed_records::util::gen_test_tree(&params, &setup_params());
    let _root = tree.root();

    // None of these commitments is a leaf of the test tree.
    let prices = [601u64; 12];
    let claim = Fe::from_u64(601 * 12);
    let c = circuit_for(&params, &prices, &claim, 0, 1000);
    assert!(
        satisfied(c),
        "opening, range and sum hold, and no tree membership is checked"
    );
}

// The possession circuit accepts an honest opening and rejects a mauled one.
#[test]
fn possession_circuit_opening() {
    let params = setup_params();
    let price = Fe::from_u64(450);
    let rand = Fe::from_u64(123_456_789);
    let com = committed_records::econ_data::Data::new(price.duplicate()).commit(&params, &rand);

    let honest = PossessionCircuit {
        leaf_crh_params: duplicate_params(&params),
        com: com.duplicate(),
        data_purchase_price: price.duplicate(),
        data_com_rand: rand.duplicate(),
    };
    let mut cs = ConstraintSystem::new();
    honest.generate_constraints(&mut cs);
    assert!(cs.is_satisfied());

    let mauled = PossessionCircuit {
        leaf_crh_params: duplicate_params(&params),
        com,
        data_purchase_price: Fe::from_u64(451),
        data_com_rand: rand,
    };
    let mut cs2 = ConstraintSystem::new();
    mauled.generate_constraints(&mut cs2);
    assert!(!cs2.is_satisfied());
}
