use committed_records::field::Fe;
use committed_records::hash::setup_params;
use committed_records::util::{all_data, gen_test_tree, get_test_data, get_test_leaf};

#[test]
fn all_data_has_sixteen_records_in_range() {
    let data = all_data();
    assert_eq!(data.len(), 16);
    let min = Fe::from_u64(0);
    let max = Fe::from_u64(1000);
    for (d, _) in &data {
        assert!(min.lt(&d.purchase_price));
        assert!(d.purchase_price.lt(&max));
    }
}

#[test]
fn test_leaf_matches_recomputed_commitment() {
    let lp = setup_params();
    let data = all_data();
    for i in 0..16 {
        let leaf = get_test_leaf(&lp, i);
        let again = data[i].0.commit(&lp, &data[i].1);
        assert!(leaf.eq_val(&again));
    }
}

#[test]
fn test_data_is_stable_across_calls() {
    let (d1, r1) = get_test_data(7);
    let (d2, r2) = get_test_data(7);
    assert!(d1.purchase_price.eq_val(&d2.purchase_price));
    assert!(r1.eq_val(&r2));
}

#[test]
fn test_tree_is_reproducible() {
    let lp = setup_params();
    let tp = setup_params();
    let t1 = gen_test_tree(&lp, &tp);
    let t2 = gen_test_tree(&lp, &tp);
    assert!(t1.root().eq_val(&t2.root()));
}
