use committed_records::field::Fe;
use committed_records::hash::setup_params;
use committed_records::merkle::SimpleMerkleTree;

fn leaves_of(values: &[u64]) -> Vec<Fe> {
    values.iter().map(|v| Fe::from_u64(*v)).collect()
}

#[test]
fn build_requires_power_of_two() {
    let lp = setup_params();
    let tp = setup_params();
    assert!(SimpleMerkleTree::new(&lp, &tp, leaves_of(&[])).is_err());
    assert!(SimpleMerkleTree::new(&lp, &tp, leaves_of(&[1, 2, 3])).is_err());
    assert!(SimpleMerkleTree::new(&lp, &tp, leaves_of(&[1])).is_ok());
    assert!(SimpleMerkleTree::new(&lp, &tp, leaves_of(&[1, 2, 3, 4])).is_ok());
    assert!(SimpleMerkleTree::new(&lp, &tp, leaves_of(&[0; 16])).is_ok());
}

#[test]
fn root_is_deterministic() {
    let lp = setup_params();
    let tp = setup_params();
    let t1 = SimpleMerkleTree::new(&lp, &tp, leaves_of(&[10, 20, 30, 40])).unwrap();
    let t2 = SimpleMerkleTree::new(&lp, &tp, leaves_of(&[10, 20, 30, 40])).unwrap();
    assert!(t1.root().eq_val(&t2.root()));
}

// Reordering any leaves changes the root.
#[test]
fn root_sensitive_to_order() {
    let lp = setup_params();
    let tp = setup_params();
    let t1 = SimpleMerkleTree::new(&lp, &tp, leaves_of(&[10, 20, 30, 40])).unwrap();
    let t2 = SimpleMerkleTree::new(&lp, &tp, leaves_of(&[20, 10, 30, 40])).unwrap();
    let t3 = SimpleMerkleTree::new(&lp, &tp, leaves_of(&[10, 20, 40, 30])).unwrap();
    assert!(!t1.root().eq_val(&t2.root()));
    assert!(!t1.root().eq_val(&t3.root()));
}

// Mutating any single leaf changes the root.
#[test]
fn root_sensitive_to_mutation() {
    let lp = setup_params();
    let tp = setup_params();
    let t1 = SimpleMerkleTree::new(&lp, &tp, leaves_of(&[10, 20, 30, 40])).unwrap();
    for i in 0..4 {
        let mut vals = [10u64, 20, 30, 40];
        vals[i] += 1;
        let t2 = SimpleMerkleTree::new(&lp, &tp, leaves_of(&vals)).unwrap();
        assert!(
            !t1.root().eq_val(&t2.root()),
            "mutating leaf {i} must change the root"
        );
    }
}

// The root of a single-leaf tree is the hashed leaf, not the raw leaf.
#[test]
fn leaves_are_hashed_on_entry() {
    let lp = setup_params();
    let tp = setup_params();
    let t = SimpleMerkleTree::new(&lp, &tp, leaves_of(&[77])).unwrap();
    assert!(!t.root().eq_val(&Fe::from_u64(77)));
}
