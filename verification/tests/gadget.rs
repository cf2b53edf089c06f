// The dual-mode anchor: the plain commitment computation and the in-circuit
// hash gadget must produce identical digests for the same inputs.

use ark_bls12_381::Fr;
use ark_crypto_primitives::crh::poseidon::constraints::{
    CRHGadget, CRHParametersVar, TwoToOneCRHGadget,
};
use ark_crypto_primitives::crh::{CRHSchemeGadget, TwoToOneCRHSchemeGadget};
use ark_crypto_primitives::sponge::poseidon::{find_poseidon_ark_and_mds, PoseidonConfig};
use ark_ff::PrimeField;
use ark_r1cs_std::alloc::AllocVar;
use ark_r1cs_std::fields::fp::FpVar;
use ark_r1cs_std::R1CSVar;
use ark_relations::r1cs::ConstraintSystem;
use ark_serialize::CanonicalSerialize;

use committed_records::econ_data::Data;
use committed_records::field::Fe;
use committed_records::hash::setup_params;
use committed_records::merkle::SimpleMerkleTree;

// The same canonical configuration the library's set-up derives.
fn config() -> PoseidonConfig<Fr> {
    let (ark, mds) = find_poseidon_ark_and_mds::<Fr>(
        <Fr as PrimeField>::MODULUS_BIT_SIZE as u64,
        2,
        8,
        57,
        0,
    );
    PoseidonConfig::new(8, 57, 5, mds, ark, 2, 1)
}

fn fr_bytes(x: Fr) -> Vec<u8> {
    let mut bytes = Vec::new();
    x.serialize_compressed(&mut bytes).unwrap();
    bytes
}

#[test]
fn plain_commit_matches_circuit_gadget() {
    let params = setup_params();
    let cfg = config();
    for (v, r) in [(543u64, 77_777u64), (1, 2), (999, 123_456_789)] {
        let digest = Data::new(Fe::from_u64(v)).commit(&params, &Fe::from_u64(r));

        let cs = ConstraintSystem::<Fr>::new_ref();
        let params_var = CRHParametersVar::new_constant(cs.clone(), &cfg).unwrap();
        let a = FpVar::new_witness(cs.clone(), || Ok(Fr::from(v))).unwrap();
        let b = FpVar::new_witness(cs.clone(), || Ok(Fr::from(r))).unwrap();
        let out = CRHGadget::<Fr>::evaluate(&params_var, &[a, b]).unwrap();

        assert_eq!(
            digest.to_le_bytes(),
            fr_bytes(out.value().unwrap()),
            "plain and in-circuit commitment digests must agree"
        );
    }
}

#[test]
fn plain_combine_matches_circuit_gadget() {
    let lp = setup_params();
    let tp = setup_params();
    let cfg = config();

    // A two-leaf tree's root is the two-to-one hash of the two hashed
    // leaves; recompute it entirely with the gadget.
    let tree = SimpleMerkleTree::new(
        &lp,
        &tp,
        vec![Fe::from_u64(10), Fe::from_u64(20)],
    )
    .unwrap();

    let cs = ConstraintSystem::<Fr>::new_ref();
    let params_var = CRHParametersVar::new_constant(cs.clone(), &cfg).unwrap();
    let l0 = FpVar::new_witness(cs.clone(), || Ok(Fr::from(10u64))).unwrap();
    let l1 = FpVar::new_witness(cs.clone(), || Ok(Fr::from(20u64))).unwrap();
    let h0 = CRHGadget::<Fr>::evaluate(&params_var, &[l0]).unwrap();
    let h1 = CRHGadget::<Fr>::evaluate(&params_var, &[l1]).unwrap();
    let root = TwoToOneCRHGadget::<Fr>::evaluate(&params_var, &h0, &h1).unwrap();

    assert_eq!(
        tree.root().to_le_bytes(),
        fr_bytes(root.value().unwrap()),
        "plain and in-circuit tree roots must agree"
    );
}
