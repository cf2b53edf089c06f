//! Trusted interface to the Poseidon hash of `ark_crypto_primitives`.
//!
//! The commitment scheme and the two-to-one node hash are realised by the
//! Poseidon sponge over the curve's scalar field.  Each outside call is
//! wrapped once; its digest is named by an uninterpreted function of the
//! configuration's contents and the absorbed values, which is what the rest
//! of the library reasons about.

use crate::field::Fe;
use ark_bls12_381::Fr;
use ark_crypto_primitives::crh::poseidon::{CRH, TwoToOneCRH};
use ark_crypto_primitives::crh::{CRHScheme, TwoToOneCRHScheme};
use ark_crypto_primitives::sponge::poseidon::{find_poseidon_ark_and_mds, PoseidonConfig};
use ark_ff::PrimeField;
use ark_serialize::{CanonicalDeserialize, CanonicalSerialize};
use vstd::prelude::*;

verus! {

/// Hash parameters: a Poseidon configuration over the scalar field, held
/// opaquely.  (Verus refuses a declaration of the outside configuration type
/// because of its trait bounds, so the whole holder is opaque instead.)
#[verifier::external_body]
pub struct HashParams {
    cfg: PoseidonConfig<Fr>,
}

/// The contents of a Poseidon configuration — round counts, exponent, round
/// constants and matrix — as one opaque byte string; two configurations with
/// the same contents hash identically.
pub uninterp spec fn params_data(c: HashParams) -> Seq<u8>;

/// The contents of the configuration that the deterministic Grain derivation
/// produces for a given sponge rate.
pub uninterp spec fn grain_params_data(rate: nat) -> Seq<u8>;

/// The digest of a record commitment: the Poseidon hash of the record value
/// and the opening randomness under the given configuration contents.
pub uninterp spec fn commit_of(params: Seq<u8>, value: nat, rand: nat) -> nat;

/// The Poseidon hash of a single leaf digest, applied when a leaf enters the
/// Merkle tree.
pub uninterp spec fn leaf_of(params: Seq<u8>, x: nat) -> nat;

/// The two-to-one Poseidon hash of two child digests, applied at every
/// interior Merkle node.
pub uninterp spec fn combine_of(params: Seq<u8>, left: nat, right: nat) -> nat;

/// Relies on `find_poseidon_ark_and_mds` and `PoseidonConfig::new` of
/// ark-crypto-primitives: the Grain LFSR derivation of the round constants
/// and matrix is a pure function of the field and the rate, so every set-up
/// yields a configuration with the same contents.
#[verifier::external_body]
pub fn setup_params() -> (r: HashParams)
    ensures
        params_data(r) == grain_params_data(2),
{
    let (ark, mds) = find_poseidon_ark_and_mds::<Fr>(
        <Fr as PrimeField>::MODULUS_BIT_SIZE as u64,
        2,
        8,
        57,
        0,
    );
    HashParams { cfg: PoseidonConfig::new(8, 57, 5, mds, ark, 2, 1) }
}

/// Relies on the derived `Clone` of the outside configuration type: the copy
/// holds the same contents as the original.
#[verifier::external_body]
pub fn duplicate_params(p: &HashParams) -> (r: HashParams)
    ensures
        params_data(r) == params_data(*p),
{
    HashParams { cfg: p.cfg.clone() }
}

/// Relies on poseidon `CRH::evaluate` of ark-crypto-primitives: the digest is
/// a function of the configuration's contents and the two absorbed field
/// elements alone; and on ark-serialize, whose canonical field encoding is 32
/// little-endian bytes of the reduced representative, so the result is a
/// well-formed element.  The modulus bytes in `field` are the scalar-field
/// modulus of the curve, so deserialising a well-formed element cannot fail.
#[verifier::external_body]
pub(crate) fn commit(params: &HashParams, value: &Fe, rand: &Fe) -> (r: Fe)
    requires
        value.wf(),
        rand.wf(),
    ensures
        r.wf(),
        r@ == commit_of(params_data(*params), value@, rand@),
{
    let a = Fr::deserialize_compressed(value.bytes.as_slice()).unwrap();
    let b = Fr::deserialize_compressed(rand.bytes.as_slice()).unwrap();
    let out = CRH::<Fr>::evaluate(&params.cfg, [a, b].as_slice()).unwrap();
    let mut bytes: Vec<u8> = Vec::new();
    out.serialize_compressed(&mut bytes).unwrap();
    Fe { bytes }
}

/// Relies on poseidon `CRH::evaluate` of ark-crypto-primitives over a single
/// absorbed element, and on ark-serialize as for `commit`.
#[verifier::external_body]
pub(crate) fn hash_leaf(params: &HashParams, x: &Fe) -> (r: Fe)
    requires
        x.wf(),
    ensures
        r.wf(),
        r@ == leaf_of(params_data(*params), x@),
{
    let a = Fr::deserialize_compressed(x.bytes.as_slice()).unwrap();
    let out = CRH::<Fr>::evaluate(&params.cfg, [a].as_slice()).unwrap();
    let mut bytes: Vec<u8> = Vec::new();
    out.serialize_compressed(&mut bytes).unwrap();
    Fe { bytes }
}

/// Relies on poseidon `TwoToOneCRH::evaluate` of ark-crypto-primitives: the
/// digest is a function of the configuration's contents and the two absorbed
/// child digests alone; and on ark-serialize as for `commit`.
#[verifier::external_body]
pub(crate) fn combine(params: &HashParams, left: &Fe, right: &Fe) -> (r: Fe)
    requires
        left.wf(),
        right.wf(),
    ensures
        r.wf(),
        r@ == combine_of(params_data(*params), left@, right@),
{
    let a = Fr::deserialize_compressed(left.bytes.as_slice()).unwrap();
    let b = Fr::deserialize_compressed(right.bytes.as_slice()).unwrap();
    let out = TwoToOneCRH::<Fr>::evaluate(&params.cfg, &a, &b).unwrap();
    let mut bytes: Vec<u8> = Vec::new();
    out.serialize_compressed(&mut bytes).unwrap();
    Fe { bytes }
}

} // verus!
