//! Deterministic test fixtures: sixteen records with commitment randomness,
//! and a Merkle tree over their commitments.

use crate::econ_data::Data;
use crate::field::Fe;
use crate::hash::{commit_of, params_data, HashParams};
use crate::merkle::{fe_vals, is_pow2, SimpleMerkleTree};
use vstd::prelude::*;

verus! {

/// The i-th fixture record's purchase price; every price lies strictly
/// between 0 and 1000.
pub open spec fn test_price(i: int) -> nat {
    (37 + 59 * i) as nat
}

/// The i-th fixture record's commitment randomness.
pub open spec fn test_rand(i: int) -> nat {
    (0x243f_6a88_85a3_08d3 + 0x9e37_79b9 * i) as nat
}

/// The fixture commitments, which are the tree's leaves.
pub open spec fn test_leaves(p: Seq<u8>) -> Seq<nat> {
    Seq::new(16, |i: int| commit_of(p, test_price(i), test_rand(i)))
}

/// A helper that deterministically creates the sixteen records and their
/// commitment randomness.
pub fn all_data() -> (v: Vec<(Data, Fe)>)
    ensures
        v@.len() == 16,
        forall|i: int|
            0 <= i < 16 ==> {
                &&& (#[trigger] v@[i]).0.wf()
                &&& v@[i].1.wf()
                &&& v@[i].0.purchase_price@ == test_price(i)
                &&& v@[i].1@ == test_rand(i)
            },
{
    let mut v: Vec<(Data, Fe)> = Vec::new();
    let mut i: usize = 0;
    while i < 16
        invariant
            i <= 16,
            v@.len() == i,
            forall|k: int|
                0 <= k < i ==> {
                    &&& (#[trigger] v@[k]).0.wf()
                    &&& v@[k].1.wf()
                    &&& v@[k].0.purchase_price@ == test_price(k)
                    &&& v@[k].1@ == test_rand(k)
                },
        decreases 16 - i,
    {
        let price = Fe::from_u64(37 + 59 * (i as u64));
        let rand = Fe::from_u64(0x243f_6a88_85a3_08d3 + 0x9e37_79b9 * (i as u64));
        v.push((Data::new(price), rand));
        i = i + 1;
    }
    v
}

/// Returns a Merkle tree over the sixteen fixture commitments.
pub fn gen_test_tree(
    leaf_crh_params: &HashParams,
    two_to_one_crh_params: &HashParams,
) -> (t: SimpleMerkleTree)
    ensures
        t.wf(),
        t.leaf_params_data() == params_data(*leaf_crh_params),
        t.two_to_one_params_data() == params_data(*two_to_one_crh_params),
        t.leaves() == test_leaves(params_data(*leaf_crh_params)),
{
    let ghost p = params_data(*leaf_crh_params);
    let data = all_data();
    let mut leaves: Vec<Fe> = Vec::new();
    let mut i: usize = 0;
    while i < 16
        invariant
            i <= 16,
            data@.len() == 16,
            p == params_data(*leaf_crh_params),
            forall|k: int|
                0 <= k < 16 ==> {
                    &&& (#[trigger] data@[k]).0.wf()
                    &&& data@[k].1.wf()
                    &&& data@[k].0.purchase_price@ == test_price(k)
                    &&& data@[k].1@ == test_rand(k)
                },
            leaves@.len() == i,
            forall|k: int| 0 <= k < i ==> (#[trigger] leaves@[k]).wf(),
            forall|k: int| 0 <= k < i ==> (#[trigger] leaves@[k])@ == test_leaves(p)[k],
        decreases 16 - i,
    {
        let leaf = data[i].0.commit(leaf_crh_params, &data[i].1);
        leaves.push(leaf);
        i = i + 1;
    }
    proof {
        assert(fe_vals(leaves@) =~= test_leaves(p));
        assert(is_pow2(16)) by {
            reveal_with_fuel(is_pow2, 6);
        }
    }
    let t = SimpleMerkleTree::new(leaf_crh_params, two_to_one_crh_params, leaves).unwrap();
    t
}

/// Returns the i-th fixture leaf: the commitment of the i-th record under
/// its randomness.
pub fn get_test_leaf(leaf_crh_params: &HashParams, i: usize) -> (r: Fe)
    requires
        i < 16,
    ensures
        r.wf(),
        r@ == commit_of(params_data(*leaf_crh_params), test_price(i as int), test_rand(i as int)),
        r@ == test_leaves(params_data(*leaf_crh_params))[i as int],
{
    let data = all_data();
    data[i].0.commit(leaf_crh_params, &data[i].1)
}

/// Returns the i-th fixture record and its commitment randomness.
pub fn get_test_data(i: usize) -> (r: (Data, Fe))
    requires
        i < 16,
    ensures
        r.0.wf(),
        r.1.wf(),
        r.0.purchase_price@ == test_price(i as int),
        r.1@ == test_rand(i as int),
{
    let mut data = all_data();
    data.remove(i)
}

} // verus!
