//! The record model: a single numeric field (the purchase price) together
//! with its commitment operation.  Equality is structural; a record never
//! leaves the prover in the clear.

use crate::field::Fe;
use crate::hash::{commit, commit_of, params_data, HashParams};
use vstd::prelude::*;

verus! {

/// A committed record.
pub struct Data {
    /// The amount the data was purchased for.
    pub purchase_price: Fe,
}

impl Data {
    /// A record is well formed when its price is a canonical field element.
    pub open spec fn wf(&self) -> bool {
        self.purchase_price.wf()
    }

    /// Build a record from its price.
    pub fn new(purchase_price: Fe) -> (r: Data)
        ensures
            r.purchase_price == purchase_price,
    {
        Data { purchase_price }
    }

    /// The record's numeric value.
    pub fn value(&self) -> (r: &Fe)
        ensures
            r == &self.purchase_price,
    {
        &self.purchase_price
    }

    /// Commit to this record under the given hash parameters and opening
    /// randomness.  The digest is the commitment scheme's leaf.
    pub fn commit(&self, leaf_crh_params: &HashParams, com_rand: &Fe) -> (r: Fe)
        requires
            self.wf(),
            com_rand.wf(),
        ensures
            r.wf(),
            r@ == commit_of(params_data(*leaf_crh_params), self.purchase_price@, com_rand@),
    {
        commit(leaf_crh_params, &self.purchase_price, com_rand)
    }
}

} // verus!
