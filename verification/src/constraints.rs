//! The constraint system and the circuits that synthesize into it.
//!
//! A circuit turns its instance — hash parameters, public inputs and private
//! witnesses — into an arithmetic constraint system: an ordered table of
//! allocated variables and an ordered list of enforced relations.  The
//! system is satisfiable exactly when every enforced relation holds of the
//! assigned values; a wrong witness never makes synthesis fail, it only
//! leaves the system unsatisfied.

use crate::field::{r_modulus, Fe};
use crate::hash::{commit, commit_of, params_data, HashParams};
use vstd::arithmetic::div_mod::{lemma_add_mod_noop, lemma_small_mod};
use vstd::arithmetic::mul::{lemma_mul_inequality, lemma_mul_is_distributive_sub_other_way};
use vstd::prelude::*;

verus! {

/// Who supplies a variable's assignment.
#[derive(Clone, Copy, PartialEq, Eq, Structural, Debug)]
pub enum Role {
    /// Known to the verifier; part of the claim being checked.
    PublicInput,
    /// Known only to the prover.
    Witness,
}

/// An allocated variable: its role and its assigned field value.
pub struct CircuitVar {
    pub role: Role,
    pub value: Fe,
}

/// One enforced relation over allocated variables, named by their indices in
/// allocation order.
#[derive(Clone, Copy, PartialEq, Eq, Structural, Debug)]
pub enum Constraint {
    /// Commitment opening: the hash of the values at `price` and `rand`
    /// under the system's parameters equals the value at `com`.
    Open { com: usize, price: usize, rand: usize },
    /// Strict order: the value at `lo` is less than the value at `hi`.
    Lt { lo: usize, hi: usize },
    /// Aggregate: the field sum of the `count` values starting at `first`
    /// equals the value at `total`.
    SumEq { first: usize, count: usize, total: usize },
}

/// The assigned values of a variable table.
pub open spec fn var_vals(vs: Seq<CircuitVar>) -> Seq<nat> {
    Seq::new(vs.len(), |i: int| vs[i].value@)
}

/// The sum of a sequence of values (not reduced).
pub open spec fn sum_of(s: Seq<nat>) -> nat
    decreases s.len(),
{
    if s.len() == 0 {
        0
    } else {
        sum_of(s.drop_last()) + s.last()
    }
}

/// An arithmetic constraint system: embedded hash parameters, a variable
/// table in allocation order, and the enforced relations in enforcement
/// order.
pub struct ConstraintSystem {
    pub leaf_params: Option<HashParams>,
    pub vars: Vec<CircuitVar>,
    pub constraints: Vec<Constraint>,
}

impl ConstraintSystem {
    /// Whether the parameters have been embedded.
    pub open spec fn has_params(&self) -> bool {
        match self.leaf_params {
            Option::Some(_) => true,
            Option::None => false,
        }
    }

    /// The contents of the embedded hash parameters.
    pub open spec fn pdata(&self) -> Seq<u8> {
        match self.leaf_params {
            Option::Some(p) => params_data(p),
            Option::None => Seq::empty(),
        }
    }

    /// Whether one relation holds of the assigned values.  A relation that
    /// names a missing variable does not hold.
    pub open spec fn constraint_holds(&self, c: Constraint) -> bool {
        let vals = var_vals(self.vars@);
        match c {
            Constraint::Open { com, price, rand } => {
                &&& com < vals.len()
                &&& price < vals.len()
                &&& rand < vals.len()
                &&& vals[com as int] == commit_of(
                    self.pdata(),
                    vals[price as int],
                    vals[rand as int],
                )
            },
            Constraint::Lt { lo, hi } => {
                &&& lo < vals.len()
                &&& hi < vals.len()
                &&& vals[lo as int] < vals[hi as int]
            },
            Constraint::SumEq { first, count, total } => {
                &&& first + count <= vals.len()
                &&& total < vals.len()
                &&& sum_of(vals.subrange(first as int, first + count)) % r_modulus() == vals[
                    total as int]
            },
        }
    }

    /// The system is satisfied when every enforced relation holds.
    pub open spec fn satisfied(&self) -> bool {
        forall|i: int|
            0 <= i < self.constraints@.len() ==> self.constraint_holds(
                #[trigger] self.constraints@[i],
            )
    }

    /// Every assignment is canonical and the parameters are present, so the
    /// system can be checked.
    pub open spec fn wf(&self) -> bool {
        &&& self.has_params()
        &&& forall|i: int| 0 <= i < self.vars@.len() ==> (#[trigger] self.vars@[i]).value.wf()
    }

    /// A fresh, empty system.
    pub fn new() -> (r: ConstraintSystem)
        ensures
            !r.has_params(),
            r.vars@.len() == 0,
            r.constraints@.len() == 0,
    {
        ConstraintSystem { leaf_params: None, vars: Vec::new(), constraints: Vec::new() }
    }

    /// Embed the hash parameters as the system's constants.
    pub fn set_params(&mut self, p: HashParams)
        ensures
            final (self).leaf_params == Option::Some(p),
            final (self).vars == old(self).vars,
            final (self).constraints == old(self).constraints,
            final (self).pdata() == params_data(p),
            final (self).has_params(),
    {
        self.leaf_params = Some(p);
    }

    /// Allocate one variable; returns its index in allocation order.
    pub fn allocate(&mut self, role: Role, value: Fe) -> (idx: usize)
        ensures
            final (self).vars@ == old(self).vars@.push(CircuitVar { role, value }),
            final (self).constraints == old(self).constraints,
            final (self).leaf_params == old(self).leaf_params,
            idx == old(self).vars@.len(),
    {
        let idx = self.vars.len();
        self.vars.push(CircuitVar { role, value });
        idx
    }

    /// Enforce one relation.
    pub fn enforce(&mut self, c: Constraint)
        ensures
            final (self).constraints@ == old(self).constraints@.push(c),
            final (self).vars == old(self).vars,
            final (self).leaf_params == old(self).leaf_params,
    {
        self.constraints.push(c);
    }

    /// Check whether the system is satisfied, evaluating every relation
    /// against the assigned values.
    pub fn is_satisfied(&self) -> (b: bool)
        requires
            self.wf(),
        ensures
            b == self.satisfied(),
    {
        let n: usize = self.constraints.len();
        let mut ok: bool = true;
        let mut i: usize = 0;
        while i < n
            invariant
                i <= n,
                n == self.constraints@.len(),
                self.wf(),
                ok == forall|j: int|
                    0 <= j < i ==> self.constraint_holds(#[trigger] self.constraints@[j]),
            decreases n - i,
        {
            let c = self.constraints[i];
            let holds = self.check_one(c);
            proof {
                if ok && holds {
                    assert(forall|j: int|
                        0 <= j < i + 1 ==> self.constraint_holds(#[trigger] self.constraints@[j]));
                }
            }
            ok = ok && holds;
            i = i + 1;
        }
        ok
    }

    /// Evaluate one relation.
    fn check_one(&self, c: Constraint) -> (b: bool)
        requires
            self.wf(),
        ensures
            b == self.constraint_holds(c),
    {
        let nv: usize = self.vars.len();
        match c {
            Constraint::Open { com, price, rand } => {
                if com < nv && price < nv && rand < nv {
                    let params = match &self.leaf_params {
                        Some(p) => p,
                        None => {
                            proof {
                                assert(false);
                            }
                            return false;
                        },
                    };
                    let digest = commit(params, &self.vars[price].value, &self.vars[rand].value);
                    digest.eq_val(&self.vars[com].value)
                } else {
                    false
                }
            },
            Constraint::Lt { lo, hi } => {
                if lo < nv && hi < nv {
                    self.vars[lo].value.lt(&self.vars[hi].value)
                } else {
                    false
                }
            },
            Constraint::SumEq { first, count, total } => {
                if total < nv && count <= nv && first <= nv - count {
                    let ghost vals = var_vals(self.vars@);
                    let mut acc = Fe::from_u64(0);
                    proof {
                        crate::field::lemma_r_range();
                        assert(vals.subrange(first as int, first as int) =~= Seq::<nat>::empty());
                        lemma_small_mod(0, r_modulus());
                    }
                    let mut k: usize = 0;
                    while k < count
                        invariant
                            k <= count,
                            self.wf(),
                            vals == var_vals(self.vars@),
                            nv == self.vars@.len(),
                            first + count <= nv,
                            acc.wf(),
                            acc@ == sum_of(vals.subrange(first as int, first + k)) % r_modulus(),
                        decreases count - k,
                    {
                        let v = &self.vars[first + k].value;
                        proof {
                            assert(self.vars@[first + k].value.wf());
                            let pre = vals.subrange(first as int, first + k);
                            let post = vals.subrange(first as int, first + k + 1);
                            assert(post.drop_last() =~= pre);
                            assert(post.last() == vals[first + k]);
                            assert(v@ == vals[first + k]);
                            crate::field::lemma_r_range();
                            crate::field::lemma_fe_wf_bound(self.vars@[first + k].value);
                            lemma_small_mod(v@, r_modulus());
                            lemma_add_mod_noop(
                                sum_of(pre) as int,
                                v@ as int,
                                r_modulus() as int,
                            );
                        }
                        acc = acc.add(v);
                        k = k + 1;
                    }
                    acc.eq_val(&self.vars[total].value)
                } else {
                    false
                }
            },
        }
    }
}

/// One calendar month's entries: the public commitment, and the private
/// record value and opening randomness.
pub struct MonthEntry {
    /// The public commitment this month's record must open to.
    pub com: Fe,
    /// The amount the data was purchased for (private witness).
    pub purchase_price: Fe,
    /// The randomness used to commit to the record (private witness).
    pub com_rand: Fe,
}

impl MonthEntry {
    pub open spec fn wf(&self) -> bool {
        self.com.wf() && self.purchase_price.wf() && self.com_rand.wf()
    }
}

/// One month's values.
pub struct MonthVal {
    pub com: nat,
    pub price: nat,
    pub rand: nat,
}

/// The values of a sequence of month entries.
pub open spec fn month_vals(ms: Seq<MonthEntry>) -> Seq<MonthVal> {
    Seq::new(
        ms.len(),
        |i: int|
            MonthVal { com: ms[i].com@, price: ms[i].purchase_price@, rand: ms[i].com_rand@ },
    )
}

/// The record values of a sequence of months.
pub open spec fn prices_of(months: Seq<MonthVal>) -> Seq<nat> {
    Seq::new(months.len(), |i: int| months[i].price)
}

/// The relation the analysis circuit enforces: every month's commitment
/// opens to its record and randomness, every record lies strictly between
/// the bounds, and the records sum (in the field) to the claimed aggregate.
pub open spec fn analysis_holds(
    p: Seq<u8>,
    months: Seq<MonthVal>,
    claim: nat,
    min: nat,
    max: nat,
) -> bool {
    &&& forall|m: int|
        0 <= m < months.len() ==> (#[trigger] months[m]).com == commit_of(
            p,
            months[m].price,
            months[m].rand,
        )
    &&& forall|m: int|
        0 <= m < months.len() ==> min < (#[trigger] months[m]).price && months[m].price < max
    &&& sum_of(prices_of(months)) % r_modulus() == claim
}

/// The role and value of the analysis circuit's i-th allocated variable:
/// first the public inputs (the twelve commitments, the aggregate claim, the
/// two bounds), then the private witnesses (the twelve record values, the
/// twelve randomness values).
pub open spec fn analysis_var_at(
    months: Seq<MonthVal>,
    claim: nat,
    min: nat,
    max: nat,
    i: int,
) -> (Role, nat) {
    if i < 12 {
        (Role::PublicInput, months[i].com)
    } else if i == 12 {
        (Role::PublicInput, claim)
    } else if i == 13 {
        (Role::PublicInput, min)
    } else if i == 14 {
        (Role::PublicInput, max)
    } else if i < 27 {
        (Role::Witness, months[i - 15].price)
    } else {
        (Role::Witness, months[i - 27].rand)
    }
}

/// The analysis circuit's i-th enforced relation: the twelve commitment
/// openings, then the twelve pairs of strict bounds, then the sum.
pub open spec fn analysis_constraint_at(i: int) -> Constraint {
    if i < 12 {
        Constraint::Open { com: i as usize, price: (i + 15) as usize, rand: (i + 27) as usize }
    } else if i < 36 {
        let m = (i - 12) / 2;
        if (i - 12) % 2 == 0 {
            Constraint::Lt { lo: 13, hi: (m + 15) as usize }
        } else {
            Constraint::Lt { lo: (m + 15) as usize, hi: 14 }
        }
    } else {
        Constraint::SumEq { first: 15, count: 12, total: 12 }
    }
}

/// The exact contents of a constraint system the analysis circuit has
/// synthesized into.
pub open spec fn analysis_shape(
    cs: ConstraintSystem,
    p: Seq<u8>,
    months: Seq<MonthVal>,
    claim: nat,
    min: nat,
    max: nat,
) -> bool {
    &&& cs.has_params()
    &&& cs.pdata() == p
    &&& months.len() == 12
    &&& cs.vars@.len() == 39
    &&& forall|i: int|
        0 <= i < 39 ==> (#[trigger] cs.vars@[i]).role == analysis_var_at(
            months,
            claim,
            min,
            max,
            i,
        ).0 && cs.vars@[i].value@ == analysis_var_at(months, claim, min, max, i).1
    &&& cs.constraints@.len() == 37
    &&& forall|i: int| 0 <= i < 37 ==> #[trigger] cs.constraints@[i] == analysis_constraint_at(i)
}

/// A system with the analysis shape is satisfied exactly when the analysis
/// relation holds of the instance's values.
pub proof fn lemma_analysis_shape_iff(
    cs: ConstraintSystem,
    p: Seq<u8>,
    months: Seq<MonthVal>,
    claim: nat,
    min: nat,
    max: nat,
)
    requires
        analysis_shape(cs, p, months, claim, min, max),
    ensures
        cs.satisfied() <==> analysis_holds(p, months, claim, min, max),
{
    let vals = var_vals(cs.vars@);
    assert(vals.len() == 39);
    assert forall|i: int| 0 <= i < 39 implies vals[i] == analysis_var_at(
        months,
        claim,
        min,
        max,
        i,
    ).1 by {
        assert(vals[i] == cs.vars@[i].value@);
    }
    assert(vals.subrange(15, 27) =~= prices_of(months));

    if cs.satisfied() {
        assert forall|m: int| 0 <= m < 12 implies (#[trigger] months[m]).com == commit_of(
            p,
            months[m].price,
            months[m].rand,
        ) by {
            assert(cs.constraints@[m] == analysis_constraint_at(m));
            assert(cs.constraint_holds(cs.constraints@[m]));
            assert(vals[m] == months[m].com);
            assert(vals[m + 15] == months[m].price);
            assert(vals[m + 27] == months[m].rand);
        }
        assert forall|m: int| 0 <= m < 12 implies min < (#[trigger] months[m]).price && months[m].price
            < max by {
            let i1 = 12 + 2 * m;
            let i2 = 13 + 2 * m;
            assert(cs.constraint_holds(cs.constraints@[i1]));
            assert(cs.constraint_holds(cs.constraints@[i2]));
            assert((i1 - 12) % 2 == 0 && (i1 - 12) / 2 == m);
            assert((i2 - 12) % 2 == 1 && (i2 - 12) / 2 == m);
            assert(analysis_constraint_at(i1) == Constraint::Lt {
                lo: 13,
                hi: (m + 15) as usize,
            });
            assert(analysis_constraint_at(i2) == Constraint::Lt {
                lo: (m + 15) as usize,
                hi: 14,
            });
            assert(vals[13] == min && vals[14] == max && vals[m + 15] == months[m].price);
        }
        assert(cs.constraint_holds(cs.constraints@[36]));
        assert(sum_of(prices_of(months)) % r_modulus() == claim);
    }
    if analysis_holds(p, months, claim, min, max) {
        assert forall|i: int| 0 <= i < cs.constraints@.len() implies cs.constraint_holds(
            #[trigger] cs.constraints@[i],
        ) by {
            assert(cs.constraints@[i] == analysis_constraint_at(i));
            if i < 12 {
                assert(months[i].com == commit_of(p, months[i].price, months[i].rand));
                assert(vals[i] == months[i].com);
                assert(vals[i + 15] == months[i].price);
                assert(vals[i + 27] == months[i].rand);
            } else if i < 36 {
                let m = (i - 12) / 2;
                assert(0 <= m < 12);
                assert(min < months[m].price && months[m].price < max);
                assert(vals[13] == min && vals[14] == max && vals[m + 15] == months[m].price);
            } else {
                assert(sum_of(vals.subrange(15, 27)) % r_modulus() == vals[12]);
            }
        }
    }
}

/// The analysis circuit: proves that twelve committed records open
/// correctly, lie strictly inside the public bounds, and sum to the public
/// aggregate claim.
pub struct AnalysisCircuit {
    /// Constants embedded into the circuit: how the commitment hash works.
    pub leaf_crh_params: HashParams,
    /// Parameters of the two-to-one hash; carried with the instance, not
    /// used by the circuit's own relations.
    pub two_to_one_crh_params: HashParams,
    /// One (commitment, record, randomness) triple per calendar month, in
    /// month order.
    pub months: Vec<MonthEntry>,
    /// The public aggregate claim.  Despite the historical name, this is the
    /// raw sum of the twelve records, never divided.
    pub output_purchase_price_avg: Fe,
    /// The public lower bound; every record must exceed it strictly.
    pub bounds_purchase_price_min: Fe,
    /// The public upper bound; every record must stay strictly below it.
    pub bounds_purchase_price_max: Fe,
}

impl AnalysisCircuit {
    pub open spec fn wf(&self) -> bool {
        &&& self.months@.len() == 12
        &&& forall|i: int| 0 <= i < 12 ==> (#[trigger] self.months@[i]).wf()
        &&& self.output_purchase_price_avg.wf()
        &&& self.bounds_purchase_price_min.wf()
        &&& self.bounds_purchase_price_max.wf()
    }

    /// Synthesize the circuit into a fresh constraint system.
    ///
    /// Allocation order is fixed and load-bearing: parameters as constants,
    /// then the public inputs (commitments, claim, bounds), then the private
    /// witnesses (records, randomness), then the relations (openings,
    /// ranges, sum).  Synthesis is total: a wrong witness still yields a
    /// well-formed system, it only leaves it unsatisfied.
    pub fn generate_constraints(self, cs: &mut ConstraintSystem)
        requires
            old(cs).vars@.len() == 0,
            old(cs).constraints@.len() == 0,
            self.wf(),
        ensures
            final (cs).wf(),
            analysis_shape(
                *final (cs),
                params_data(self.leaf_crh_params),
                month_vals(self.months@),
                self.output_purchase_price_avg@,
                self.bounds_purchase_price_min@,
                self.bounds_purchase_price_max@,
            ),
            final (cs).satisfied() <==> analysis_holds(
                params_data(self.leaf_crh_params),
                month_vals(self.months@),
                self.output_purchase_price_avg@,
                self.bounds_purchase_price_min@,
                self.bounds_purchase_price_max@,
            ),
    {
        let ghost p = params_data(self.leaf_crh_params);
        let ghost ms = month_vals(self.months@);
        let ghost claim_v = self.output_purchase_price_avg@;
        let ghost min_v = self.bounds_purchase_price_min@;
        let ghost max_v = self.bounds_purchase_price_max@;
        let AnalysisCircuit {
            leaf_crh_params,
            two_to_one_crh_params: _,
            months,
            output_purchase_price_avg,
            bounds_purchase_price_min,
            bounds_purchase_price_max,
        } = self;

        // Parameters enter the system as its constants.
        cs.set_params(leaf_crh_params);

        // Public inputs: the twelve commitments ...
        let mut m: usize = 0;
        while m < 12
            invariant
                m <= 12,
                months@.len() == 12,
                ms == month_vals(months@),
                forall|k: int| 0 <= k < 12 ==> (#[trigger] months@[k]).wf(),
                cs.has_params(),
                cs.pdata() == p,
                cs.constraints@.len() == 0,
                cs.vars@.len() == m,
                forall|k: int|
                    0 <= k < m ==> (#[trigger] cs.vars@[k]).role == Role::PublicInput
                        && cs.vars@[k].value@ == ms[k].com && cs.vars@[k].value.wf(),
            decreases 12 - m,
        {
            let _ = cs.allocate(Role::PublicInput, months[m].com.duplicate());
            m = m + 1;
        }
        // ... the aggregate claim, and the bounds.
        let _ = cs.allocate(Role::PublicInput, output_purchase_price_avg);
        let _ = cs.allocate(Role::PublicInput, bounds_purchase_price_min);
        let _ = cs.allocate(Role::PublicInput, bounds_purchase_price_max);

        // Private witnesses: the twelve record values ...
        let mut m: usize = 0;
        while m < 12
            invariant
                m <= 12,
                months@.len() == 12,
                ms == month_vals(months@),
                forall|k: int| 0 <= k < 12 ==> (#[trigger] months@[k]).wf(),
                cs.has_params(),
                cs.pdata() == p,
                cs.constraints@.len() == 0,
                cs.vars@.len() == 15 + m,
                forall|k: int|
                    0 <= k < 15 ==> (#[trigger] cs.vars@[k]).role == analysis_var_at(
                        ms,
                        claim_v,
                        min_v,
                        max_v,
                        k,
                    ).0 && cs.vars@[k].value@ == analysis_var_at(ms, claim_v, min_v, max_v, k).1
                        && cs.vars@[k].value.wf(),
                forall|k: int|
                    15 <= k < 15 + m ==> (#[trigger] cs.vars@[k]).role == Role::Witness
                        && cs.vars@[k].value@ == ms[k - 15].price && cs.vars@[k].value.wf(),
            decreases 12 - m,
        {
            let _ = cs.allocate(Role::Witness, months[m].purchase_price.duplicate());
            m = m + 1;
        }
        // ... and the twelve randomness values.
        let mut m: usize = 0;
        while m < 12
            invariant
                m <= 12,
                months@.len() == 12,
                ms == month_vals(months@),
                forall|k: int| 0 <= k < 12 ==> (#[trigger] months@[k]).wf(),
                cs.has_params(),
                cs.pdata() == p,
                cs.constraints@.len() == 0,
                cs.vars@.len() == 27 + m,
                forall|k: int|
                    0 <= k < 27 ==> (#[trigger] cs.vars@[k]).role == analysis_var_at(
                        ms,
                        claim_v,
                        min_v,
                        max_v,
                        k,
                    ).0 && cs.vars@[k].value@ == analysis_var_at(ms, claim_v, min_v, max_v, k).1
                        && cs.vars@[k].value.wf(),
                forall|k: int|
                    27 <= k < 27 + m ==> (#[trigger] cs.vars@[k]).role == Role::Witness
                        && cs.vars@[k].value@ == ms[k - 27].rand && cs.vars@[k].value.wf(),
            decreases 12 - m,
        {
            let _ = cs.allocate(Role::Witness, months[m].com_rand.duplicate());
            m = m + 1;
        }
        proof {
            assert forall|i: int| 0 <= i < 39 implies (#[trigger] cs.vars@[i]).role
                == analysis_var_at(ms, claim_v, min_v, max_v, i).0 && cs.vars@[i].value@
                == analysis_var_at(ms, claim_v, min_v, max_v, i).1 && cs.vars@[i].value.wf() by {
            }
        }

        // Relations, in the fixed order: the commitment openings ...
        let mut m: usize = 0;
        while m < 12
            invariant
                m <= 12,
                cs.has_params(),
                cs.pdata() == p,
                ms.len() == 12,
                cs.vars@.len() == 39,
                forall|i: int|
                    0 <= i < 39 ==> (#[trigger] cs.vars@[i]).role == analysis_var_at(
                        ms,
                        claim_v,
                        min_v,
                        max_v,
                        i,
                    ).0 && cs.vars@[i].value@ == analysis_var_at(ms, claim_v, min_v, max_v, i).1
                        && cs.vars@[i].value.wf(),
                cs.constraints@.len() == m,
                forall|i: int| 0 <= i < m ==> #[trigger] cs.constraints@[i]
                    == analysis_constraint_at(i),
            decreases 12 - m,
        {
            cs.enforce(Constraint::Open { com: m, price: m + 15, rand: m + 27 });
            m = m + 1;
        }
        // ... the strict range bounds, month by month ...
        let mut m: usize = 0;
        while m < 12
            invariant
                m <= 12,
                cs.has_params(),
                cs.pdata() == p,
                ms.len() == 12,
                cs.vars@.len() == 39,
                forall|i: int|
                    0 <= i < 39 ==> (#[trigger] cs.vars@[i]).role == analysis_var_at(
                        ms,
                        claim_v,
                        min_v,
                        max_v,
                        i,
                    ).0 && cs.vars@[i].value@ == analysis_var_at(ms, claim_v, min_v, max_v, i).1
                        && cs.vars@[i].value.wf(),
                cs.constraints@.len() == 12 + 2 * m,
                forall|i: int| 0 <= i < 12 + 2 * m ==> #[trigger] cs.constraints@[i]
                    == analysis_constraint_at(i),
            decreases 12 - m,
        {
            cs.enforce(Constraint::Lt { lo: 13, hi: m + 15 });
            cs.enforce(Constraint::Lt { lo: m + 15, hi: 14 });
            proof {
                assert((12 + 2 * m - 12) % 2 == 0 && (12 + 2 * m - 12) / 2 == m as int);
                assert((13 + 2 * m - 12) % 2 == 1 && (13 + 2 * m - 12) / 2 == m as int);
            }
            m = m + 1;
        }
        // ... and the aggregate sum.
        cs.enforce(Constraint::SumEq { first: 15, count: 12, total: 12 });

        proof {
            assert(analysis_shape(*cs, p, ms, claim_v, min_v, max_v));
            lemma_analysis_shape_iff(*cs, p, ms, claim_v, min_v, max_v);
        }
    }
}

/// The possession circuit: proves that one committed record opens to a
/// public digest.
pub struct PossessionCircuit {
    /// Constants embedded into the circuit: how the commitment hash works.
    pub leaf_crh_params: HashParams,
    /// The public commitment.
    pub com: Fe,
    /// The record value (private witness).
    pub data_purchase_price: Fe,
    /// The opening randomness (private witness).
    pub data_com_rand: Fe,
}

/// The relation the possession circuit enforces.
pub open spec fn possession_holds(p: Seq<u8>, com: nat, price: nat, rand: nat) -> bool {
    com == commit_of(p, price, rand)
}

impl PossessionCircuit {
    pub open spec fn wf(&self) -> bool {
        self.com.wf() && self.data_purchase_price.wf() && self.data_com_rand.wf()
    }

    /// Synthesize the circuit into a fresh constraint system: the public
    /// commitment, then the two witnesses, then the opening relation.
    pub fn generate_constraints(self, cs: &mut ConstraintSystem)
        requires
            old(cs).vars@.len() == 0,
            old(cs).constraints@.len() == 0,
            self.wf(),
        ensures
            final (cs).wf(),
            final (cs).pdata() == params_data(self.leaf_crh_params),
            final (cs).satisfied() <==> possession_holds(
                params_data(self.leaf_crh_params),
                self.com@,
                self.data_purchase_price@,
                self.data_com_rand@,
            ),
    {
        let ghost p = params_data(self.leaf_crh_params);
        let PossessionCircuit { leaf_crh_params, com, data_purchase_price, data_com_rand } = self;
        cs.set_params(leaf_crh_params);
        let ghost com_v = com@;
        let ghost price_v = data_purchase_price@;
        let ghost rand_v = data_com_rand@;
        let _ = cs.allocate(Role::PublicInput, com);
        let _ = cs.allocate(Role::Witness, data_purchase_price);
        let _ = cs.allocate(Role::Witness, data_com_rand);
        cs.enforce(Constraint::Open { com: 0, price: 1, rand: 2 });
        proof {
            let vals = var_vals(cs.vars@);
            assert(vals.len() == 3);
            assert(vals[0] == com_v && vals[1] == price_v && vals[2] == rand_v);
            let c = cs.constraints@[0];
            if cs.satisfied() {
                assert(cs.constraint_holds(c));
            }
            if possession_holds(p, com_v, price_v, rand_v) {
                assert(cs.constraint_holds(c));
                assert forall|i: int| 0 <= i < cs.constraints@.len() implies cs.constraint_holds(
                    #[trigger] cs.constraints@[i],
                ) by {
                    assert(cs.constraints@[i] == c);
                }
            }
        }
    }
}

/// LAW — completeness at the constraint level: an instance whose months open
/// honestly, whose records all lie strictly inside the bounds, and whose
/// records sum to the claim, satisfies the analysis relation; by the
/// synthesis contract its constraint system is then satisfied.
pub proof fn lemma_analysis_completeness(
    p: Seq<u8>,
    prices: Seq<nat>,
    rands: Seq<nat>,
    claim: nat,
    min: nat,
    max: nat,
)
    requires
        prices.len() == 12,
        rands.len() == 12,
        forall|m: int| 0 <= m < 12 ==> min < #[trigger] prices[m] && prices[m] < max,
        sum_of(prices) % r_modulus() == claim,
    ensures
        analysis_holds(p, honest_months(p, prices, rands), claim, min, max),
{
    let months = honest_months(p, prices, rands);
    assert(prices_of(months) =~= prices);
}

/// The months an honest prover forms: each commitment is the hash of its own
/// record and randomness.
pub open spec fn honest_months(p: Seq<u8>, prices: Seq<nat>, rands: Seq<nat>) -> Seq<MonthVal> {
    Seq::new(
        prices.len(),
        |i: int| MonthVal { com: commit_of(p, prices[i], rands[i]), price: prices[i], rand: rands[i] },
    )
}

/// LAW — soundness of the opening check: a satisfied analysis relation pins
/// every month's commitment to the hash of that month's record and
/// randomness.  Mutating a record under a fixed commitment and randomness
/// therefore leaves the relation unsatisfied unless the mutated record
/// hashes to the very same digest, which is the hash's binding property.
pub proof fn lemma_analysis_opening_soundness(
    p: Seq<u8>,
    months: Seq<MonthVal>,
    claim: nat,
    min: nat,
    max: nat,
    m: int,
)
    requires
        months.len() == 12,
        0 <= m < 12,
    ensures
        analysis_holds(p, months, claim, min, max) ==> months[m].com == commit_of(
            p,
            months[m].price,
            months[m].rand,
        ),
{
}

/// LAW — soundness of the range check: a record equal to either bound, or
/// outside them, leaves the analysis relation unsatisfied.
pub proof fn lemma_analysis_range_soundness(
    p: Seq<u8>,
    months: Seq<MonthVal>,
    claim: nat,
    min: nat,
    max: nat,
    m: int,
)
    requires
        months.len() == 12,
        0 <= m < 12,
        months[m].price <= min || months[m].price >= max,
    ensures
        !analysis_holds(p, months, claim, min, max),
{
}

/// LAW — completeness at the system level: a synthesized system whose
/// instance was formed honestly, with every record strictly inside the
/// bounds and the records summing to the claim, is satisfied.
pub proof fn lemma_completeness_cs(
    cs: ConstraintSystem,
    p: Seq<u8>,
    prices: Seq<nat>,
    rands: Seq<nat>,
    claim: nat,
    min: nat,
    max: nat,
)
    requires
        prices.len() == 12,
        rands.len() == 12,
        analysis_shape(cs, p, honest_months(p, prices, rands), claim, min, max),
        forall|m: int| 0 <= m < 12 ==> min < #[trigger] prices[m] && prices[m] < max,
        sum_of(prices) % r_modulus() == claim,
    ensures
        cs.satisfied(),
{
    lemma_analysis_completeness(p, prices, rands, claim, min, max);
    lemma_analysis_shape_iff(cs, p, honest_months(p, prices, rands), claim, min, max);
}

/// LAW — opening soundness at the system level: a satisfied system pins
/// every month's commitment to the hash of that month's record and
/// randomness, so holding a commitment and randomness fixed while mutating
/// the record leaves the system unsatisfied unless the hash collides.
pub proof fn lemma_opening_soundness_cs(
    cs: ConstraintSystem,
    p: Seq<u8>,
    months: Seq<MonthVal>,
    claim: nat,
    min: nat,
    max: nat,
    m: int,
)
    requires
        analysis_shape(cs, p, months, claim, min, max),
        0 <= m < 12,
    ensures
        cs.satisfied() ==> months[m].com == commit_of(p, months[m].price, months[m].rand),
{
    lemma_analysis_shape_iff(cs, p, months, claim, min, max);
}

/// LAW — range soundness at the system level: a record equal to either
/// bound, or outside them, leaves the synthesized system unsatisfied.
pub proof fn lemma_range_soundness_cs(
    cs: ConstraintSystem,
    p: Seq<u8>,
    months: Seq<MonthVal>,
    claim: nat,
    min: nat,
    max: nat,
    m: int,
)
    requires
        analysis_shape(cs, p, months, claim, min, max),
        0 <= m < 12,
        months[m].price <= min || months[m].price >= max,
    ensures
        !cs.satisfied(),
{
    lemma_analysis_shape_iff(cs, p, months, claim, min, max);
    lemma_analysis_range_soundness(p, months, claim, min, max, m);
}

/// Sums of equal-length sequences that differ at exactly one position
/// differ by exactly the change at that position.
proof fn lemma_sum_of_update(s1: Seq<nat>, s2: Seq<nat>, m: int)
    requires
        s1.len() == s2.len(),
        0 <= m < s1.len(),
        forall|k: int| 0 <= k < s1.len() && k != m ==> s1[k] == s2[k],
    ensures
        sum_of(s2) + s1[m] == sum_of(s1) + s2[m],
    decreases s1.len(),
{
    if s1.len() == 0 {
    } else if m == s1.len() - 1 {
        assert(s1.drop_last() =~= s2.drop_last());
    } else {
        lemma_sum_of_update(s1.drop_last(), s2.drop_last(), m);
        assert(s1.drop_last()[m] == s1[m]);
        assert(s2.drop_last()[m] == s2[m]);
        assert(s1.last() == s2.last());
    }
}

/// LAW — soundness of the sum check: changing any single record's value,
/// with the claim and the other records unchanged, changes the reduced sum,
/// so the analysis relation cannot hold for both instances.
pub proof fn lemma_analysis_sum_soundness(
    prices: Seq<nat>,
    prices2: Seq<nat>,
    claim: nat,
    m: int,
)
    requires
        prices.len() == 12,
        prices2.len() == 12,
        0 <= m < 12,
        forall|k: int| 0 <= k < 12 && k != m ==> prices[k] == prices2[k],
        prices[m] < r_modulus(),
        prices2[m] < r_modulus(),
        prices[m] != prices2[m],
        sum_of(prices) % r_modulus() == claim,
    ensures
        sum_of(prices2) % r_modulus() != claim,
{
    let r = r_modulus() as int;
    let s1 = sum_of(prices) as int;
    let s2 = sum_of(prices2) as int;
    lemma_sum_of_update(prices, prices2, m);
    crate::field::lemma_r_range();
    vstd::arithmetic::div_mod::lemma_fundamental_div_mod(s1, r);
    vstd::arithmetic::div_mod::lemma_fundamental_div_mod(s2, r);
    vstd::arithmetic::div_mod::lemma_mod_bound(s1, r);
    vstd::arithmetic::div_mod::lemma_mod_bound(s2, r);
    if s1 % r == s2 % r {
        let q1 = s1 / r;
        let q2 = s2 / r;
        assert(s2 - s1 == (q2 - q1) * r) by {
            lemma_mul_is_distributive_sub_other_way(r, q2, q1);
        }
        assert(s2 - s1 == prices2[m] - prices[m]);
        if q2 == q1 {
            assert(prices2[m] == prices[m]);
            assert(false);
        } else if q2 > q1 {
            assert(q2 - q1 >= 1);
            assert((q2 - q1) * r >= 1 * r) by {
                lemma_mul_inequality(1, q2 - q1, r);
            }
            assert(prices2[m] - prices[m] >= r);
            assert(false);
        } else {
            assert(q1 - q2 >= 1);
            assert((q1 - q2) * r >= 1 * r) by {
                lemma_mul_inequality(1, q1 - q2, r);
            }
            assert((q2 - q1) * r <= -r) by {
                lemma_mul_is_distributive_sub_other_way(r, q1, q2);
            }
            assert(prices[m] - prices2[m] >= r);
            assert(false);
        }
    }
}

/// LAW — sum soundness at the system level: perturbing one record's value
/// while keeping the claim and the other records, however the perturbed
/// instance's commitments are formed, leaves its system unsatisfied
/// whenever the original system was satisfied.
pub proof fn lemma_sum_soundness_cs(
    cs1: ConstraintSystem,
    cs2: ConstraintSystem,
    p: Seq<u8>,
    months: Seq<MonthVal>,
    months2: Seq<MonthVal>,
    claim: nat,
    min: nat,
    max: nat,
    m: int,
)
    requires
        analysis_shape(cs1, p, months, claim, min, max),
        analysis_shape(cs2, p, months2, claim, min, max),
        0 <= m < 12,
        forall|k: int| 0 <= k < 12 && k != m ==> (#[trigger] months[k]).price == months2[k].price,
        months[m].price < r_modulus(),
        months2[m].price < r_modulus(),
        months[m].price != months2[m].price,
        cs1.satisfied(),
    ensures
        !cs2.satisfied(),
{
    lemma_analysis_shape_iff(cs1, p, months, claim, min, max);
    lemma_analysis_shape_iff(cs2, p, months2, claim, min, max);
    let pr1 = prices_of(months);
    let pr2 = prices_of(months2);
    assert(forall|k: int| 0 <= k < 12 && k != m ==> pr1[k] == pr2[k]);
    assert(pr1[m] == months[m].price && pr2[m] == months2[m].price);
    lemma_analysis_sum_soundness(pr1, pr2, claim, m);
}

} // verus!
