//! A fixed-depth binary Merkle tree over leaf digests.
//!
//! Leaves are hashed once on entry, interior nodes combine their two children
//! with the two-to-one hash, and only the root is exposed.  Leaf order is
//! part of the tree's identity.  Building fails exactly when the leaf count
//! is zero or not a power of two.

use crate::field::Fe;
use crate::hash::{combine, combine_of, hash_leaf, leaf_of, params_data, HashParams};
use vstd::prelude::*;

verus! {

/// Whether n is a power of two (zero is not).
pub open spec fn is_pow2(n: nat) -> bool
    decreases n,
{
    if n == 0 {
        false
    } else if n == 1 {
        true
    } else {
        n % 2 == 0 && is_pow2(n / 2)
    }
}

/// The values of a sequence of digests.
pub open spec fn fe_vals(s: Seq<Fe>) -> Seq<nat> {
    Seq::new(s.len(), |i: int| s[i]@)
}

/// Each leaf's digest after the per-leaf hash at the bottom of the tree.
pub open spec fn hashed_leaves(leaf_pd: Seq<u8>, ls: Seq<nat>) -> Seq<nat> {
    Seq::new(ls.len(), |i: int| leaf_of(leaf_pd, ls[i]))
}

/// One interior level: adjacent pairs combined by the two-to-one hash.
pub open spec fn level_up(two_pd: Seq<u8>, ls: Seq<nat>) -> Seq<nat> {
    Seq::new((ls.len() / 2) as int as nat, |i: int| combine_of(two_pd, ls[2 * i], ls[2 * i + 1]))
}

/// The root of a complete tree over one level of digests.
pub open spec fn fold_root(two_pd: Seq<u8>, ls: Seq<nat>) -> nat
    decreases ls.len(),
{
    if ls.len() <= 1 {
        if ls.len() == 1 {
            ls[0]
        } else {
            0
        }
    } else {
        fold_root(two_pd, level_up(two_pd, ls))
    }
}

/// The Merkle root of an ordered leaf sequence: hash each leaf, then fold
/// the levels with the two-to-one hash.
pub open spec fn merkle_root(leaf_pd: Seq<u8>, two_pd: Seq<u8>, ls: Seq<nat>) -> nat {
    fold_root(two_pd, hashed_leaves(leaf_pd, ls))
}

/// A collision of the per-leaf hash: two different leaves with one digest.
pub open spec fn leaf_hash_collision(lp: Seq<u8>) -> bool {
    exists|x: nat, y: nat|
        #![trigger leaf_of(lp, x), leaf_of(lp, y)]
        x != y && leaf_of(lp, x) == leaf_of(lp, y)
}

/// A collision of the two-to-one hash: two different child pairs with one
/// digest.
pub open spec fn combine_collision(tp: Seq<u8>) -> bool {
    exists|x1: nat, y1: nat, x2: nat, y2: nat|
        #![trigger combine_of(tp, x1, y1), combine_of(tp, x2, y2)]
        !(x1 == x2 && y1 == y2) && combine_of(tp, x1, y1) == combine_of(tp, x2, y2)
}

/// Folding two different levels of the same power-of-two length to the same
/// digest exhibits a two-to-one collision.
proof fn lemma_fold_root_collision(tp: Seq<u8>, a: Seq<nat>, b: Seq<nat>)
    requires
        a.len() == b.len(),
        a.len() >= 1,
        is_pow2(a.len()),
        a != b,
        fold_root(tp, a) == fold_root(tp, b),
    ensures
        combine_collision(tp),
    decreases a.len(),
{
    if a.len() == 1 {
        if a[0] == b[0] {
            assert(a =~= b);
        }
        assert(false);
    } else {
        let la = level_up(tp, a);
        let lb = level_up(tp, b);
        assert(a.len() % 2 == 0 && is_pow2(a.len() / 2));
        assert(la.len() == a.len() / 2);
        assert(lb.len() == a.len() / 2);
        if la != lb {
            lemma_fold_root_collision(tp, la, lb);
        } else {
            if forall|i: int| 0 <= i < a.len() ==> a[i] == b[i] {
                assert(a =~= b);
                assert(false);
            }
            let i = choose|i: int| 0 <= i < a.len() && a[i] != b[i];
            let j = i / 2;
            vstd::arithmetic::div_mod::lemma_fundamental_div_mod(i, 2);
            assert(0 <= j < la.len());
            assert(la[j] == combine_of(tp, a[2 * j], a[2 * j + 1]));
            assert(lb[j] == combine_of(tp, b[2 * j], b[2 * j + 1]));
            assert(la[j] == lb[j]);
            assert(2 * j == i || 2 * j + 1 == i);
            assert(!(a[2 * j] == b[2 * j] && a[2 * j + 1] == b[2 * j + 1]));
            assert(combine_of(tp, a[2 * j], a[2 * j + 1]) == combine_of(
                tp,
                b[2 * j],
                b[2 * j + 1],
            ));
            assert(combine_collision(tp));
        }
    }
}

/// LAW — root sensitivity: two different leaf sequences of the same
/// power-of-two length can share a Merkle root only through an explicit hash
/// collision, of the per-leaf hash or of the two-to-one hash.  For a
/// collision-resistant hash this is why reordering or mutating any leaf
/// changes the root.
pub proof fn lemma_root_sensitivity(lp: Seq<u8>, tp: Seq<u8>, l1: Seq<nat>, l2: Seq<nat>)
    requires
        l1.len() == l2.len(),
        l1.len() >= 1,
        is_pow2(l1.len()),
        l1 != l2,
        merkle_root(lp, tp, l1) == merkle_root(lp, tp, l2),
    ensures
        leaf_hash_collision(lp) || combine_collision(tp),
{
    let h1 = hashed_leaves(lp, l1);
    let h2 = hashed_leaves(lp, l2);
    if h1 != h2 {
        lemma_fold_root_collision(tp, h1, h2);
    } else {
        if forall|i: int| 0 <= i < l1.len() ==> l1[i] == l2[i] {
            assert(l1 =~= l2);
            assert(false);
        }
        let i = choose|i: int| 0 <= i < l1.len() && l1[i] != l2[i];
        assert(h1[i] == leaf_of(lp, l1[i]));
        assert(h2[i] == leaf_of(lp, l2[i]));
        assert(leaf_hash_collision(lp));
    }
}

/// Why a tree could not be built.
#[derive(Clone, Copy, PartialEq, Eq, Structural, Debug)]
pub enum MerkleError {
    /// The leaf count was zero or not a power of two.
    BadLeafCount,
}

/// A built tree: it remembers only its root, plus ghost records of the
/// leaves and parameters it was built from.
pub struct SimpleMerkleTree {
    root: Fe,
    leaf_vals: Ghost<Seq<nat>>,
    param_data: Ghost<(Seq<u8>, Seq<u8>)>,
}

impl SimpleMerkleTree {
    /// The values of the leaves this tree was built from.
    pub closed spec fn leaves(&self) -> Seq<nat> {
        self.leaf_vals@
    }

    /// The contents of the leaf-hash parameters used at build time.
    pub closed spec fn leaf_params_data(&self) -> Seq<u8> {
        self.param_data@.0
    }

    /// The contents of the two-to-one parameters used at build time.
    pub closed spec fn two_to_one_params_data(&self) -> Seq<u8> {
        self.param_data@.1
    }

    /// The root's value.
    pub closed spec fn root_val(&self) -> nat {
        self.root@
    }

    /// A tree is well formed when its root is canonical and equals the
    /// Merkle root of its recorded leaves under its recorded parameters.
    pub closed spec fn wf(&self) -> bool {
        &&& self.root.wf()
        &&& self.leaf_vals@.len() >= 1
        &&& is_pow2(self.leaf_vals@.len())
        &&& self.root@ == merkle_root(self.param_data@.0, self.param_data@.1, self.leaf_vals@)
    }

    /// Build a tree from an ordered leaf sequence.
    pub fn new(
        leaf_crh_params: &HashParams,
        two_to_one_crh_params: &HashParams,
        leaves: Vec<Fe>,
    ) -> (r: Result<SimpleMerkleTree, MerkleError>)
        requires
            forall|i: int| 0 <= i < leaves@.len() ==> (#[trigger] leaves@[i]).wf(),
        ensures
            r.is_ok() <==> (leaves@.len() >= 1 && is_pow2(leaves@.len())),
            r.is_ok() ==> {
                let t = r.unwrap();
                &&& t.wf()
                &&& t.leaves() == fe_vals(leaves@)
                &&& t.leaf_params_data() == params_data(*leaf_crh_params)
                &&& t.two_to_one_params_data() == params_data(*two_to_one_crh_params)
                &&& t.root_val() == merkle_root(
                    params_data(*leaf_crh_params),
                    params_data(*two_to_one_crh_params),
                    fe_vals(leaves@),
                )
            },
    {
        let n: usize = leaves.len();
        if n == 0 || !check_pow2(n) {
            return Err(MerkleError::BadLeafCount);
        }
        let ghost lpd = params_data(*leaf_crh_params);
        let ghost tpd = params_data(*two_to_one_crh_params);
        let ghost leaf_values = fe_vals(leaves@);

        // Bottom level: hash each leaf once.
        let mut cur: Vec<Fe> = Vec::new();
        let mut i: usize = 0;
        while i < n
            invariant
                i <= n,
                n == leaves@.len(),
                forall|k: int| 0 <= k < leaves@.len() ==> (#[trigger] leaves@[k]).wf(),
                cur@.len() == i,
                leaf_values == fe_vals(leaves@),
                lpd == params_data(*leaf_crh_params),
                forall|k: int| 0 <= k < i ==> (#[trigger] cur@[k]).wf(),
                fe_vals(cur@) == hashed_leaves(lpd, leaf_values).take(i as int),
            decreases n - i,
        {
            let ghost pre = cur@;
            let h = hash_leaf(leaf_crh_params, &leaves[i]);
            cur.push(h);
            proof {
                let target = hashed_leaves(lpd, leaf_values).take(i + 1);
                assert forall|k: int| 0 <= k < i + 1 implies fe_vals(cur@)[k] == target[k] by {
                    assert(target[k] == leaf_of(lpd, leaf_values[k]));
                    if k < i {
                        assert(cur@[k] == pre[k]);
                        assert(fe_vals(pre)[k] == pre[k]@);
                        assert(fe_vals(pre)[k] == hashed_leaves(lpd, leaf_values).take(i as int)[k]);
                    } else {
                        assert(cur@[k] == h);
                        assert(leaf_values[k] == fe_vals(leaves@)[k]);
                    }
                }
                assert(fe_vals(cur@) =~= target);
            }
            i = i + 1;
        }
        proof {
            assert(fe_vals(cur@) =~= hashed_leaves(lpd, leaf_values));
        }

        // Fold levels until one digest is left.
        while cur.len() > 1
            invariant
                cur@.len() >= 1,
                is_pow2(cur@.len() as nat),
                tpd == params_data(*two_to_one_crh_params),
                forall|k: int| 0 <= k < cur@.len() ==> (#[trigger] cur@[k]).wf(),
                fold_root(tpd, fe_vals(cur@)) == fold_root(tpd, hashed_leaves(lpd, leaf_values)),
            decreases cur@.len(),
        {
            let ghost prev = fe_vals(cur@);
            let len: usize = cur.len();
            let half: usize = cur.len() / 2;
            proof {
                assert(cur@.len() % 2 == 0 && cur@.len() / 2 >= 1);
                assert(cur@.len() == 2 * (cur@.len() / 2));
            }
            let mut next: Vec<Fe> = Vec::new();
            let mut j: usize = 0;
            while j < half
                invariant
                    j <= half,
                    half == cur@.len() / 2,
                    len == cur@.len(),
                    cur@.len() >= 2,
                    tpd == params_data(*two_to_one_crh_params),
                    cur@.len() % 2 == 0,
                    cur@.len() == 2 * half,
                    forall|k: int| 0 <= k < cur@.len() ==> (#[trigger] cur@[k]).wf(),
                    prev == fe_vals(cur@),
                    next@.len() == j,
                    forall|k: int| 0 <= k < j ==> (#[trigger] next@[k]).wf(),
                    fe_vals(next@) == level_up(tpd, prev).take(j as int),
                decreases half - j,
            {
                proof {
                    assert(2 * j + 1 < cur@.len());
                }
                let ghost pre = next@;
                let c = combine(two_to_one_crh_params, &cur[2 * j], &cur[2 * j + 1]);
                next.push(c);
                proof {
                    let target = level_up(tpd, prev).take(j + 1);
                    assert forall|k: int| 0 <= k < j + 1 implies fe_vals(next@)[k] == target[k] by {
                        assert(target[k] == combine_of(tpd, prev[2 * k], prev[2 * k + 1]));
                        if k < j {
                            assert(next@[k] == pre[k]);
                            assert(fe_vals(pre)[k] == pre[k]@);
                            assert(fe_vals(pre)[k] == level_up(tpd, prev).take(j as int)[k]);
                        } else {
                            assert(next@[k] == c);
                            assert(prev[2 * k] == fe_vals(cur@)[2 * k]);
                            assert(prev[2 * k + 1] == fe_vals(cur@)[2 * k + 1]);
                        }
                    }
                    assert(fe_vals(next@) =~= target);
                }
                j = j + 1;
            }
            proof {
                assert(fe_vals(next@) =~= level_up(tpd, prev));
                assert(fold_root(tpd, prev) == fold_root(tpd, level_up(tpd, prev)));
            }
            cur = next;
        }
        let root = match cur.pop() {
            Some(f) => f,
            None => {
                proof {
                    assert(false);
                }
                Fe::from_u64(0)
            },
        };
        proof {
            assert(fe_vals(cur@.push(root)) =~= seq![root@]);
            assert(fold_root(tpd, seq![root@]) == root@);
            assert(root@ == merkle_root(lpd, tpd, leaf_values));
        }
        Ok(
            SimpleMerkleTree {
                root,
                leaf_vals: Ghost(leaf_values),
                param_data: Ghost((lpd, tpd)),
            },
        )
    }

    /// The tree's public summary.
    pub fn root(&self) -> (r: Fe)
        requires
            self.wf(),
        ensures
            r.wf(),
            r@ == self.root_val(),
            r@ == merkle_root(
                self.leaf_params_data(),
                self.two_to_one_params_data(),
                self.leaves(),
            ),
    {
        self.root.duplicate()
    }
}

/// Whether n is a power of two, computed by halving.
fn check_pow2(n: usize) -> (r: bool)
    ensures
        r == is_pow2(n as nat),
{
    if n == 0 {
        return false;
    }
    let mut m: usize = n;
    while m % 2 == 0
        invariant
            m >= 1,
            is_pow2(n as nat) == is_pow2(m as nat),
        decreases m,
    {
        m = m / 2;
    }
    m == 1
}

} // verus!
