//! Canonical scalar-field elements, held as 32 little-endian bytes.
//!
//! Every value is kept reduced below the field modulus, so a byte string
//! determines the value and the value determines the byte string.  The
//! arithmetic the circuits need (modular addition, comparison of canonical
//! representatives, equality) is implemented and proved here directly.

use vstd::prelude::*;
use vstd::arithmetic::mul::*;

verus! {

/// 256^k, the weight of the k-th little-endian byte.
pub open spec fn pow256(k: nat) -> nat
    decreases k,
{
    if k == 0 {
        1
    } else {
        256 * pow256((k - 1) as nat)
    }
}

/// The value of a byte sequence read as a little-endian integer.
pub open spec fn le_val(s: Seq<u8>) -> nat
    decreases s.len(),
{
    if s.len() == 0 {
        0
    } else {
        (s[0] as nat) + 256 * le_val(s.drop_first())
    }
}

/// The little-endian bytes of the scalar-field modulus.
pub open spec fn modulus_byte_seq() -> Seq<u8> {
    seq![
        0x01u8, 0x00, 0x00, 0x00, 0xff, 0xff, 0xff, 0xff,
        0xfe, 0x5b, 0xfe, 0xff, 0x02, 0xa4, 0xbd, 0x53,
        0x05, 0xd8, 0xa1, 0x09, 0x08, 0xd8, 0x39, 0x33,
        0x48, 0x7d, 0x9d, 0x29, 0x53, 0xa7, 0xed, 0x73,
    ]
}

/// The scalar-field modulus; all record arithmetic is carried out modulo
/// this prime.
pub open spec fn r_modulus() -> nat {
    le_val(modulus_byte_seq())
}

pub proof fn lemma_pow256_pos(k: nat)
    ensures
        pow256(k) >= 1,
    decreases k,
{
    if k > 0 {
        lemma_pow256_pos((k - 1) as nat);
    }
}

/// Appending a byte on the most-significant end adds its weighted value.
pub proof fn lemma_le_val_push(s: Seq<u8>, b: u8)
    ensures
        le_val(s.push(b)) == le_val(s) + (b as nat) * pow256(s.len()),
    decreases s.len(),
{
    if s.len() == 0 {
        assert(s.push(b).drop_first() =~= Seq::<u8>::empty());
        assert(le_val(Seq::<u8>::empty()) == 0);
        assert(s.push(b)[0] == b);
        assert(le_val(s.push(b)) == b as nat);
        assert(pow256(0) == 1);
        assert((b as nat) * 1 == b as nat) by {
            lemma_mul_basics(b as int);
        }
    } else {
        let d = s.drop_first();
        let p = pow256((s.len() - 1) as nat) as int;
        assert(s.push(b).drop_first() =~= d.push(b));
        lemma_le_val_push(d, b);
        assert(le_val(s.push(b)) == (s[0] as nat) + 256 * (le_val(d) + (b as nat) * p));
        assert(256 * (le_val(d) + (b as nat) * p) == 256 * le_val(d) + 256 * ((b as nat) * p)) by {
            lemma_mul_is_distributive_add(256, le_val(d) as int, (b as nat) * p);
        }
        assert(256 * ((b as nat) * p) == (b as nat) * (256 * p)) by {
            lemma_mul_is_associative(256, b as int, p);
            lemma_mul_is_commutative(256, b as int);
            lemma_mul_is_associative(b as int, 256, p);
        }
    }
}

/// A length-n byte string holds a value below 256^n.
pub proof fn lemma_le_val_bound(s: Seq<u8>)
    ensures
        le_val(s) < pow256(s.len()),
    decreases s.len(),
{
    if s.len() == 0 {
    } else {
        lemma_le_val_bound(s.drop_first());
        assert(le_val(s.drop_first()) + 1 <= pow256((s.len() - 1) as nat));
        lemma_mul_inequality(
            (le_val(s.drop_first()) + 1) as int,
            pow256((s.len() - 1) as nat) as int,
            256,
        );
        lemma_mul_is_distributive_add(256, le_val(s.drop_first()) as int, 1);
    }
}

/// Splitting a byte string splits its value at the matching weight.
pub proof fn lemma_le_val_split(s: Seq<u8>, k: nat)
    requires
        k <= s.len(),
    ensures
        le_val(s) == le_val(s.take(k as int)) + pow256(k) * le_val(s.skip(k as int)),
    decreases k,
{
    if k == 0 {
        assert(s.take(0) =~= Seq::<u8>::empty());
        assert(s.skip(0) =~= s);
        assert(le_val(Seq::<u8>::empty()) == 0);
        assert(pow256(0) == 1);
    } else {
        assert(s.len() >= 1);
        let d = s.drop_first();
        lemma_le_val_split(d, (k - 1) as nat);
        assert(s.take(k as int).drop_first() =~= d.take(k - 1));
        assert(s.take(k as int).len() == k);
        assert(le_val(s.take(k as int)) == (s[0] as nat) + 256 * le_val(d.take(k - 1)));
        assert(d.skip(k - 1) =~= s.skip(k as int));
        assert(le_val(s) == (s[0] as nat) + 256 * (le_val(d.take(k - 1)) + pow256((k - 1) as nat)
            * le_val(d.skip(k - 1))));
        lemma_mul_is_distributive_add(256, le_val(d.take(k - 1)) as int, (pow256((k - 1) as nat)
            * le_val(d.skip(k - 1))) as int);
        lemma_mul_is_associative(256, pow256((k - 1) as nat) as int, le_val(d.skip(k - 1)) as int);
        assert(256 * (pow256((k - 1) as nat) * le_val(d.skip(k - 1))) == pow256(k) * le_val(s.skip(
            k as int)));
    }
}

/// The modulus is large enough to hold any 64-bit value, and small enough
/// that the sum of two reduced values fits in 32 bytes.
pub proof fn lemma_r_range()
    ensures
        r_modulus() > 0xffff_ffff_ffff_ffff,
        r_modulus() + r_modulus() < pow256(32),
{
    let rb = modulus_byte_seq();
    assert(pow256(8) == 0x1_0000_0000_0000_0000) by {
        reveal_with_fuel(pow256, 9);
    }
    lemma_le_val_split(rb, 8);
    assert(rb.skip(8)[0] == 0xfe);
    assert(le_val(rb.skip(8)) >= 0xfe);
    assert(pow256(8) * le_val(rb.skip(8)) >= pow256(8) * 0xfe) by {
        lemma_mul_inequality(0xfe, le_val(rb.skip(8)) as int, pow256(8) as int);
        lemma_mul_is_commutative(pow256(8) as int, le_val(rb.skip(8)) as int);
        lemma_mul_is_commutative(pow256(8) as int, 0xfe);
    }
    assert(r_modulus() >= pow256(8) * 0xfe);

    lemma_le_val_split(rb, 31);
    assert(rb.skip(31) =~= seq![0x73u8]);
    assert(le_val(rb.skip(31)) == 0x73) by {
        assert(seq![0x73u8].drop_first() =~= Seq::<u8>::empty());
        assert(le_val(Seq::<u8>::empty()) == 0);
    }
    lemma_le_val_bound(rb.take(31));
    assert(rb.take(31).len() == 31);
    assert(r_modulus() < pow256(31) + pow256(31) * 0x73);
    assert(pow256(31) + pow256(31) * 0x73 == pow256(31) * 0x74) by {
        lemma_mul_is_distributive_add(pow256(31) as int, 0x73, 1);
        lemma_mul_basics(pow256(31) as int);
    }
    assert(r_modulus() + r_modulus() < pow256(31) * 0xe8) by {
        lemma_mul_is_distributive_add(pow256(31) as int, 0x74, 0x74);
    }
    assert(pow256(31) * 0xe8 < pow256(31) * 256) by {
        lemma_pow256_pos(31);
        lemma_mul_strict_inequality(0xe8, 256, pow256(31) as int);
        lemma_mul_is_commutative(pow256(31) as int, 0xe8);
        lemma_mul_is_commutative(pow256(31) as int, 256);
    }
    assert(pow256(32) == 256 * pow256(31));
    lemma_mul_is_commutative(pow256(31) as int, 256);
}

/// If two equal-length byte strings agree above position i and differ at i,
/// the one with the smaller byte at i has the smaller value.
pub proof fn lemma_le_val_lex(a: Seq<u8>, b: Seq<u8>, i: int)
    requires
        a.len() == b.len(),
        0 <= i < a.len(),
        a[i] < b[i],
        forall|k: int| i < k < a.len() ==> a[k] == b[k],
    ensures
        le_val(a) < le_val(b),
{
    lemma_le_val_split(a, i as nat);
    lemma_le_val_split(b, i as nat);
    let sa = le_val(a.skip(i));
    let sb = le_val(b.skip(i));
    assert(a.skip(i).drop_first() =~= b.skip(i).drop_first());
    assert(a.skip(i)[0] == a[i]);
    assert(b.skip(i)[0] == b[i]);
    assert(sa + 1 <= sb);
    lemma_le_val_bound(a.take(i));
    assert(a.take(i).len() == i);
    assert(le_val(a) < pow256(i as nat) + pow256(i as nat) * sa);
    assert(pow256(i as nat) + pow256(i as nat) * sa == pow256(i as nat) * (sa + 1)) by {
        lemma_mul_is_distributive_add(pow256(i as nat) as int, sa as int, 1);
        lemma_mul_basics(pow256(i as nat) as int);
    }
    assert(pow256(i as nat) * (sa + 1) <= pow256(i as nat) * sb) by {
        lemma_pow256_pos(i as nat);
        lemma_mul_inequality((sa + 1) as int, sb as int, pow256(i as nat) as int);
        lemma_mul_is_commutative(pow256(i as nat) as int, (sa + 1) as int);
        lemma_mul_is_commutative(pow256(i as nat) as int, sb as int);
    }
    assert(le_val(b) >= pow256(i as nat) * sb);
}

/// Value of a prefix extended by one byte.
pub proof fn lemma_le_val_take_succ(s: Seq<u8>, i: nat)
    requires
        i < s.len(),
    ensures
        le_val(s.take(i + 1 as int)) == le_val(s.take(i as int)) + (s[i as int] as nat) * pow256(i),
{
    assert(s.take(i + 1 as int) =~= s.take(i as int).push(s[i as int]));
    lemma_le_val_push(s.take(i as int), s[i as int]);
}

/// A well-formed element's value lies below the modulus.
pub proof fn lemma_fe_wf_bound(f: Fe)
    requires
        f.wf(),
    ensures
        f@ < r_modulus(),
{
}

/// The modulus as executable bytes.
pub fn modulus_bytes() -> (v: Vec<u8>)
    ensures
        v@ == modulus_byte_seq(),
{
    let v: Vec<u8> = vec![
        0x01u8, 0x00, 0x00, 0x00, 0xff, 0xff, 0xff, 0xff,
        0xfe, 0x5b, 0xfe, 0xff, 0x02, 0xa4, 0xbd, 0x53,
        0x05, 0xd8, 0xa1, 0x09, 0x08, 0xd8, 0x39, 0x33,
        0x48, 0x7d, 0x9d, 0x29, 0x53, 0xa7, 0xed, 0x73,
    ];
    proof {
        assert(v@ =~= modulus_byte_seq());
    }
    v
}

/// Compare two equal-length byte strings as little-endian integers.
fn bytes_lt(a: &Vec<u8>, b: &Vec<u8>) -> (r: bool)
    requires
        a@.len() == b@.len(),
    ensures
        r == (le_val(a@) < le_val(b@)),
{
    let n: usize = a.len();
    let mut j: usize = 0;
    while j < n
        invariant
            j <= n,
            n == a@.len(),
            n == b@.len(),
            forall|k: int| n - j <= k < n ==> a@[k] == b@[k],
        decreases n - j,
    {
        let i: usize = n - 1 - j;
        if a[i] < b[i] {
            proof {
                lemma_le_val_lex(a@, b@, i as int);
            }
            return true;
        }
        if a[i] > b[i] {
            proof {
                lemma_le_val_lex(b@, a@, i as int);
            }
            return false;
        }
        j = j + 1;
    }
    proof {
        assert(a@ =~= b@);
    }
    false
}

/// A scalar-field element in canonical form: 32 little-endian bytes whose
/// value lies below the modulus.
pub struct Fe {
    pub(crate) bytes: Vec<u8>,
}

impl View for Fe {
    type V = nat;

    /// A field element is viewed as its canonical integer value.
    closed spec fn view(&self) -> nat {
        le_val(self.bytes@)
    }
}

impl Fe {
    /// Canonical form: exactly 32 bytes, value reduced below the modulus.
    pub closed spec fn wf(&self) -> bool {
        self.bytes@.len() == 32 && le_val(self.bytes@) < r_modulus()
    }

    /// The canonical little-endian bytes of this element.
    pub closed spec fn spec_bytes(&self) -> Seq<u8> {
        self.bytes@
    }

    /// Embed a 64-bit integer into the field.
    pub fn from_u64(x: u64) -> (r: Fe)
        ensures
            r.wf(),
            r@ == x as nat,
    {
        let mut b: Vec<u8> = Vec::new();
        let mut v: u64 = x;
        let mut i: usize = 0;
        proof {
            assert(le_val(Seq::<u8>::empty()) == 0);
            assert(pow256(0) == 1);
            assert(1 * (x as nat) == x as nat) by {
                lemma_mul_basics(x as int);
            }
        }
        while i < 8
            invariant
                i <= 8,
                b@.len() == i,
                le_val(b@) + pow256(i as nat) * (v as nat) == x as nat,
            decreases 8 - i,
        {
            let d: u8 = (v % 256) as u8;
            let v2: u64 = v / 256;
            proof {
                let ghost bo = b@;
                vstd::arithmetic::div_mod::lemma_fundamental_div_mod(v as int, 256);
                lemma_le_val_push(b@, d);
                assert(pow256((i + 1) as nat) == 256 * pow256(i as nat));
                assert(le_val(bo.push(d)) + pow256((i + 1) as nat) * (v2 as nat) == x as nat)
                    by (nonlinear_arith)
                    requires
                        le_val(bo) + pow256(i as nat) * (v as nat) == x as nat,
                        le_val(bo.push(d)) == le_val(bo) + (d as nat) * pow256(i as nat),
                        pow256((i + 1) as nat) == 256 * pow256(i as nat),
                        d == v % 256,
                        v2 == v / 256,
                        v == (v % 256) + 256 * (v / 256),
                {}
            }
            b.push(d);
            v = v2;
            i = i + 1;
        }
        proof {
            lemma_r_range();
            assert(pow256(8) == 0x1_0000_0000_0000_0000) by {
                reveal_with_fuel(pow256, 9);
            }
            if v >= 1 {
                lemma_mul_inequality(1, v as int, pow256(8) as int);
                lemma_mul_is_commutative(pow256(8) as int, v as int);
                lemma_mul_basics(pow256(8) as int);
                assert(false);
            }
            assert(le_val(b@) == x as nat);
        }
        while i < 32
            invariant
                8 <= i <= 32,
                b@.len() == i,
                le_val(b@) == x as nat,
            decreases 32 - i,
        {
            proof {
                lemma_le_val_push(b@, 0);
            }
            b.push(0u8);
            i = i + 1;
        }
        proof {
            lemma_r_range();
        }
        Fe { bytes: b }
    }

    /// Interpret 32 little-endian bytes as a field element; rejects byte
    /// strings of the wrong length and values at or above the modulus.
    pub fn from_le_bytes(v: Vec<u8>) -> (r: Option<Fe>)
        ensures
            r.is_some() <==> (v@.len() == 32 && le_val(v@) < r_modulus()),
            r.is_some() ==> r.unwrap().wf() && r.unwrap()@ == le_val(v@),
    {
        if v.len() != 32 {
            return None;
        }
        let m = modulus_bytes();
        if bytes_lt(&v, &m) {
            Some(Fe { bytes: v })
        } else {
            None
        }
    }

    /// The canonical little-endian byte encoding.
    pub fn to_le_bytes(&self) -> (v: Vec<u8>)
        ensures
            v@ == self.spec_bytes(),
            le_val(v@) == self@,
    {
        let mut v: Vec<u8> = Vec::new();
        let mut i: usize = 0;
        while i < self.bytes.len()
            invariant
                i <= self.bytes@.len(),
                v@ == self.bytes@.take(i as int),
            decreases self.bytes@.len() - i,
        {
            v.push(self.bytes[i]);
            proof {
                assert(v@ =~= self.bytes@.take(i + 1 as int));
            }
            i = i + 1;
        }
        proof {
            assert(v@ =~= self.bytes@);
        }
        v
    }

    /// An identical copy.
    pub fn duplicate(&self) -> (r: Fe)
        ensures
            r@ == self@,
            r.spec_bytes() == self.spec_bytes(),
            r.wf() == self.wf(),
    {
        let v = self.to_le_bytes();
        Fe { bytes: v }
    }

    /// Strict comparison of canonical representatives.
    pub fn lt(&self, other: &Fe) -> (r: bool)
        requires
            self.wf(),
            other.wf(),
        ensures
            r == (self@ < other@),
    {
        bytes_lt(&self.bytes, &other.bytes)
    }

    /// Value equality.
    pub fn eq_val(&self, other: &Fe) -> (r: bool)
        requires
            self.wf(),
            other.wf(),
        ensures
            r == (self@ == other@),
    {
        !self.lt(other) && !other.lt(self)
    }

    /// Modular addition.
    pub fn add(&self, other: &Fe) -> (r: Fe)
        requires
            self.wf(),
            other.wf(),
        ensures
            r.wf(),
            r@ == (self@ + other@) % r_modulus(),
    {
        let a = &self.bytes;
        let b = &other.bytes;
        let mut t: Vec<u8> = Vec::new();
        let mut carry: u16 = 0;
        let mut i: usize = 0;
        while i < 32
            invariant
                i <= 32,
                a@.len() == 32,
                b@.len() == 32,
                t@.len() == i,
                carry <= 1,
                le_val(t@) + pow256(i as nat) * (carry as nat) == le_val(a@.take(i as int))
                    + le_val(b@.take(i as int)),
            decreases 32 - i,
        {
            let s: u16 = a[i] as u16 + b[i] as u16 + carry;
            let d: u8 = if s >= 256 {
                (s - 256) as u8
            } else {
                s as u8
            };
            let c2: u16 = if s >= 256 {
                1
            } else {
                0
            };
            proof {
                let ghost to = t@;
                lemma_le_val_push(t@, d);
                lemma_le_val_take_succ(a@, i as nat);
                lemma_le_val_take_succ(b@, i as nat);
                assert(pow256((i + 1) as nat) == 256 * pow256(i as nat));
                assert(le_val(to.push(d)) + pow256((i + 1) as nat) * (c2 as nat) == le_val(
                    a@.take(i + 1 as int)) + le_val(b@.take(i + 1 as int))) by (nonlinear_arith)
                    requires
                        le_val(to) + pow256(i as nat) * (carry as nat) == le_val(a@.take(i as int))
                            + le_val(b@.take(i as int)),
                        le_val(to.push(d)) == le_val(to) + (d as nat) * pow256(i as nat),
                        le_val(a@.take(i + 1 as int)) == le_val(a@.take(i as int)) + (a@[i as int]
                            as nat) * pow256(i as nat),
                        le_val(b@.take(i + 1 as int)) == le_val(b@.take(i as int)) + (b@[i as int]
                            as nat) * pow256(i as nat),
                        pow256((i + 1) as nat) == 256 * pow256(i as nat),
                        (d as nat) + 256 * (c2 as nat) == (a@[i as int] as nat) + (b@[i as int]
                            as nat) + (carry as nat),
                {}
            }
            t.push(d);
            carry = c2;
            i = i + 1;
        }
        proof {
            assert(a@.take(32) =~= a@);
            assert(b@.take(32) =~= b@);
            lemma_r_range();
            if carry >= 1 {
                lemma_le_val_bound(a@);
                lemma_mul_inequality(1, carry as int, pow256(32) as int);
                lemma_mul_is_commutative(pow256(32) as int, carry as int);
                lemma_mul_basics(pow256(32) as int);
                assert(false);
            }
            assert(le_val(t@) == le_val(a@) + le_val(b@));
        }
        let m = modulus_bytes();
        if bytes_lt(&t, &m) {
            proof {
                vstd::arithmetic::div_mod::lemma_small_mod(
                    (le_val(a@) + le_val(b@)) as nat,
                    r_modulus(),
                );
            }
            Fe { bytes: t }
        } else {
            let r = sub_bytes(&t, &m);
            proof {
                vstd::arithmetic::div_mod::lemma_fundamental_div_mod_converse(
                    (le_val(a@) + le_val(b@)) as int,
                    r_modulus() as int,
                    1,
                    (le_val(a@) + le_val(b@) - r_modulus()) as int,
                );
            }
            r
        }
    }
}

/// Byte-wise subtraction of little-endian strings; the minuend must not be
/// smaller than the subtrahend.
fn sub_bytes(t: &Vec<u8>, m: &Vec<u8>) -> (r: Fe)
    requires
        t@.len() == 32,
        m@.len() == 32,
        le_val(t@) >= le_val(m@),
    ensures
        r.bytes@.len() == 32,
        le_val(r.bytes@) == le_val(t@) - le_val(m@),
        r@ == le_val(t@) - le_val(m@),
{
    let mut out: Vec<u8> = Vec::new();
    let mut borrow: u16 = 0;
    let mut i: usize = 0;
    while i < 32
        invariant
            i <= 32,
            t@.len() == 32,
            m@.len() == 32,
            out@.len() == i,
            borrow <= 1,
            le_val(out@) == le_val(t@.take(i as int)) + pow256(i as nat) * (borrow as nat)
                - le_val(m@.take(i as int)),
        decreases 32 - i,
    {
        let x: u16 = t[i] as u16 + 256;
        let y: u16 = m[i] as u16 + borrow;
        let diff: u16 = x - y;
        let d: u8 = if diff >= 256 {
            (diff - 256) as u8
        } else {
            diff as u8
        };
        let b2: u16 = if diff >= 256 {
            0
        } else {
            1
        };
        proof {
            let ghost oo = out@;
            lemma_le_val_push(out@, d);
            lemma_le_val_take_succ(t@, i as nat);
            lemma_le_val_take_succ(m@, i as nat);
            assert(pow256((i + 1) as nat) == 256 * pow256(i as nat));
            assert((d as int) - 256 * (b2 as int) == (t@[i as int] as int) - (m@[i as int] as int)
                - (borrow as int));
            assert(le_val(oo.push(d)) == le_val(t@.take(i + 1 as int)) + pow256((i + 1) as nat) * (
            b2 as nat) - le_val(m@.take(i + 1 as int))) by (nonlinear_arith)
                requires
                    le_val(oo) == le_val(t@.take(i as int)) + pow256(i as nat) * (borrow as nat)
                        - le_val(m@.take(i as int)),
                    le_val(oo.push(d)) == le_val(oo) + (d as nat) * pow256(i as nat),
                    le_val(t@.take(i + 1 as int)) == le_val(t@.take(i as int)) + (t@[i as int]
                        as nat) * pow256(i as nat),
                    le_val(m@.take(i + 1 as int)) == le_val(m@.take(i as int)) + (m@[i as int]
                        as nat) * pow256(i as nat),
                    pow256((i + 1) as nat) == 256 * pow256(i as nat),
                    (d as int) - 256 * (b2 as int) == (t@[i as int] as int) - (m@[i as int] as int)
                        - (borrow as int),
            {}
        }
        out.push(d);
        borrow = b2;
        i = i + 1;
    }
    proof {
        assert(t@.take(32) =~= t@);
        assert(m@.take(32) =~= m@);
        if borrow >= 1 {
            lemma_le_val_bound(out@);
            lemma_mul_inequality(1, borrow as int, pow256(32) as int);
            lemma_mul_is_commutative(pow256(32) as int, borrow as int);
            lemma_mul_basics(pow256(32) as int);
            assert(le_val(out@) == le_val(t@) + pow256(32) - le_val(m@));
            assert(false);
        }
    }
    Fe { bytes: out }
}

} // verus!
