use vstd::prelude::*;
use vstd::arithmetic::div_mod::{lemma_mod_multiples_vanish, lemma_small_mod};
use ark_ff::{BigInt, PrimeField};

verus! {

/// The order of the BN254 scalar field: every scalar stands for its
/// canonical residue below this prime.
pub open spec fn fr_modulus() -> nat {
    21888242871839275222246405745257275088548364400416034343698204186575808495617nat
}

/// Low limb of the field order.
pub const MODULUS_L0: u64 = 4891460686036598785;
/// Second limb of the field order.
pub const MODULUS_L1: u64 = 2896914383306846353;
/// Third limb of the field order.
pub const MODULUS_L2: u64 = 13281191951274694749;
/// High limb of the field order.
pub const MODULUS_L3: u64 = 3486998266802970665;

/// Sum of the two residues, reduced.
pub open spec fn fr_add(a: int, b: int) -> int {
    (a + b) % (fr_modulus() as int)
}

/// Difference of the two residues, reduced.
pub open spec fn fr_sub(a: int, b: int) -> int {
    (a + fr_modulus() - b) % (fr_modulus() as int)
}

/// Product of the two residues, reduced.
pub open spec fn fr_mul(a: int, b: int) -> int {
    (a * b) % (fr_modulus() as int)
}

/// The multiplicative inverse of a nonzero residue: the unique residue
/// whose product with `b` is one.
pub open spec fn fr_inv(b: int) -> int {
    choose|x: int| 0 <= x < fr_modulus() && #[trigger] ((x * b) % (fr_modulus() as int)) == 1
}

/// Field division: multiplication by the inverse of the divisor.
pub open spec fn fr_div(a: int, b: int) -> int {
    (a * fr_inv(b)) % (fr_modulus() as int)
}

/// `b` raised to the `e`th power in the field.
pub open spec fn fr_pow(b: int, e: nat) -> int
    decreases e,
{
    if e == 0 {
        1
    } else {
        fr_mul(b, fr_pow(b, (e - 1) as nat))
    }
}

/// A scalar field element, held as the four 64-bit little-endian limbs of
/// its canonical (fully reduced) value.
#[derive(Clone, Copy, Debug, PartialEq, Eq, Structural)]
pub struct Scalar {
    pub l0: u64,
    pub l1: u64,
    pub l2: u64,
    pub l3: u64,
}

impl Scalar {
    /// The integer this scalar stands for.
    pub open spec fn value(self) -> nat {
        (self.l0 as nat)
            + (self.l1 as nat) * 0x1_0000_0000_0000_0000nat
            + (self.l2 as nat) * 0x1_0000_0000_0000_0000_0000_0000_0000_0000nat
            + (self.l3 as nat)
                * 0x1_0000_0000_0000_0000_0000_0000_0000_0000_0000_0000_0000_0000nat
    }

    /// A scalar is well formed when it holds the canonical residue.
    pub open spec fn wf(self) -> bool {
        self.value() < fr_modulus()
    }

    /// The additive identity.
    pub fn zero() -> (r: Scalar)
        ensures
            r.wf(),
            r.value() == 0,
    {
        Scalar { l0: 0, l1: 0, l2: 0, l3: 0 }
    }

    /// The multiplicative identity.
    pub fn one() -> (r: Scalar)
        ensures
            r.wf(),
            r.value() == 1,
    {
        Scalar { l0: 1, l1: 0, l2: 0, l3: 0 }
    }

    /// The canonical residue of a small integer.
    pub fn from_u64(x: u64) -> (r: Scalar)
        ensures
            r.wf(),
            r.value() == x,
    {
        Scalar { l0: x, l1: 0, l2: 0, l3: 0 }
    }

    /// Builds a scalar from limbs, rejecting values at or above the field
    /// order.
    pub fn new_checked(l0: u64, l1: u64, l2: u64, l3: u64) -> (r: Option<Scalar>)
        ensures
            r is Some <==> (Scalar { l0, l1, l2, l3 }).wf(),
            r is Some ==> r->Some_0 == (Scalar { l0, l1, l2, l3 }),
    {
        let s = Scalar { l0, l1, l2, l3 };
        proof {
            lemma_lt_modulus(s);
        }
        if l3 < MODULUS_L3 || (l3 == MODULUS_L3 && (l2 < MODULUS_L2 || (l2 == MODULUS_L2 && (l1
            < MODULUS_L1 || (l1 == MODULUS_L1 && l0 < MODULUS_L0))))) {
            Some(s)
        } else {
            None
        }
    }

    /// True exactly when this scalar is zero.
    pub fn is_zero(&self) -> (r: bool)
        ensures
            r == (self.value() == 0),
    {
        self.l0 == 0 && self.l1 == 0 && self.l2 == 0 && self.l3 == 0
    }

    /// True exactly when this scalar is one.
    pub fn is_one(&self) -> (r: bool)
        ensures
            r == (self.value() == 1),
    {
        proof {
            lemma_value_injective(*self, Scalar { l0: 1, l1: 0, l2: 0, l3: 0 });
        }
        self.l0 == 1 && self.l1 == 0 && self.l2 == 0 && self.l3 == 0
    }

    /// Relies on ark_ff addition in the BN254 scalar field: the canonical
    /// sum of the two residues modulo the field order.
    #[verifier::external_body]
    pub fn add(&self, rhs: &Scalar) -> (r: Scalar)
        requires
            self.wf(),
            rhs.wf(),
        ensures
            r.wf(),
            r.value() == fr_add(self.value() as int, rhs.value() as int),
    {
        let a = ark_bn254::Fr::from_bigint(BigInt::new([self.l0, self.l1, self.l2, self.l3]))
            .unwrap();
        let b = ark_bn254::Fr::from_bigint(BigInt::new([rhs.l0, rhs.l1, rhs.l2, rhs.l3])).unwrap();
        let c = (a + b).into_bigint().0;
        Scalar { l0: c[0], l1: c[1], l2: c[2], l3: c[3] }
    }

    /// Relies on ark_ff subtraction in the BN254 scalar field: the canonical
    /// difference of the two residues modulo the field order.
    #[verifier::external_body]
    pub fn sub(&self, rhs: &Scalar) -> (r: Scalar)
        requires
            self.wf(),
            rhs.wf(),
        ensures
            r.wf(),
            r.value() == fr_sub(self.value() as int, rhs.value() as int),
    {
        let a = ark_bn254::Fr::from_bigint(BigInt::new([self.l0, self.l1, self.l2, self.l3]))
            .unwrap();
        let b = ark_bn254::Fr::from_bigint(BigInt::new([rhs.l0, rhs.l1, rhs.l2, rhs.l3])).unwrap();
        let c = (a - b).into_bigint().0;
        Scalar { l0: c[0], l1: c[1], l2: c[2], l3: c[3] }
    }

    /// Relies on ark_ff multiplication in the BN254 scalar field: the
    /// canonical product of the two residues modulo the field order, which
    /// is prime, so a product of nonzero residues is nonzero.
    #[verifier::external_body]
    pub fn mul(&self, rhs: &Scalar) -> (r: Scalar)
        requires
            self.wf(),
            rhs.wf(),
        ensures
            r.wf(),
            r.value() == fr_mul(self.value() as int, rhs.value() as int),
            (self.value() != 0 && rhs.value() != 0) ==> r.value() != 0,
    {
        let a = ark_bn254::Fr::from_bigint(BigInt::new([self.l0, self.l1, self.l2, self.l3]))
            .unwrap();
        let b = ark_bn254::Fr::from_bigint(BigInt::new([rhs.l0, rhs.l1, rhs.l2, rhs.l3])).unwrap();
        let c = (a * b).into_bigint().0;
        Scalar { l0: c[0], l1: c[1], l2: c[2], l3: c[3] }
    }

    /// Relies on ark_ff division in the BN254 scalar field: the product of
    /// the dividend with the inverse of the nonzero divisor.
    #[verifier::external_body]
    pub fn div(&self, rhs: &Scalar) -> (r: Scalar)
        requires
            self.wf(),
            rhs.wf(),
            rhs.value() != 0,
        ensures
            r.wf(),
            r.value() == fr_div(self.value() as int, rhs.value() as int),
    {
        let a = ark_bn254::Fr::from_bigint(BigInt::new([self.l0, self.l1, self.l2, self.l3]))
            .unwrap();
        let b = ark_bn254::Fr::from_bigint(BigInt::new([rhs.l0, rhs.l1, rhs.l2, rhs.l3])).unwrap();
        let c = (a / b).into_bigint().0;
        Scalar { l0: c[0], l1: c[1], l2: c[2], l3: c[3] }
    }
}

/// Two limb vectors stand for the same integer exactly when they agree limb
/// by limb: the little-endian base-2^64 form of an integer is unique.
pub proof fn lemma_value_injective(a: Scalar, b: Scalar)
    ensures
        (a.value() == b.value()) <==> (a.l0 == b.l0 && a.l1 == b.l1 && a.l2 == b.l2 && a.l3
            == b.l3),
{
    if a.value() == b.value() {
        let c1: int = 0x1_0000_0000_0000_0000;
        let ka: int = a.l1 + a.l2 * c1 + a.l3 * 0x1_0000_0000_0000_0000_0000_0000_0000_0000;
        let kb: int = b.l1 + b.l2 * c1 + b.l3 * 0x1_0000_0000_0000_0000_0000_0000_0000_0000;
        lemma_group_high_limbs(a.l1, a.l2, a.l3);
        lemma_group_high_limbs(b.l1, b.l2, b.l3);
        lemma_mod_multiples_vanish(ka, a.l0 as int, c1);
        lemma_mod_multiples_vanish(kb, b.l0 as int, c1);
        lemma_small_mod(a.l0 as nat, c1 as nat);
        lemma_small_mod(b.l0 as nat, c1 as nat);
        assert(a.l0 == b.l0);
        assert(ka == kb);
        let ja: int = a.l2 + a.l3 * c1;
        let jb: int = b.l2 + b.l3 * c1;
        lemma_group_two_limbs(a.l2, a.l3);
        lemma_group_two_limbs(b.l2, b.l3);
        lemma_mod_multiples_vanish(ja, a.l1 as int, c1);
        lemma_mod_multiples_vanish(jb, b.l1 as int, c1);
        lemma_small_mod(a.l1 as nat, c1 as nat);
        lemma_small_mod(b.l1 as nat, c1 as nat);
        assert(a.l1 == b.l1);
        assert(ja == jb);
        lemma_mod_multiples_vanish(a.l3 as int, a.l2 as int, c1);
        lemma_mod_multiples_vanish(b.l3 as int, b.l2 as int, c1);
        lemma_small_mod(a.l2 as nat, c1 as nat);
        lemma_small_mod(b.l2 as nat, c1 as nat);
        assert(a.l2 == b.l2);
        assert(a.l3 == b.l3);
    }
}

/// Factoring one power of 2^64 out of the three upper limbs.
proof fn lemma_group_high_limbs(x1: u64, x2: u64, x3: u64)
    ensures
        (x1 as int) * 0x1_0000_0000_0000_0000 + (x2 as int)
            * 0x1_0000_0000_0000_0000_0000_0000_0000_0000 + (x3 as int)
            * 0x1_0000_0000_0000_0000_0000_0000_0000_0000_0000_0000_0000_0000
            == 0x1_0000_0000_0000_0000 * ((x1 as int) + (x2 as int) * 0x1_0000_0000_0000_0000 + (
        x3 as int) * 0x1_0000_0000_0000_0000_0000_0000_0000_0000),
{
    assert((x1 as int) * 0x1_0000_0000_0000_0000 + (x2 as int)
        * 0x1_0000_0000_0000_0000_0000_0000_0000_0000 + (x3 as int)
        * 0x1_0000_0000_0000_0000_0000_0000_0000_0000_0000_0000_0000_0000
        == 0x1_0000_0000_0000_0000 * ((x1 as int) + (x2 as int) * 0x1_0000_0000_0000_0000 + (
    x3 as int) * 0x1_0000_0000_0000_0000_0000_0000_0000_0000)) by (nonlinear_arith);
}

/// Factoring one power of 2^64 out of the two upper limbs.
proof fn lemma_group_two_limbs(x2: u64, x3: u64)
    ensures
        (x2 as int) * 0x1_0000_0000_0000_0000 + (x3 as int)
            * 0x1_0000_0000_0000_0000_0000_0000_0000_0000 == 0x1_0000_0000_0000_0000 * ((
        x2 as int) + (x3 as int) * 0x1_0000_0000_0000_0000),
{
    assert((x2 as int) * 0x1_0000_0000_0000_0000 + (x3 as int)
        * 0x1_0000_0000_0000_0000_0000_0000_0000_0000 == 0x1_0000_0000_0000_0000 * ((x2 as int) + (
    x3 as int) * 0x1_0000_0000_0000_0000)) by (nonlinear_arith);
}

/// The reduced difference of two canonical residues is zero exactly when
/// they are equal.
pub proof fn lemma_fr_sub_zero_iff(a: nat, b: nat)
    requires
        a < fr_modulus(),
        b < fr_modulus(),
    ensures
        (fr_sub(a as int, b as int) == 0) <==> (a == b),
{
    let m = fr_modulus() as int;
    if a == b {
        assert(a + m - b == m);
        vstd::arithmetic::div_mod::lemma_mod_self_0(m);
    } else if a > b {
        vstd::arithmetic::div_mod::lemma_mod_sub_multiples_vanish(a + m - b, m);
        lemma_small_mod((a - b) as nat, fr_modulus());
        assert(fr_sub(a as int, b as int) == a - b);
    } else {
        lemma_small_mod((a + fr_modulus() - b) as nat, fr_modulus());
        assert(fr_sub(a as int, b as int) == a + m - b);
    }
}

/// A scalar is below the field order exactly when its limbs are
/// lexicographically below the order's limbs, highest limb first.
pub proof fn lemma_lt_modulus(s: Scalar)
    ensures
        s.wf() <==> (s.l3 < MODULUS_L3 || (s.l3 == MODULUS_L3 && (s.l2 < MODULUS_L2 || (s.l2
            == MODULUS_L2 && (s.l1 < MODULUS_L1 || (s.l1 == MODULUS_L1 && s.l0
            < MODULUS_L0)))))),
{
}

} // verus!
