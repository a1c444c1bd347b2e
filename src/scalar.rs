//! Elements of the scalar field Fr of BLS12-381.
use crate::bytes::{
    be_value, lemma_be_concat, lemma_pow256_eight, pow256, push_u64_be, read_u64_be,
};
use ff::{Field, PrimeField};
use pairing::bls12_381::{Fr, FrRepr};
use rand::rngs::StdRng;
use vstd::prelude::*;

verus! {

/// Length in bytes of the encoding of a scalar.
pub const SCALAR_LENGTH: usize = 32;

/// The order r of the curve groups, that is the characteristic of Fr.
pub open spec fn fr_modulus() -> nat {
    52435875175126190479447740508185965837690552500527637822603658699938581184513nat
}

/// 2^64, the base of the limbs.
pub open spec fn limb_base() -> nat {
    18446744073709551616nat
}

/// The number that four little-endian 64-bit limbs stand for.
pub open spec fn limbs_value(l0: u64, l1: u64, l2: u64, l3: u64) -> nat {
    l0 as nat + limb_base() * (l1 as nat + limb_base() * (l2 as nat + limb_base() * (l3 as nat)))
}

/// Subtraction in Fr, on reduced representatives.
pub open spec fn fr_sub_spec(a: nat, b: nat) -> nat {
    ((a + fr_modulus()) - b) as nat % fr_modulus()
}

/// The multiplicative inverse of `a` modulo r (r is prime, so it is unique
/// where `a` is not zero).
pub open spec fn fr_inv(a: nat) -> nat {
    choose|x: nat| x < fr_modulus() && #[trigger] ((x * a) % fr_modulus()) == 1
}

/// A scalar, held as the canonical little-endian limbs of its value.
#[derive(Clone, Copy, Debug, PartialEq, Eq, Structural)]
pub struct Scalar {
    pub l0: u64,
    pub l1: u64,
    pub l2: u64,
    pub l3: u64,
}

impl View for Scalar {
    type V = nat;

    open spec fn view(&self) -> nat {
        limbs_value(self.l0, self.l1, self.l2, self.l3)
    }
}

proof fn lemma_limbs_injective(a: Scalar, b: Scalar)
    requires
        a@ == b@,
    ensures
        a == b,
{
    let base = limb_base() as int;
    let ta = a.l1 as nat + limb_base() * (a.l2 as nat + limb_base() * (a.l3 as nat));
    let tb = b.l1 as nat + limb_base() * (b.l2 as nat + limb_base() * (b.l3 as nat));
    vstd::arithmetic::div_mod::lemma_fundamental_div_mod_converse(a@ as int, base, ta as int, a.l0 as int);
    vstd::arithmetic::div_mod::lemma_fundamental_div_mod_converse(b@ as int, base, tb as int, b.l0 as int);
    let ua = a.l2 as nat + limb_base() * (a.l3 as nat);
    let ub = b.l2 as nat + limb_base() * (b.l3 as nat);
    vstd::arithmetic::div_mod::lemma_fundamental_div_mod_converse(ta as int, base, ua as int, a.l1 as int);
    vstd::arithmetic::div_mod::lemma_fundamental_div_mod_converse(tb as int, base, ub as int, b.l1 as int);
    vstd::arithmetic::div_mod::lemma_fundamental_div_mod_converse(ua as int, base, a.l3 as int, a.l2 as int);
    vstd::arithmetic::div_mod::lemma_fundamental_div_mod_converse(ub as int, base, b.l3 as int, b.l2 as int);
}

/// Two well-formed scalars are equal exactly when their values are.
pub proof fn lemma_scalar_eq(a: Scalar, b: Scalar)
    ensures
        (a == b) == (a@ == b@),
{
    if a@ == b@ {
        lemma_limbs_injective(a, b);
    }
}

#[verifier::rlimit(40)]
pub proof fn lemma_be_32(s: Seq<u8>)
    requires
        s.len() >= 32,
    ensures
        be_value(s.subrange(0, 32)) == limbs_value(
            be_value(s.subrange(24, 32)) as u64,
            be_value(s.subrange(16, 24)) as u64,
            be_value(s.subrange(8, 16)) as u64,
            be_value(s.subrange(0, 8)) as u64,
        ),
        be_value(s.subrange(24, 32)) < limb_base(),
        be_value(s.subrange(16, 24)) < limb_base(),
        be_value(s.subrange(8, 16)) < limb_base(),
        be_value(s.subrange(0, 8)) < limb_base(),
{
    let c0 = s.subrange(0, 8);
    let c1 = s.subrange(8, 16);
    let c2 = s.subrange(16, 24);
    let c3 = s.subrange(24, 32);
    lemma_be_bound(c0);
    lemma_be_bound(c1);
    lemma_be_bound(c2);
    lemma_be_bound(c3);
    lemma_pow256_eight();
    assert(s.subrange(0, 16) =~= c0 + c1);
    assert(s.subrange(0, 24) =~= s.subrange(0, 16) + c2);
    assert(s.subrange(0, 32) =~= s.subrange(0, 24) + c3);
    lemma_be_concat(c0, c1);
    lemma_be_concat(s.subrange(0, 16), c2);
    lemma_be_concat(s.subrange(0, 24), c3);
    let v0 = be_value(c0);
    let v1 = be_value(c1);
    let v2 = be_value(c2);
    let v3 = be_value(c3);
    let bb = limb_base();
    assert(((v0 * bb + v1) * bb + v2) * bb + v3 == v3 + bb * (v2 + bb * (v1 + bb * v0)))
        by (nonlinear_arith);
}

/// An eight-byte string stands for a number below 2^64.
proof fn lemma_be_bound(c: Seq<u8>)
    requires
        c.len() == 8,
    ensures
        be_value(c) < limb_base(),
{
    lemma_be_bound_len(c);
    lemma_pow256_eight();
}

proof fn lemma_be_bound_len(c: Seq<u8>)
    ensures
        be_value(c) < pow256(c.len()),
    decreases c.len(),
{
    if c.len() > 0 {
        lemma_be_bound_len(c.drop_last());
        assert(pow256(c.len()) == 256 * pow256(c.drop_last().len()));
    }
}

impl Scalar {
    /// A well-formed scalar is reduced modulo r.
    pub open spec fn wf(&self) -> bool {
        self@ < fr_modulus()
    }

    pub fn zero() -> (r: Scalar)
        ensures
            r.wf(),
            r@ == 0,
    {
        Scalar { l0: 0, l1: 0, l2: 0, l3: 0 }
    }

    pub fn one() -> (r: Scalar)
        ensures
            r.wf(),
            r@ == 1,
    {
        Scalar { l0: 1, l1: 0, l2: 0, l3: 0 }
    }

    /// The scalar whose value is `v`.
    pub fn from_u64(v: u64) -> (r: Scalar)
        ensures
            r.wf(),
            r@ == v as nat,
    {
        Scalar { l0: v, l1: 0, l2: 0, l3: 0 }
    }

    /// A uniformly drawn scalar.
    pub fn generate(csprng: &mut StdRng) -> (r: Scalar)
        ensures
            r.wf(),
    {
        fr_random(csprng)
    }

    /// Whether the value is below r.
    pub fn is_canonical(&self) -> (r: bool)
        ensures
            r == self.wf(),
    {
        fr_from_limbs(self.l0, self.l1, self.l2, self.l3).is_some()
    }

    pub fn is_zero(&self) -> (r: bool)
        ensures
            r == (self@ == 0),
    {
        self.l0 == 0 && self.l1 == 0 && self.l2 == 0 && self.l3 == 0
    }

    /// The 32-byte big-endian encoding of the value.
    #[verifier::rlimit(40)]
    pub fn to_bytes(&self) -> (r: Vec<u8>)
        ensures
            r@.len() == SCALAR_LENGTH,
            be_value(r@) == self@,
    {
        let mut out: Vec<u8> = Vec::new();
        assert(be_value(out@) == 0);
        push_u64_be(&mut out, self.l3);
        push_u64_be(&mut out, self.l2);
        push_u64_be(&mut out, self.l1);
        push_u64_be(&mut out, self.l0);
        proof {
            let bb = limb_base();
            let (l0, l1, l2, l3) = (self.l0 as nat, self.l1 as nat, self.l2 as nat, self.l3 as nat);
            assert(((l3 * bb + l2) * bb + l1) * bb + l0 == l0 + bb * (l1 + bb * (l2 + bb * l3)))
                by (nonlinear_arith);
        }
        out
    }

    /// Reads a scalar from the first 32 bytes of `b`, big-endian; fails where
    /// there are fewer bytes or the value is not below r.
    pub fn from_bytes(b: &[u8]) -> (r: Option<Scalar>)
        ensures
            r.is_some() == (b@.len() >= SCALAR_LENGTH && be_value(b@.subrange(0, 32))
                < fr_modulus()),
            r matches Some(s) ==> s.wf() && s@ == be_value(b@.subrange(0, 32)),
    {
        if b.len() < SCALAR_LENGTH {
            return None;
        }
        let l3 = read_u64_be(b, 0);
        let l2 = read_u64_be(b, 8);
        let l1 = read_u64_be(b, 16);
        let l0 = read_u64_be(b, 24);
        proof {
            lemma_be_32(b@);
        }
        fr_from_limbs(l0, l1, l2, l3)
    }
}

/// Comparing `x_0 + B·X` with `y_0 + B·Y` for digits `x_0, y_0 < B`: the
/// higher part decides, and the digit where the higher parts agree.
proof fn lemma_lex(x0: nat, xh: nat, y0: nat, yh: nat)
    requires
        x0 < limb_base(),
        y0 < limb_base(),
    ensures
        (x0 + limb_base() * xh < y0 + limb_base() * yh) == (xh < yh || (xh == yh && x0 < y0)),
{
    let bb = limb_base();
    if xh < yh {
        assert(x0 + bb * xh < y0 + bb * yh) by (nonlinear_arith)
            requires x0 < bb, xh < yh;
    } else if xh > yh {
        assert(x0 + bb * xh >= y0 + bb * yh) by (nonlinear_arith)
            requires y0 < bb, xh > yh;
    }
}

/// The scalar with limbs `l0..l3`, where their value is below r.
fn fr_from_limbs(l0: u64, l1: u64, l2: u64, l3: u64) -> (r: Option<Scalar>)
    ensures
        r.is_some() == (limbs_value(l0, l1, l2, l3) < fr_modulus()),
        r matches Some(s) ==> s == (Scalar { l0, l1, l2, l3 }),
{
    let (m0, m1, m2, m3) = (
        0xffffffff00000001u64,
        0x53bda402fffe5bfeu64,
        0x3339d80809a1d805u64,
        0x73eda753299d7d48u64,
    );
    let below = l3 < m3 || (l3 == m3 && (l2 < m2 || (l2 == m2 && (l1 < m1 || (l1 == m1
        && l0 < m0)))));
    proof {
        let bb = limb_base();
        assert(fr_modulus() == limbs_value(m0, m1, m2, m3));
        lemma_lex(l2 as nat, l3 as nat, m2 as nat, m3 as nat);
        let (x2, y2) = (l2 as nat + bb * (l3 as nat), m2 as nat + bb * (m3 as nat));
        lemma_lex(l1 as nat, x2, m1 as nat, y2);
        lemma_digits_equal(l2 as nat, l3 as nat, m2 as nat, m3 as nat);
        let (x1, y1) = (l1 as nat + bb * x2, m1 as nat + bb * y2);
        lemma_lex(l0 as nat, x1, m0 as nat, y1);
        lemma_digits_equal(l1 as nat, x2, m1 as nat, y2);
    }
    if below {
        Some(Scalar { l0, l1, l2, l3 })
    } else {
        None
    }
}

/// `a_0 + B·A` and `b_0 + B·C` (digits below B) are equal exactly when
/// their digits and higher parts are.
proof fn lemma_digits_equal(a0: nat, ah: nat, b0: nat, bh: nat)
    requires
        a0 < limb_base(),
        b0 < limb_base(),
    ensures
        (a0 + limb_base() * ah == b0 + limb_base() * bh) == (a0 == b0 && ah == bh),
{
    lemma_lex(a0, ah, b0, bh);
    lemma_lex(b0, bh, a0, ah);
}

/// Relies on ff's `Field::add_assign` for Fr: addition modulo r.
#[verifier::external_body]
pub(crate) fn fr_add(a: &Scalar, b: &Scalar) -> (r: Scalar)
    requires
        a.wf(),
        b.wf(),
    ensures
        r.wf(),
        r@ == (a@ + b@) % fr_modulus(),
{
    let mut x = Fr::from_repr(FrRepr([a.l0, a.l1, a.l2, a.l3])).unwrap();
    x.add_assign(&Fr::from_repr(FrRepr([b.l0, b.l1, b.l2, b.l3])).unwrap());
    let l = x.into_repr().0;
    Scalar { l0: l[0], l1: l[1], l2: l[2], l3: l[3] }
}

/// Relies on ff's `Field::sub_assign` for Fr: subtraction modulo r.
#[verifier::external_body]
pub(crate) fn fr_sub(a: &Scalar, b: &Scalar) -> (r: Scalar)
    requires
        a.wf(),
        b.wf(),
    ensures
        r.wf(),
        r@ == fr_sub_spec(a@, b@),
{
    let mut x = Fr::from_repr(FrRepr([a.l0, a.l1, a.l2, a.l3])).unwrap();
    x.sub_assign(&Fr::from_repr(FrRepr([b.l0, b.l1, b.l2, b.l3])).unwrap());
    let l = x.into_repr().0;
    Scalar { l0: l[0], l1: l[1], l2: l[2], l3: l[3] }
}

/// Relies on ff's `Field::mul_assign` for Fr: multiplication modulo r.
#[verifier::external_body]
pub(crate) fn fr_mul(a: &Scalar, b: &Scalar) -> (r: Scalar)
    requires
        a.wf(),
        b.wf(),
    ensures
        r.wf(),
        r@ == (a@ * b@) % fr_modulus(),
{
    let mut x = Fr::from_repr(FrRepr([a.l0, a.l1, a.l2, a.l3])).unwrap();
    x.mul_assign(&Fr::from_repr(FrRepr([b.l0, b.l1, b.l2, b.l3])).unwrap());
    let l = x.into_repr().0;
    Scalar { l0: l[0], l1: l[1], l2: l[2], l3: l[3] }
}

/// Relies on ff's `Field::inverse` for Fr: the multiplicative inverse, none
/// for zero. Fr is a field, so the inverse is the only scalar with that property.
#[verifier::external_body]
pub(crate) fn fr_inverse(a: &Scalar) -> (r: Option<Scalar>)
    requires
        a.wf(),
    ensures
        r.is_none() == (a@ == 0),
        r matches Some(x) ==> x.wf() && (x@ * a@) % fr_modulus() == 1 && x@ == fr_inv(a@),
{
    let x = Fr::from_repr(FrRepr([a.l0, a.l1, a.l2, a.l3])).unwrap().inverse()?;
    let l = x.into_repr().0;
    Some(Scalar { l0: l[0], l1: l[1], l2: l[2], l3: l[3] })
}

/// Relies on ff's `Field::random` for Fr: a uniformly drawn element.
#[verifier::external_body]
pub(crate) fn fr_random(rng: &mut StdRng) -> (r: Scalar)
    ensures
        r.wf(),
{
    let l = Fr::random(rng).into_repr().0;
    Scalar { l0: l[0], l1: l[1], l2: l[2], l3: l[3] }
}

} // verus!
