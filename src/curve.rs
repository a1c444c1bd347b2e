//! The groups G1 and G2 of BLS12-381, with points held in their canonical
//! compressed encoding.
use crate::scalar::{fr_modulus, fr_sub_spec, Scalar};
use ff::PrimeField;
use group::{CurveAffine, CurveProjective, EncodedPoint};
use pairing::bls12_381::{FrRepr, G1Compressed, G2Compressed, G1, G2};
use rand::rngs::StdRng;
use vstd::prelude::*;

verus! {

/// Length in bytes of the compressed encoding of a G1 point.
pub const G1_LENGTH: usize = 48;

/// Length in bytes of the compressed encoding of a G2 point.
pub const G2_LENGTH: usize = 96;

/// Whether a compressed G1 encoding decodes to a point of the prime-order subgroup.
pub uninterp spec fn g1_decodes(b: Seq<u8>) -> bool;

/// The encoding of the point `k·p`, for a G1 point encoded as `p`.
pub uninterp spec fn g1_mul(p: Seq<u8>, k: nat) -> Seq<u8>;

/// The encoding of the sum of the G1 points encoded as `p` and `q`.
pub uninterp spec fn g1_add(p: Seq<u8>, q: Seq<u8>) -> Seq<u8>;

/// The encoding of the difference of the G1 points encoded as `p` and `q`.
pub uninterp spec fn g1_sub(p: Seq<u8>, q: Seq<u8>) -> Seq<u8>;

/// Whether a compressed G2 encoding decodes to a point of the prime-order subgroup.
pub uninterp spec fn g2_decodes(b: Seq<u8>) -> bool;

/// The encoding of the point `k·p`, for a G2 point encoded as `p`.
pub uninterp spec fn g2_mul(p: Seq<u8>, k: nat) -> Seq<u8>;

/// The encoding of the sum of the G2 points encoded as `p` and `q`.
pub uninterp spec fn g2_add(p: Seq<u8>, q: Seq<u8>) -> Seq<u8>;

/// The encoding of the difference of the G2 points encoded as `p` and `q`.
pub uninterp spec fn g2_sub(p: Seq<u8>, q: Seq<u8>) -> Seq<u8>;

/// The compressed encoding of the identity of G1: the compression and
/// infinity flags, then zeros.
pub open spec fn g1_identity_enc() -> Seq<u8> {
    seq![0xc0u8] + Seq::new(47, |i: int| 0u8)
}

/// The compressed encoding of the identity of G2.
pub open spec fn g2_identity_enc() -> Seq<u8> {
    seq![0xc0u8] + Seq::new(95, |i: int| 0u8)
}

/// A point is well formed when its encoding decodes.
pub open spec fn on_curve<T: Curve>(p: T) -> bool {
    T::decodes_spec(p.enc())
}

/// A group of prime order r whose points have a canonical byte encoding.
///
/// The group operations are stated over the encodings: `mul_spec(p, k)` is
/// the encoding of `k·P` where `p` encodes `P`, and `add_spec` that of a sum.
/// Both carry the laws of a cyclic group: multiples of one base combine by
/// their exponents modulo r.
pub trait Curve: Sized + Copy {
    /// The canonical encoding of the point.
    spec fn enc(&self) -> Seq<u8>;

    /// Whether an encoding stands for a point of the group.
    spec fn decodes_spec(b: Seq<u8>) -> bool;

    spec fn mul_spec(p: Seq<u8>, k: nat) -> Seq<u8>;

    spec fn add_spec(p: Seq<u8>, q: Seq<u8>) -> Seq<u8>;

    spec fn sub_spec(p: Seq<u8>, q: Seq<u8>) -> Seq<u8>;

    /// Length of an encoding.
    spec fn length_spec() -> nat;

    proof fn lemma_enc_len(&self)
        ensures
            self.enc().len() == Self::length_spec(),
    ;

    /// A point is determined by its encoding.
    proof fn lemma_enc_injective(a: Self, b: Self)
        requires
            a.enc() == b.enc(),
        ensures
            a == b,
    ;

    fn group_element_length() -> (r: usize)
        ensures
            r == Self::length_spec(),
            r <= 1024,
    ;

    fn mul_by_scalar(&self, k: &Scalar) -> (r: Self)
        requires
            Self::decodes_spec(self.enc()),
            k.wf(),
        ensures
            Self::decodes_spec(r.enc()),
            r.enc() == Self::mul_spec(self.enc(), k@),
            forall|b: Seq<u8>, x: nat|
                #![trigger Self::mul_spec(b, x)]
                Self::decodes_spec(b) && Self::mul_spec(b, x) == self.enc() ==> r.enc()
                    == Self::mul_spec(b, (x * k@) % fr_modulus()),
    ;

    fn plus_point(&self, o: &Self) -> (r: Self)
        requires
            Self::decodes_spec(self.enc()),
            Self::decodes_spec(o.enc()),
        ensures
            Self::decodes_spec(r.enc()),
            r.enc() == Self::add_spec(self.enc(), o.enc()),
            r.enc() == Self::add_spec(o.enc(), self.enc()),
            forall|b: Seq<u8>, x: nat, y: nat|
                #![trigger Self::mul_spec(b, x), Self::mul_spec(b, y)]
                Self::decodes_spec(b) && Self::mul_spec(b, x) == self.enc()
                    && Self::mul_spec(b, y) == o.enc() ==> r.enc() == Self::mul_spec(
                    b,
                    (x + y) % fr_modulus(),
                ),
    ;

    fn minus_point(&self, o: &Self) -> (r: Self)
        requires
            Self::decodes_spec(self.enc()),
            Self::decodes_spec(o.enc()),
        ensures
            Self::decodes_spec(r.enc()),
            r.enc() == Self::sub_spec(self.enc(), o.enc()),
            forall|b: Seq<u8>, x: nat, y: nat|
                #![trigger Self::mul_spec(b, x), Self::mul_spec(b, y)]
                Self::decodes_spec(b) && Self::mul_spec(b, x) == self.enc()
                    && Self::mul_spec(b, y) == o.enc() ==> r.enc() == Self::mul_spec(
                    b,
                    fr_sub_spec(x % fr_modulus(), y % fr_modulus()),
                ),
    ;

    /// The encoding, as bytes.
    fn curve_to_bytes(&self) -> (r: Vec<u8>)
        ensures
            r@ == self.enc(),
    ;

    /// Reads a point from the first bytes of `b`; fails where there are too
    /// few bytes or they do not encode a point of the group.
    fn bytes_to_curve(b: &[u8]) -> (r: Option<Self>)
        ensures
            r.is_some() == (b@.len() >= Self::length_spec() && Self::decodes_spec(
                b@.subrange(0, Self::length_spec() as int),
            )),
            r matches Some(p) ==> p.enc() == b@.subrange(0, Self::length_spec() as int),
    ;

    /// Whether the encoding decodes to a point of the group.
    fn is_valid(&self) -> (r: bool)
        ensures
            r == Self::decodes_spec(self.enc()),
    ;

    /// A random point.
    fn generate(rng: &mut StdRng) -> (r: Self)
        ensures
            Self::decodes_spec(r.enc()),
    ;

    /// Whether two points have the same encoding.
    fn equals(&self, o: &Self) -> (r: bool)
        ensures
            r == (self.enc() == o.enc()),
    ;
}

/// A point of G1.
#[derive(Clone, Copy, Debug, PartialEq, Eq)]
pub struct G1Point {
    pub bytes: [u8; 48],
}

/// A point of G2.
#[derive(Clone, Copy, Debug, PartialEq, Eq)]
pub struct G2Point {
    pub bytes: [u8; 96],
}

/// Relies on group's `EncodedPoint::into_affine` for `G1Compressed`: the checked
/// decoding, which accepts only points of the prime-order subgroup.
#[verifier::external_body]
fn g1_check(p: &[u8; 48]) -> (r: bool)
    ensures
        r == g1_decodes(p@),
{
    let mut c = G1Compressed::empty();
    c.as_mut().copy_from_slice(p);
    c.into_affine().is_ok()
}

/// Relies on group's `CurveProjective::mul_assign` for G1: scalar
/// multiplication in a group of order r. The argument is known to decode, so
/// `EncodedPoint::into_affine_unchecked` reads it without a second subgroup check.
#[verifier::external_body]
fn g1_mul_raw(p: &[u8; 48], k: &Scalar) -> (r: [u8; 48])
    requires
        g1_decodes(p@),
        k.wf(),
    ensures
        g1_decodes(r@),
        r@ == g1_mul(p@, k@),
        forall|b: Seq<u8>, x: nat|
            #![trigger g1_mul(b, x)]
            g1_decodes(b) && g1_mul(b, x) == p@ ==> r@ == g1_mul(
                b,
                (x * k@) % fr_modulus(),
            ),
{
    let mut c = G1Compressed::empty();
    c.as_mut().copy_from_slice(p);
    let mut q = c.into_affine_unchecked().unwrap().into_projective();
    q.mul_assign(FrRepr([k.l0, k.l1, k.l2, k.l3]));
    let mut out = [0u8; 48];
    out.copy_from_slice(q.into_affine().into_compressed().as_ref());
    out
}

/// Relies on group's `CurveProjective::add_assign` for G1: the group law. The
/// arguments are known to decode, so `EncodedPoint::into_affine_unchecked`
/// reads them without a second subgroup check.
#[verifier::external_body]
fn g1_add_raw(p: &[u8; 48], q: &[u8; 48]) -> (r: [u8; 48])
    requires
        g1_decodes(p@),
        g1_decodes(q@),
    ensures
        g1_decodes(r@),
        r@ == g1_add(p@, q@),
        r@ == g1_add(q@, p@),
        forall|b: Seq<u8>, x: nat, y: nat|
            #![trigger g1_mul(b, x), g1_mul(b, y)]
            g1_decodes(b) && g1_mul(b, x) == p@ && g1_mul(b, y) == q@ ==> r@
                == g1_mul(b, (x + y) % fr_modulus()),
{
    let (mut c, mut d) = (G1Compressed::empty(), G1Compressed::empty());
    c.as_mut().copy_from_slice(p);
    d.as_mut().copy_from_slice(q);
    let mut s = c.into_affine_unchecked().unwrap().into_projective();
    s.add_assign(&d.into_affine_unchecked().unwrap().into_projective());
    let mut out = [0u8; 48];
    out.copy_from_slice(s.into_affine().into_compressed().as_ref());
    out
}

/// Relies on group's `CurveProjective::sub_assign` for G1: the difference in
/// the group. The arguments are known to decode, so
/// `EncodedPoint::into_affine_unchecked` reads them without a second subgroup check.
#[verifier::external_body]
fn g1_sub_raw(p: &[u8; 48], q: &[u8; 48]) -> (r: [u8; 48])
    requires
        g1_decodes(p@),
        g1_decodes(q@),
    ensures
        g1_decodes(r@),
        r@ == g1_sub(p@, q@),
        forall|b: Seq<u8>, x: nat, y: nat|
            #![trigger g1_mul(b, x), g1_mul(b, y)]
            g1_decodes(b) && g1_mul(b, x) == p@ && g1_mul(b, y) == q@ ==> r@ == g1_mul(
                b,
                fr_sub_spec(x % fr_modulus(), y % fr_modulus()),
            ),
{
    let (mut c, mut d) = (G1Compressed::empty(), G1Compressed::empty());
    c.as_mut().copy_from_slice(p);
    d.as_mut().copy_from_slice(q);
    let mut s = c.into_affine_unchecked().unwrap().into_projective();
    s.sub_assign(&d.into_affine_unchecked().unwrap().into_projective());
    let mut out = [0u8; 48];
    out.copy_from_slice(s.into_affine().into_compressed().as_ref());
    out
}

/// Relies on group's `CurveProjective::random` for G1: a random point of the group.
#[verifier::external_body]
fn g1_random(rng: &mut StdRng) -> (r: [u8; 48])
    ensures
        g1_decodes(r@),
{
    let mut out = [0u8; 48];
    out.copy_from_slice(G1::random(rng).into_affine().into_compressed().as_ref());
    out
}

/// Relies on group's `EncodedPoint::into_affine` for `G2Compressed`: the checked
/// decoding, which accepts only points of the prime-order subgroup.
#[verifier::external_body]
fn g2_check(p: &[u8; 96]) -> (r: bool)
    ensures
        r == g2_decodes(p@),
{
    let mut c = G2Compressed::empty();
    c.as_mut().copy_from_slice(p);
    c.into_affine().is_ok()
}

/// Relies on group's `CurveProjective::mul_assign` for G2: scalar
/// multiplication in a group of order r. The argument is known to decode, so
/// `EncodedPoint::into_affine_unchecked` reads it without a second subgroup check.
#[verifier::external_body]
fn g2_mul_raw(p: &[u8; 96], k: &Scalar) -> (r: [u8; 96])
    requires
        g2_decodes(p@),
        k.wf(),
    ensures
        g2_decodes(r@),
        r@ == g2_mul(p@, k@),
        forall|b: Seq<u8>, x: nat|
            #![trigger g2_mul(b, x)]
            g2_decodes(b) && g2_mul(b, x) == p@ ==> r@ == g2_mul(
                b,
                (x * k@) % fr_modulus(),
            ),
{
    let mut c = G2Compressed::empty();
    c.as_mut().copy_from_slice(p);
    let mut q = c.into_affine_unchecked().unwrap().into_projective();
    q.mul_assign(FrRepr([k.l0, k.l1, k.l2, k.l3]));
    let mut out = [0u8; 96];
    out.copy_from_slice(q.into_affine().into_compressed().as_ref());
    out
}

/// Relies on group's `CurveProjective::add_assign` for G2: the group law. The
/// arguments are known to decode, so `EncodedPoint::into_affine_unchecked`
/// reads them without a second subgroup check.
#[verifier::external_body]
fn g2_add_raw(p: &[u8; 96], q: &[u8; 96]) -> (r: [u8; 96])
    requires
        g2_decodes(p@),
        g2_decodes(q@),
    ensures
        g2_decodes(r@),
        r@ == g2_add(p@, q@),
        r@ == g2_add(q@, p@),
        forall|b: Seq<u8>, x: nat, y: nat|
            #![trigger g2_mul(b, x), g2_mul(b, y)]
            g2_decodes(b) && g2_mul(b, x) == p@ && g2_mul(b, y) == q@ ==> r@
                == g2_mul(b, (x + y) % fr_modulus()),
{
    let (mut c, mut d) = (G2Compressed::empty(), G2Compressed::empty());
    c.as_mut().copy_from_slice(p);
    d.as_mut().copy_from_slice(q);
    let mut s = c.into_affine_unchecked().unwrap().into_projective();
    s.add_assign(&d.into_affine_unchecked().unwrap().into_projective());
    let mut out = [0u8; 96];
    out.copy_from_slice(s.into_affine().into_compressed().as_ref());
    out
}

/// Relies on group's `CurveProjective::sub_assign` for G2: the difference in
/// the group. The arguments are known to decode, so
/// `EncodedPoint::into_affine_unchecked` reads them without a second subgroup check.
#[verifier::external_body]
fn g2_sub_raw(p: &[u8; 96], q: &[u8; 96]) -> (r: [u8; 96])
    requires
        g2_decodes(p@),
        g2_decodes(q@),
    ensures
        g2_decodes(r@),
        r@ == g2_sub(p@, q@),
        forall|b: Seq<u8>, x: nat, y: nat|
            #![trigger g2_mul(b, x), g2_mul(b, y)]
            g2_decodes(b) && g2_mul(b, x) == p@ && g2_mul(b, y) == q@ ==> r@ == g2_mul(
                b,
                fr_sub_spec(x % fr_modulus(), y % fr_modulus()),
            ),
{
    let (mut c, mut d) = (G2Compressed::empty(), G2Compressed::empty());
    c.as_mut().copy_from_slice(p);
    d.as_mut().copy_from_slice(q);
    let mut s = c.into_affine_unchecked().unwrap().into_projective();
    s.sub_assign(&d.into_affine_unchecked().unwrap().into_projective());
    let mut out = [0u8; 96];
    out.copy_from_slice(s.into_affine().into_compressed().as_ref());
    out
}

/// Relies on group's `CurveProjective::random` for G2: a random point of the group.
#[verifier::external_body]
fn g2_random(rng: &mut StdRng) -> (r: [u8; 96])
    ensures
        g2_decodes(r@),
{
    let mut out = [0u8; 96];
    out.copy_from_slice(G2::random(rng).into_affine().into_compressed().as_ref());
    out
}

impl Curve for G1Point {
    open spec fn enc(&self) -> Seq<u8> {
        self.bytes@
    }

    open spec fn decodes_spec(b: Seq<u8>) -> bool {
        g1_decodes(b)
    }

    open spec fn mul_spec(p: Seq<u8>, k: nat) -> Seq<u8> {
        g1_mul(p, k)
    }

    open spec fn add_spec(p: Seq<u8>, q: Seq<u8>) -> Seq<u8> {
        g1_add(p, q)
    }

    open spec fn sub_spec(p: Seq<u8>, q: Seq<u8>) -> Seq<u8> {
        g1_sub(p, q)
    }

    open spec fn length_spec() -> nat {
        48
    }

    proof fn lemma_enc_len(&self) {
    }

    proof fn lemma_enc_injective(a: Self, b: Self) {
        assert(forall|i: int| 0 <= i < a.bytes@.len() ==> a.bytes[i] == a.bytes@[i]);
        assert(forall|i: int| 0 <= i < b.bytes@.len() ==> b.bytes[i] == b.bytes@[i]);
        assert(a.bytes =~= b.bytes);
    }

    fn group_element_length() -> (r: usize) {
        G1_LENGTH
    }

    fn mul_by_scalar(&self, k: &Scalar) -> (r: Self) {
        G1Point { bytes: g1_mul_raw(&self.bytes, k) }
    }

    fn plus_point(&self, o: &Self) -> (r: Self) {
        G1Point { bytes: g1_add_raw(&self.bytes, &o.bytes) }
    }

    fn minus_point(&self, o: &Self) -> (r: Self) {
        G1Point { bytes: g1_sub_raw(&self.bytes, &o.bytes) }
    }

    fn curve_to_bytes(&self) -> (r: Vec<u8>) {
        let mut out: Vec<u8> = Vec::new();
        let mut i: usize = 0;
        while i < G1_LENGTH
            invariant
                i <= G1_LENGTH,
                out@ == self.bytes@.subrange(0, i as int),
            decreases G1_LENGTH - i,
        {
            out.push(self.bytes[i]);
            i = i + 1;
            assert(out@ =~= self.bytes@.subrange(0, i as int));
        }
        assert(out@ =~= self.bytes@);
        out
    }

    fn bytes_to_curve(b: &[u8]) -> (r: Option<Self>) {
        if b.len() < G1_LENGTH {
            return None;
        }
        let mut a = [0u8; 48];
        let mut i: usize = 0;
        while i < G1_LENGTH
            invariant
                i <= G1_LENGTH,
                b@.len() >= G1_LENGTH,
                forall|k: int| 0 <= k < i ==> a@[k] == b@[k],
            decreases G1_LENGTH - i,
        {
            a[i] = b[i];
            i = i + 1;
        }
        assert(a@ =~= b@.subrange(0, 48));
        if g1_check(&a) {
            Some(G1Point { bytes: a })
        } else {
            None
        }
    }

    fn is_valid(&self) -> (r: bool) {
        g1_check(&self.bytes)
    }

    fn generate(rng: &mut StdRng) -> (r: Self) {
        G1Point { bytes: g1_random(rng) }
    }

    fn equals(&self, o: &Self) -> (r: bool) {
        crate::bytes::bytes_eq(vstd::array::array_as_slice(&self.bytes), vstd::array::array_as_slice(&o.bytes))
    }
}

impl Curve for G2Point {
    open spec fn enc(&self) -> Seq<u8> {
        self.bytes@
    }

    open spec fn decodes_spec(b: Seq<u8>) -> bool {
        g2_decodes(b)
    }

    open spec fn mul_spec(p: Seq<u8>, k: nat) -> Seq<u8> {
        g2_mul(p, k)
    }

    open spec fn add_spec(p: Seq<u8>, q: Seq<u8>) -> Seq<u8> {
        g2_add(p, q)
    }

    open spec fn sub_spec(p: Seq<u8>, q: Seq<u8>) -> Seq<u8> {
        g2_sub(p, q)
    }

    open spec fn length_spec() -> nat {
        96
    }

    proof fn lemma_enc_len(&self) {
    }

    proof fn lemma_enc_injective(a: Self, b: Self) {
        assert(forall|i: int| 0 <= i < a.bytes@.len() ==> a.bytes[i] == a.bytes@[i]);
        assert(forall|i: int| 0 <= i < b.bytes@.len() ==> b.bytes[i] == b.bytes@[i]);
        assert(a.bytes =~= b.bytes);
    }

    fn group_element_length() -> (r: usize) {
        G2_LENGTH
    }

    fn mul_by_scalar(&self, k: &Scalar) -> (r: Self) {
        G2Point { bytes: g2_mul_raw(&self.bytes, k) }
    }

    fn plus_point(&self, o: &Self) -> (r: Self) {
        G2Point { bytes: g2_add_raw(&self.bytes, &o.bytes) }
    }

    fn minus_point(&self, o: &Self) -> (r: Self) {
        G2Point { bytes: g2_sub_raw(&self.bytes, &o.bytes) }
    }

    fn curve_to_bytes(&self) -> (r: Vec<u8>) {
        let mut out: Vec<u8> = Vec::new();
        let mut i: usize = 0;
        while i < G2_LENGTH
            invariant
                i <= G2_LENGTH,
                out@ == self.bytes@.subrange(0, i as int),
            decreases G2_LENGTH - i,
        {
            out.push(self.bytes[i]);
            i = i + 1;
            assert(out@ =~= self.bytes@.subrange(0, i as int));
        }
        assert(out@ =~= self.bytes@);
        out
    }

    fn bytes_to_curve(b: &[u8]) -> (r: Option<Self>) {
        if b.len() < G2_LENGTH {
            return None;
        }
        let mut a = [0u8; 96];
        let mut i: usize = 0;
        while i < G2_LENGTH
            invariant
                i <= G2_LENGTH,
                b@.len() >= G2_LENGTH,
                forall|k: int| 0 <= k < i ==> a@[k] == b@[k],
            decreases G2_LENGTH - i,
        {
            a[i] = b[i];
            i = i + 1;
        }
        assert(a@ =~= b@.subrange(0, 96));
        if g2_check(&a) {
            Some(G2Point { bytes: a })
        } else {
            None
        }
    }

    fn is_valid(&self) -> (r: bool) {
        g2_check(&self.bytes)
    }

    fn generate(rng: &mut StdRng) -> (r: Self) {
        G2Point { bytes: g2_random(rng) }
    }

    fn equals(&self, o: &Self) -> (r: bool) {
        crate::bytes::bytes_eq(vstd::array::array_as_slice(&self.bytes), vstd::array::array_as_slice(&o.bytes))
    }
}

} // verus!
