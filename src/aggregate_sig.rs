//! BLS signatures on BLS12-381: signatures in G1, public keys in G2, and
//! aggregation by addition.
use crate::curve::{
    g1_decodes, g1_identity_enc, g1_mul, g2_add, g2_decodes, g2_identity_enc, g2_mul, on_curve, Curve,
    G1Point, G2Point,
};
use crate::random_oracle::{sha256, sha256_of};
use crate::scalar::{fr_random, lemma_scalar_eq, Scalar};
use group::{CurveAffine, CurveProjective, EncodedPoint};
use pairing::bls12_381::{
    Bls12, FrRepr, G1Affine, G1Compressed, G2Affine, G2Compressed, G1, G2,
};
use pairing::Engine;
use rand::rngs::StdRng;
use rand::SeedableRng;
use rand_chacha::ChaCha20Rng;
use vstd::prelude::*;

verus! {

/// The G1 point that a 32-byte seed determines.
pub uninterp spec fn g1_from_seed(seed: Seq<u8>) -> Seq<u8>;

/// The encoding of `k` times the fixed generator of G2.
pub uninterp spec fn g2_generator_mul(k: nat) -> Seq<u8>;

/// Whether `e(p1, q1) = e(p2, q2)` for the optimal ate pairing `e` of BLS12-381.
pub uninterp spec fn pairings_agree(p1: Seq<u8>, q1: Seq<u8>, p2: Seq<u8>, q2: Seq<u8>) -> bool;

/// Relies on group's `CurveProjective::random` for G1, drawing from
/// rand_chacha's `ChaCha20Rng` seeded with `seed`: a non-zero point of the
/// prime-order subgroup (the cofactor is cleared) that the seed alone
/// determines, on every platform.
#[verifier::external_body]
fn g1_point_from_seed(seed: &[u8]) -> (r: [u8; 48])
    requires
        seed@.len() == 32,
    ensures
        g1_decodes(r@),
        r@ == g1_from_seed(seed@),
{
    let mut s = [0u8; 32];
    s.copy_from_slice(seed);
    let mut out = [0u8; 48];
    out.copy_from_slice(G1::random(&mut ChaCha20Rng::from_seed(s)).into_affine().into_compressed().as_ref());
    out
}

/// Relies on group's `CurveAffine::one` and `CurveAffine::mul` for G2: `k`
/// times the fixed generator.
#[verifier::external_body]
fn g2_mul_generator(k: &Scalar) -> (r: [u8; 96])
    requires
        k.wf(),
    ensures
        g2_decodes(r@),
        r@ == g2_generator_mul(k@),
{
    let p = G2Affine::one().mul(FrRepr([k.l0, k.l1, k.l2, k.l3]));
    let mut out = [0u8; 96];
    out.copy_from_slice(p.into_affine().into_compressed().as_ref());
    out
}

/// Relies on pairing's `Engine::pairing` for `Bls12`: whether the two
/// pairings are equal. The arguments are known to decode, so
/// `EncodedPoint::into_affine_unchecked` reads them.
#[verifier::external_body]
pub(crate) fn pairing_check(p1: &[u8; 48], q1: &[u8; 96], p2: &[u8; 48], q2: &[u8; 96]) -> (r: bool)
    requires
        g1_decodes(p1@),
        g2_decodes(q1@),
        g1_decodes(p2@),
        g2_decodes(q2@),
    ensures
        r == pairings_agree(p1@, q1@, p2@, q2@),
{
    let (mut a, mut c) = (G1Compressed::empty(), G1Compressed::empty());
    let (mut b, mut d) = (G2Compressed::empty(), G2Compressed::empty());
    a.as_mut().copy_from_slice(p1);
    b.as_mut().copy_from_slice(q1);
    c.as_mut().copy_from_slice(p2);
    d.as_mut().copy_from_slice(q2);
    let (a, b): (G1Affine, G2Affine) = (a.into_affine_unchecked().unwrap(), b.into_affine_unchecked().unwrap());
    let (c, d): (G1Affine, G2Affine) = (c.into_affine_unchecked().unwrap(), d.into_affine_unchecked().unwrap());
    Bls12::pairing(a, b) == Bls12::pairing(c, d)
}

/// Relies on group's `CurveProjective::zero` for G1: the identity,
/// compressed (`EncodedPoint::from_affine` sets the compression and infinity
/// flags and leaves the rest zero); it is `0·B` for every point `B`.
#[verifier::external_body]
fn g1_identity() -> (r: [u8; 48])
    ensures
        g1_decodes(r@),
        r@ == g1_identity_enc(),
        forall|b: Seq<u8>| #![trigger g1_mul(b, 0)] g1_decodes(b) ==> r@ == g1_mul(b, 0),
{
    let mut out = [0u8; 48];
    out.copy_from_slice(G1::zero().into_affine().into_compressed().as_ref());
    out
}

/// Relies on group's `CurveProjective::zero` for G2: the identity,
/// compressed (`EncodedPoint::from_affine` sets the compression and infinity
/// flags and leaves the rest zero); it is `0·B` for every point `B`.
#[verifier::external_body]
fn g2_identity() -> (r: [u8; 96])
    ensures
        g2_decodes(r@),
        r@ == g2_identity_enc(),
        forall|b: Seq<u8>| #![trigger g2_mul(b, 0)] g2_decodes(b) ==> r@ == g2_mul(b, 0),
{
    let mut out = [0u8; 96];
    out.copy_from_slice(G2::zero().into_affine().into_compressed().as_ref());
    out
}

/// The encoding of the point to which a message hashes: the point that the
/// SHA-256 digest of the message determines.
pub open spec fn hash_message_spec(m: Seq<u8>) -> Seq<u8> {
    g1_from_seed(sha256_of(m))
}

/// A secret key: a scalar.
#[derive(Clone, Copy, Debug, PartialEq, Eq, Structural)]
pub struct SecretKey(pub Scalar);

/// A public key: the secret key times the generator of G2.
#[derive(Clone, Copy, Debug, PartialEq, Eq)]
pub struct PublicKey(pub G2Point);

/// A signature, or an aggregate of signatures: a point of G1.
#[derive(Clone, Copy, Debug, PartialEq, Eq)]
pub struct Signature(pub G1Point);

/// The point of G1 to which a message hashes.
pub fn hash_message(m: &[u8]) -> (r: G1Point)
    ensures
        on_curve(r),
        r.enc() == hash_message_spec(m@),
{
    let d = sha256(m);
    G1Point { bytes: g1_point_from_seed(d.as_slice()) }
}

/// The sum, in G2, of the first `n` keys, starting from the identity.
pub open spec fn sum_keys(pks: Seq<PublicKey>, n: nat) -> Seq<u8>
    decreases n,
{
    if n == 0 {
        g2_identity_enc()
    } else {
        g2_add(sum_keys(pks, (n - 1) as nat), pks[n - 1].0.enc())
    }
}

impl SecretKey {
    pub open spec fn wf(&self) -> bool {
        self.0.wf()
    }

    /// A fresh secret key.
    pub fn generate(csprng: &mut StdRng) -> (r: SecretKey)
        ensures
            r.wf(),
    {
        SecretKey(fr_random(csprng))
    }

    /// The signature on `m`: the hash of `m` times the secret key.
    pub fn sign(&self, m: &[u8]) -> (r: Signature)
        requires
            self.wf(),
        ensures
            on_curve(r.0),
            r.0.enc() == g1_mul(hash_message_spec(m@), self.0@),
    {
        Signature(hash_message(m).mul_by_scalar(&self.0))
    }

    pub fn to_bytes(&self) -> (r: Vec<u8>)
        ensures
            r@.len() == 32,
            crate::bytes::be_value(r@) == self.0@,
    {
        self.0.to_bytes()
    }

    pub fn from_bytes(b: &[u8]) -> (r: Option<SecretKey>)
        ensures
            r.is_some() == (b@.len() >= 32 && crate::bytes::be_value(b@.subrange(0, 32))
                < crate::scalar::fr_modulus()),
            r matches Some(k) ==> k.wf() && k.0@ == crate::bytes::be_value(b@.subrange(0, 32)),
    {
        match Scalar::from_bytes(b) {
            Some(s) => Some(SecretKey(s)),
            None => None,
        }
    }

    pub fn equals(&self, other: &SecretKey) -> (r: bool)
        ensures
            r == (self.0@ == other.0@),
    {
        proof {
            lemma_scalar_eq(self.0, other.0);
        }
        self.0 == other.0
    }
}

impl PublicKey {
    /// The public key of `sk`.
    pub fn from_secret(sk: SecretKey) -> (r: PublicKey)
        requires
            sk.wf(),
        ensures
            on_curve(r.0),
            r.0.enc() == g2_generator_mul(sk.0@),
    {
        PublicKey(G2Point { bytes: g2_mul_generator(&sk.0) })
    }

    /// Whether `sig` is a signature on `m` under this key:
    /// `e(sig, g) = e(H(m), pk)` for the generator `g` of G2.
    pub fn verify(&self, m: &[u8], sig: Signature) -> (r: bool)
        requires
            on_curve(self.0),
            on_curve(sig.0),
        ensures
            r == pairings_agree(
                sig.0.enc(),
                g2_generator_mul(1),
                hash_message_spec(m@),
                self.0.enc(),
            ),
    {
        let g = g2_mul_generator(&Scalar::one());
        let h = hash_message(m);
        pairing_check(&sig.0.bytes, &g, &h.bytes, &self.0.bytes)
    }

    pub fn to_bytes(&self) -> (r: Vec<u8>)
        ensures
            r@ == self.0.enc(),
    {
        self.0.curve_to_bytes()
    }

    pub fn from_bytes(b: &[u8]) -> (r: Option<PublicKey>)
        ensures
            r.is_some() == (b@.len() >= 96 && g2_decodes(b@.subrange(0, 96))),
            r matches Some(k) ==> k.0.enc() == b@.subrange(0, 96),
    {
        match G2Point::bytes_to_curve(b) {
            Some(p) => Some(PublicKey(p)),
            None => None,
        }
    }

    pub fn equals(&self, other: &PublicKey) -> (r: bool)
        ensures
            r == (self.0.enc() == other.0.enc()),
    {
        self.0.equals(&other.0)
    }
}

impl Signature {
    /// The aggregate of two signatures: their sum in G1.
    pub fn aggregate(&self, other: Signature) -> (r: Signature)
        requires
            on_curve(self.0),
            on_curve(other.0),
        ensures
            on_curve(r.0),
            r.0.enc() == crate::curve::g1_add(self.0.enc(), other.0.enc()),
            r.0.enc() == crate::curve::g1_add(other.0.enc(), self.0.enc()),
            forall|b: Seq<u8>, x: nat, y: nat|
                #![trigger G1Point::mul_spec(b, x), G1Point::mul_spec(b, y)]
                G1Point::decodes_spec(b) && self.0.enc() == G1Point::mul_spec(b, x) && other.0.enc()
                    == G1Point::mul_spec(b, y) ==> r.0.enc() == G1Point::mul_spec(
                    b,
                    (x + y) % crate::scalar::fr_modulus(),
                ),
    {
        Signature(self.0.plus_point(&other.0))
    }

    /// The identity of G1, from which aggregation starts.
    pub fn empty() -> (r: Signature)
        ensures
            on_curve(r.0),
            r.0.enc() == g1_identity_enc(),
            forall|b: Seq<u8>| #![trigger g1_mul(b, 0)] g1_decodes(b) ==> r.0.enc() == g1_mul(b, 0),
    {
        Signature(G1Point { bytes: g1_identity() })
    }

    pub fn to_bytes(&self) -> (r: Vec<u8>)
        ensures
            r@ == self.0.enc(),
    {
        self.0.curve_to_bytes()
    }

    pub fn from_bytes(b: &[u8]) -> (r: Option<Signature>)
        ensures
            r.is_some() == (b@.len() >= 48 && g1_decodes(b@.subrange(0, 48))),
            r matches Some(s) ==> s.0.enc() == b@.subrange(0, 48),
    {
        match G1Point::bytes_to_curve(b) {
            Some(p) => Some(Signature(p)),
            None => None,
        }
    }

    pub fn equals(&self, other: &Signature) -> (r: bool)
        ensures
            r == (self.0.enc() == other.0.enc()),
    {
        self.0.equals(&other.0)
    }
}

/// Checks an aggregate of signatures on one message `m` under keys that are
/// trusted (each known to belong to its signer): `e(sig, g) = e(H(m), Σ pk_i)`.
/// With no keys the sum is the identity.
pub fn verify_aggregate_sig_trusted_keys(m: &[u8], pks: &[PublicKey], sig: Signature) -> (r: bool)
    requires
        forall|i: int| 0 <= i < pks@.len() ==> on_curve(#[trigger] pks@[i].0),
        on_curve(sig.0),
    ensures
        r == pairings_agree(
            sig.0.enc(),
            g2_generator_mul(1),
            hash_message_spec(m@),
            sum_keys(pks@, pks@.len()),
        ),
{
    let mut sum = G2Point { bytes: g2_identity() };
    let mut i: usize = 0;
    while i < pks.len()
        invariant
            i <= pks@.len(),
            forall|k: int| 0 <= k < pks@.len() ==> on_curve(#[trigger] pks@[k].0),
            on_curve(sum),
            sum.enc() == sum_keys(pks@, i as nat),
        decreases pks@.len() - i,
    {
        sum = sum.plus_point(&pks[i].0);
        i = i + 1;
    }
    PublicKey(sum).verify(m, sig)
}

} // verus!
