//! Pointcheval–Sanders signatures, which an issuer can make on a committed
//! message without seeing it.
use crate::aggregate_sig::{pairing_check, pairings_agree};
use crate::curve::{on_curve, Curve, G1Point, G2Point};
use crate::pedersen::Value;
use crate::scalar::{fr_modulus, fr_random, fr_sub_spec, Scalar};
use crate::unknown_message::{SigRetrievalRandomness, UnknownMessage};
use rand::rngs::StdRng;
use vstd::prelude::*;

verus! {

/// A secret key for messages of `ys.len()` values.
#[derive(Clone, Debug)]
pub struct SecretKey {
    pub g: G1Point,
    pub g_tilda: G2Point,
    pub ys: Vec<Scalar>,
    pub x: Scalar,
}

/// The public key: `Y_i = y_i·g`, `Ỹ_i = y_i·g̃` and `X̃ = x·g̃`.
#[derive(Clone, Debug)]
pub struct PublicKey {
    pub g: G1Point,
    pub g_tilda: G2Point,
    pub ys: Vec<G1Point>,
    pub y_tildas: Vec<G2Point>,
    pub x_tilda: G2Point,
}

/// A signature `(a, b)` on a message.
#[derive(Clone, Copy, Debug, PartialEq, Eq)]
pub struct Signature(pub G1Point, pub G1Point);

/// A signature on a committed message, to be unblinded by the holder of
/// the commitment's randomness.
#[derive(Clone, Copy, Debug, PartialEq, Eq)]
pub struct BlindedSignature {
    pub sig: Signature,
}

/// The encoding of `r·g + Σ_{i<n} m_i·Y_i`.
pub open spec fn commit_message_spec(pk: PublicKey, ms: Seq<Value>, r: nat, n: nat) -> Seq<u8>
    decreases n,
{
    if n == 0 {
        G1Point::mul_spec(pk.g.enc(), r)
    } else {
        G1Point::add_spec(
            commit_message_spec(pk, ms, r, (n - 1) as nat),
            G1Point::mul_spec(pk.ys@[n - 1].enc(), ms[n - 1].value@),
        )
    }
}

/// The encoding of `X̃ + Σ_{i<n} m_i·Ỹ_i`, against which a signature on
/// `ms` is checked.
pub open spec fn verification_key_spec(pk: PublicKey, ms: Seq<Value>, n: nat) -> Seq<u8>
    decreases n,
{
    if n == 0 {
        pk.x_tilda.enc()
    } else {
        G2Point::add_spec(
            verification_key_spec(pk, ms, (n - 1) as nat),
            G2Point::mul_spec(pk.y_tildas@[n - 1].enc(), ms[n - 1].value@),
        )
    }
}

/// Unblinding gives a signature on the message itself. Stated over the
/// exponents of `g`: signing the commitment `(ρ + s)·g` (blinding `ρ`, message
/// part `s = Σ y_i·m_i`) with secret `x` and randomness `u` gives
/// `a = u·g` and `b = (x + ρ + s)·u·g`; subtracting `ρ·a` leaves
/// `(x + s)·u·g = (x + s)·a`, the signature on the message.
#[verifier::rlimit(40)]
pub proof fn lemma_unblinded_signature(x: nat, rho: nat, s: nat, u: nat)
    requires
        rho < fr_modulus(),
        s < fr_modulus(),
    ensures
        ({
            let q = fr_modulus();
            let mu = (rho + s) % q;
            let beta = (((x % q + mu) % q) * u) % q;
            let alpha = u % q;
            fr_sub_spec(beta % q, ((alpha * rho) % q) % q) == (((x + s) % q) * u) % q
        }),
{
    let q = fr_modulus() as int;
    let (xi, ri, si, ui) = (x as int, rho as int, s as int, u as int);
    vstd::arithmetic::div_mod::lemma_add_mod_noop(ri, si, q);
    vstd::arithmetic::div_mod::lemma_add_mod_noop(xi, (ri + si) % q, q);
    vstd::arithmetic::div_mod::lemma_add_mod_noop(xi, ri + si, q);
    let t = (xi + ri + si) % q;
    assert(((xi % q + (ri + si) % q) % q) == t) by {
        vstd::arithmetic::div_mod::lemma_add_mod_noop(xi, ri + si, q);
        vstd::arithmetic::div_mod::lemma_mod_twice(ri + si, q);
        vstd::arithmetic::div_mod::lemma_add_mod_noop(xi % q, (ri + si) % q, q);
        vstd::arithmetic::div_mod::lemma_mod_twice(xi, q);
    }
    vstd::arithmetic::div_mod::lemma_mul_mod_noop_left(xi + ri + si, ui, q);
    let beta = (t * ui) % q;
    assert(beta == ((xi + ri + si) * ui) % q);
    vstd::arithmetic::div_mod::lemma_mod_twice((xi + ri + si) * ui, q);
    vstd::arithmetic::div_mod::lemma_mul_mod_noop_left(ui, ri, q);
    vstd::arithmetic::div_mod::lemma_mod_twice(ui * ri, q);
    let sub = ((ui % q) * ri) % q;
    assert(sub == (ui * ri) % q);
    vstd::arithmetic::div_mod::lemma_mod_bound(ui * ri, q);
    vstd::arithmetic::div_mod::lemma_sub_mod_noop_right(beta + q, ui * ri, q);
    vstd::arithmetic::div_mod::lemma_mod_add_multiples_vanish(beta - ui * ri, q);
    vstd::arithmetic::div_mod::lemma_sub_mod_noop((xi + ri + si) * ui, ui * ri, q);
    assert((xi + ri + si) * ui - ui * ri == (xi + si) * ui) by (nonlinear_arith);
    vstd::arithmetic::div_mod::lemma_mul_mod_noop_left(xi + si, ui, q);
}

impl SecretKey {
    pub open spec fn wf(&self) -> bool {
        &&& on_curve(self.g)
        &&& on_curve(self.g_tilda)
        &&& self.x.wf()
        &&& forall|i: int| 0 <= i < self.ys@.len() ==> (#[trigger] self.ys@[i]).wf()
    }

    /// A fresh key for messages of `n` values.
    pub fn generate(n: usize, csprng: &mut StdRng) -> (r: SecretKey)
        ensures
            r.wf(),
            r.ys@.len() == n,
    {
        let g = G1Point::generate(csprng);
        let g_tilda = G2Point::generate(csprng);
        let mut ys: Vec<Scalar> = Vec::new();
        let mut i: usize = 0;
        while i < n
            invariant
                i <= n,
                ys@.len() == i,
                forall|k: int| 0 <= k < ys@.len() ==> (#[trigger] ys@[k]).wf(),
            decreases n - i,
        {
            ys.push(fr_random(csprng));
            i = i + 1;
        }
        let x = fr_random(csprng);
        SecretKey { g, g_tilda, ys, x }
    }

    /// The signature on the committed message `m` with randomness `u`:
    /// `(u·g, u·(x·g + M))`.
    pub fn sign_unknown_message_with(&self, m: &UnknownMessage, u: &Scalar) -> (r: BlindedSignature)
        requires
            self.wf(),
            on_curve(m.0),
            u.wf(),
        ensures
            on_curve(r.sig.0),
            on_curve(r.sig.1),
            r.sig.0.enc() == G1Point::mul_spec(self.g.enc(), u@),
            r.sig.1.enc() == G1Point::mul_spec(
                G1Point::add_spec(G1Point::mul_spec(self.g.enc(), self.x@), m.0.enc()),
                u@,
            ),
            forall|b: Seq<u8>, gamma: nat, mu: nat|
                #![trigger G1Point::mul_spec(b, gamma), G1Point::mul_spec(b, mu)]
                G1Point::decodes_spec(b) && self.g.enc() == G1Point::mul_spec(b, gamma)
                    && m.0.enc() == G1Point::mul_spec(b, mu) ==> r.sig.0.enc()
                    == G1Point::mul_spec(b, (gamma * u@) % fr_modulus()) && r.sig.1.enc()
                    == G1Point::mul_spec(
                    b,
                    ((((gamma * self.x@) % fr_modulus() + mu) % fr_modulus()) * u@)
                        % fr_modulus(),
                ),
    {
        let a = self.g.mul_by_scalar(u);
        let big_x = self.g.mul_by_scalar(&self.x);
        let xm = big_x.plus_point(&m.0);
        let b = xm.mul_by_scalar(u);
        BlindedSignature { sig: Signature(a, b) }
    }

    /// The signature on the committed message `m` with fresh randomness.
    pub fn sign_unknown_message(&self, m: &UnknownMessage, csprng: &mut StdRng) -> (r: BlindedSignature)
        requires
            self.wf(),
            on_curve(m.0),
        ensures
            on_curve(r.sig.0),
            on_curve(r.sig.1),
            exists|u: nat|
                u < fr_modulus() && r.sig.0.enc() == G1Point::mul_spec(self.g.enc(), u)
                    && r.sig.1.enc() == G1Point::mul_spec(
                    G1Point::add_spec(G1Point::mul_spec(self.g.enc(), self.x@), m.0.enc()),
                    u,
                ),
    {
        let u = fr_random(csprng);
        self.sign_unknown_message_with(m, &u)
    }
}

impl BlindedSignature {
    /// The signature on the message itself: `(a, b − r·a)`, with `r` the
    /// randomness of the commitment that was signed.
    pub fn unblind(&self, r: &SigRetrievalRandomness) -> (s: Signature)
        requires
            on_curve(self.sig.0),
            on_curve(self.sig.1),
            r.randomness.wf(),
        ensures
            on_curve(s.0),
            on_curve(s.1),
            s.0 == self.sig.0,
            s.1.enc() == G1Point::sub_spec(
                self.sig.1.enc(),
                G1Point::mul_spec(self.sig.0.enc(), r.randomness@),
            ),
            forall|b: Seq<u8>, alpha: nat, beta: nat|
                #![trigger G1Point::mul_spec(b, alpha), G1Point::mul_spec(b, beta)]
                G1Point::decodes_spec(b) && self.sig.0.enc() == G1Point::mul_spec(b, alpha)
                    && self.sig.1.enc() == G1Point::mul_spec(b, beta) ==> s.1.enc()
                    == G1Point::mul_spec(
                    b,
                    fr_sub_spec(
                        beta % fr_modulus(),
                        ((alpha * r.randomness@) % fr_modulus()) % fr_modulus(),
                    ),
                ),
    {
        let ra = self.sig.0.mul_by_scalar(&r.randomness);
        Signature(self.sig.0, self.sig.1.minus_point(&ra))
    }
}

impl PublicKey {
    pub open spec fn wf(&self) -> bool {
        &&& on_curve(self.g)
        &&& on_curve(self.g_tilda)
        &&& on_curve(self.x_tilda)
        &&& self.ys@.len() == self.y_tildas@.len()
        &&& forall|i: int| 0 <= i < self.ys@.len() ==> on_curve(#[trigger] self.ys@[i])
        &&& forall|i: int| 0 <= i < self.y_tildas@.len() ==> on_curve(#[trigger] self.y_tildas@[i])
    }

    /// The public key of `sk`.
    pub fn from_secret(sk: &SecretKey) -> (r: PublicKey)
        requires
            sk.wf(),
        ensures
            r.wf(),
            r.g == sk.g,
            r.g_tilda == sk.g_tilda,
            r.ys@.len() == sk.ys@.len(),
            r.x_tilda.enc() == G2Point::mul_spec(sk.g_tilda.enc(), sk.x@),
            forall|i: int|
                0 <= i < sk.ys@.len() ==> (#[trigger] r.ys@[i]).enc() == G1Point::mul_spec(
                    sk.g.enc(),
                    sk.ys@[i]@,
                ) && r.y_tildas@[i].enc() == G2Point::mul_spec(sk.g_tilda.enc(), sk.ys@[i]@),
    {
        let mut ys: Vec<G1Point> = Vec::new();
        let mut y_tildas: Vec<G2Point> = Vec::new();
        let mut i: usize = 0;
        while i < sk.ys.len()
            invariant
                sk.wf(),
                i <= sk.ys@.len(),
                ys@.len() == i,
                y_tildas@.len() == i,
                forall|k: int|
                    0 <= k < i ==> on_curve(#[trigger] ys@[k]) && ys@[k].enc() == G1Point::mul_spec(
                        sk.g.enc(),
                        sk.ys@[k]@,
                    ),
                forall|k: int|
                    0 <= k < i ==> on_curve(#[trigger] y_tildas@[k]) && y_tildas@[k].enc()
                        == G2Point::mul_spec(sk.g_tilda.enc(), sk.ys@[k]@),
            decreases sk.ys@.len() - i,
        {
            ys.push(sk.g.mul_by_scalar(&sk.ys[i]));
            y_tildas.push(sk.g_tilda.mul_by_scalar(&sk.ys[i]));
            i = i + 1;
        }
        let x_tilda = sk.g_tilda.mul_by_scalar(&sk.x);
        PublicKey { g: sk.g, g_tilda: sk.g_tilda, ys, y_tildas, x_tilda }
    }

    /// The commitment `r·g + Σ m_i·Y_i` to the message `ms`, which the
    /// signer signs without learning `ms`.
    pub fn commit_message(&self, ms: &[Value], r: &SigRetrievalRandomness) -> (m: UnknownMessage)
        requires
            self.wf(),
            ms@.len() == self.ys@.len(),
            r.randomness.wf(),
            forall|i: int| 0 <= i < ms@.len() ==> (#[trigger] ms@[i]).value.wf(),
        ensures
            on_curve(m.0),
            m.0.enc() == commit_message_spec(*self, ms@, r.randomness@, ms@.len()),
    {
        let mut acc = self.g.mul_by_scalar(&r.randomness);
        let mut i: usize = 0;
        while i < ms.len()
            invariant
                self.wf(),
                ms@.len() == self.ys@.len(),
                i <= ms@.len(),
                forall|k: int| 0 <= k < ms@.len() ==> (#[trigger] ms@[k]).value.wf(),
                on_curve(acc),
                acc.enc() == commit_message_spec(*self, ms@, r.randomness@, i as nat),
            decreases ms@.len() - i,
        {
            let term = self.ys[i].mul_by_scalar(&ms[i].value);
            acc = acc.plus_point(&term);
            i = i + 1;
        }
        UnknownMessage(acc)
    }

    /// Whether `sig` is a signature on `ms`: `e(a, X̃ + Σ m_i·Ỹ_i) = e(b, g̃)`.
    /// A message of the wrong length is rejected.
    pub fn verify(&self, sig: &Signature, ms: &[Value]) -> (r: bool)
        requires
            self.wf(),
            on_curve(sig.0),
            on_curve(sig.1),
            forall|i: int| 0 <= i < ms@.len() ==> (#[trigger] ms@[i]).value.wf(),
        ensures
            r == (ms@.len() == self.y_tildas@.len() && pairings_agree(
                sig.0.enc(),
                verification_key_spec(*self, ms@, ms@.len()),
                sig.1.enc(),
                self.g_tilda.enc(),
            )),
    {
        if ms.len() != self.y_tildas.len() {
            return false;
        }
        let mut key = self.x_tilda;
        let mut i: usize = 0;
        while i < ms.len()
            invariant
                self.wf(),
                ms@.len() == self.y_tildas@.len(),
                i <= ms@.len(),
                forall|k: int| 0 <= k < ms@.len() ==> (#[trigger] ms@[k]).value.wf(),
                on_curve(key),
                key.enc() == verification_key_spec(*self, ms@, i as nat),
            decreases ms@.len() - i,
        {
            let term = self.y_tildas[i].mul_by_scalar(&ms[i].value);
            key = key.plus_point(&term);
            i = i + 1;
        }
        pairing_check(&sig.0.bytes, &key.bytes, &sig.1.bytes, &self.g_tilda.bytes)
    }
}

} // verus!
