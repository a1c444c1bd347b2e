//! ElGamal encryption in the exponent: a value `m` is encrypted as
//! `(r·g, r·pk + m·h)`, and decryption recovers `m·h`.
use crate::curve::{on_curve, Curve};
use crate::pedersen::{Randomness, Value};
use crate::scalar::{fr_modulus, fr_random, fr_sub_spec, Scalar};
use rand::rngs::StdRng;
use vstd::prelude::*;

verus! {

/// A secret key: the generator it belongs to and a scalar.
#[derive(Clone, Copy, Debug, PartialEq, Eq)]
pub struct SecretKey<C: Curve> {
    pub generator: C,
    pub scalar: Scalar,
}

/// A public key: the generator and `pk = sk·g`.
#[derive(Clone, Copy, Debug, PartialEq, Eq)]
pub struct PublicKey<C: Curve> {
    pub generator: C,
    pub key: C,
}

/// A ciphertext `(r·g, r·pk + m·h)`.
#[derive(Clone, Copy, Debug, PartialEq, Eq)]
pub struct Cipher<C: Curve>(pub C, pub C);

/// Decrypting an encryption of `m` gives `m·h`. Stated over the exponents
/// of a common base `B`: with `g = γ·B`, `h = η·B` and the key `pk = sk·g`,
/// the ciphertext of `m` with randomness `r` has exponents `γ·r` and
/// `(γ·sk)·r + η·m`, and decryption leaves `η·m`.
#[verifier::rlimit(40)]
pub proof fn lemma_elgamal_decryption(gamma: nat, sk: nat, r: nat, eta: nat, m: nat)
    ensures
        ({
            let q = fr_modulus();
            let kappa = (gamma * sk) % q;
            let e = ((kappa * r) % q + (eta * m) % q) % q;
            let rho = (gamma * r) % q;
            fr_sub_spec(e % q, ((rho * sk) % q) % q) == (eta * m) % q
        }),
{
    let q = fr_modulus() as int;
    let (g, s, ri, h, mi) = (gamma as int, sk as int, r as int, eta as int, m as int);
    vstd::arithmetic::div_mod::lemma_mul_mod_noop_left(g * s, ri, q);
    vstd::arithmetic::div_mod::lemma_mul_mod_noop_left(g * ri, s, q);
    assert((g * s) * ri == (g * ri) * s) by (nonlinear_arith);
    let a = ((g * ri) * s) % q;
    let mm = (h * mi) % q;
    vstd::arithmetic::div_mod::lemma_mod_bound((g * ri) * s, q);
    vstd::arithmetic::div_mod::lemma_mod_bound(h * mi, q);
    let e = (a + mm) % q;
    vstd::arithmetic::div_mod::lemma_mod_twice(a + mm, q);
    vstd::arithmetic::div_mod::lemma_mod_twice((g * ri) * s, q);
    if a + mm < q {
        vstd::arithmetic::div_mod::lemma_small_mod((a + mm) as nat, q as nat);
        vstd::arithmetic::div_mod::lemma_fundamental_div_mod_converse(mm + q, q, 1, mm);
    } else {
        vstd::arithmetic::div_mod::lemma_fundamental_div_mod_converse(a + mm, q, 1, a + mm - q);
        vstd::arithmetic::div_mod::lemma_small_mod(mm as nat, q as nat);
    }
}

impl<C: Curve> SecretKey<C> {
    pub open spec fn wf(&self) -> bool {
        on_curve(self.generator) && self.scalar.wf()
    }

    /// A fresh key for `generator`.
    pub fn generate(generator: &C, csprng: &mut StdRng) -> (r: SecretKey<C>)
        requires
            on_curve(*generator),
        ensures
            r.wf(),
            r.generator == *generator,
    {
        SecretKey { generator: *generator, scalar: fr_random(csprng) }
    }

    /// `c.1 − sk·c.0`: for an encryption of `m` with exponent base `h`, the point `m·h`.
    pub fn decrypt(&self, c: &Cipher<C>) -> (r: C)
        requires
            self.wf(),
            on_curve(c.0),
            on_curve(c.1),
        ensures
            on_curve(r),
            r.enc() == C::sub_spec(c.1.enc(), C::mul_spec(c.0.enc(), self.scalar@)),
            forall|b: Seq<u8>, rho: nat, e: nat|
                #![trigger C::mul_spec(b, rho), C::mul_spec(b, e)]
                C::decodes_spec(b) && c.0.enc() == C::mul_spec(b, rho) && c.1.enc()
                    == C::mul_spec(b, e) ==> r.enc() == C::mul_spec(
                    b,
                    fr_sub_spec(e % fr_modulus(), ((rho * self.scalar@) % fr_modulus()) % fr_modulus()),
                ),
    {
        let shared = c.0.mul_by_scalar(&self.scalar);
        c.1.minus_point(&shared)
    }
}

impl<C: Curve> PublicKey<C> {
    pub open spec fn wf(&self) -> bool {
        on_curve(self.generator) && on_curve(self.key)
    }

    /// The public key of `sk`.
    pub fn from_secret(sk: &SecretKey<C>) -> (r: PublicKey<C>)
        requires
            sk.wf(),
        ensures
            r.wf(),
            r.generator == sk.generator,
            r.key.enc() == C::mul_spec(sk.generator.enc(), sk.scalar@),
            forall|b: Seq<u8>, gamma: nat|
                #![trigger C::mul_spec(b, gamma)]
                C::decodes_spec(b) && sk.generator.enc() == C::mul_spec(b, gamma) ==> r.key.enc()
                    == C::mul_spec(b, (gamma * sk.scalar@) % fr_modulus()),
    {
        PublicKey { generator: sk.generator, key: sk.generator.mul_by_scalar(&sk.scalar) }
    }

    /// The encryption of `m` in the exponent of `h`, with randomness `r`.
    pub fn encrypt_exponent_given_randomness(&self, m: &Value, h: &C, r: &Randomness) -> (c: Cipher<C>)
        requires
            self.wf(),
            on_curve(*h),
            m.value.wf(),
            r.randomness.wf(),
        ensures
            on_curve(c.0),
            on_curve(c.1),
            c.0.enc() == C::mul_spec(self.generator.enc(), r.randomness@),
            c.1.enc() == C::add_spec(
                C::mul_spec(self.key.enc(), r.randomness@),
                C::mul_spec(h.enc(), m.value@),
            ),
            forall|b: Seq<u8>, gamma: nat, kappa: nat, eta: nat|
                #![trigger C::mul_spec(b, gamma), C::mul_spec(b, kappa), C::mul_spec(b, eta)]
                C::decodes_spec(b) && self.generator.enc() == C::mul_spec(b, gamma)
                    && self.key.enc() == C::mul_spec(b, kappa) && h.enc() == C::mul_spec(b, eta)
                    ==> c.0.enc() == C::mul_spec(b, (gamma * r.randomness@) % fr_modulus())
                    && c.1.enc() == C::mul_spec(
                    b,
                    ((kappa * r.randomness@) % fr_modulus() + (eta * m.value@) % fr_modulus())
                        % fr_modulus(),
                ),
    {
        let c0 = self.generator.mul_by_scalar(&r.randomness);
        let masked = self.key.mul_by_scalar(&r.randomness);
        let message = h.mul_by_scalar(&m.value);
        Cipher(c0, masked.plus_point(&message))
    }

    /// The encryption of `m` in the exponent of `h` with fresh randomness,
    /// and that randomness.
    pub fn encrypt_exponent(&self, m: &Value, h: &C, csprng: &mut StdRng) -> (res: (
        Cipher<C>,
        Randomness,
    ))
        requires
            self.wf(),
            on_curve(*h),
            m.value.wf(),
        ensures
            res.1.randomness.wf(),
            on_curve(res.0.0),
            on_curve(res.0.1),
            res.0.0.enc() == C::mul_spec(self.generator.enc(), res.1.randomness@),
            res.0.1.enc() == C::add_spec(
                C::mul_spec(self.key.enc(), res.1.randomness@),
                C::mul_spec(h.enc(), m.value@),
            ),
    {
        let r = Randomness { randomness: fr_random(csprng) };
        (self.encrypt_exponent_given_randomness(m, h, &r), r)
    }
}

} // verus!
