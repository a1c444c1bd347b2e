//! Proof that the value in a Pedersen commitment is the exponent that an
//! ElGamal ciphertext encrypts: for `E = (r·g, r·pk + m·h)` and
//! `C = m·g' + s·h'`, knowledge of `(m, r, s)`.
use crate::com_eq_different_groups::lemma_com_eq_exponents;
use crate::curve::{on_curve, Curve};
use crate::dlog::{DecodeError, MAX_PROOF_ATTEMPTS};
use crate::elgamal::{Cipher, PublicKey};
use crate::pedersen::{
    commit_exponent, commit_spec, key_over, Commitment, CommitmentKey, Randomness, Value,
};
use crate::random_oracle::{digest_scalar, sha256_of, RandomOracle};
use crate::bytes::be_value;
use crate::scalar::{
    fr_modulus, fr_mul, fr_random, fr_sub, fr_sub_spec, lemma_scalar_eq, Scalar, SCALAR_LENGTH,
};
use rand::rngs::StdRng;
use vstd::prelude::*;
use vstd::string::StringSliceAdditionalSpecFns;

verus! {

/// The label that starts this protocol's part of the transcript.
pub const COM_ENC_EQ_DOMAIN: &'static str = "com_enc_eq";

/// What the prover knows: the value, the encryption randomness and the
/// commitment randomness.
#[derive(Clone, Copy, Debug, PartialEq, Eq, Structural)]
pub struct ComEncEqSecret {
    pub value: Value,
    pub elgamal_rand: Randomness,
    pub pedersen_rand: Randomness,
}

/// The challenge and the responses `(z_m, z_r, z_s)`.
#[derive(Clone, Copy, Debug, PartialEq, Eq)]
pub struct ComEncEqProof {
    pub challenge: Scalar,
    pub witness: (Scalar, Scalar, Scalar),
}

/// The public part of the statement, in the order it enters the transcript.
pub open spec fn com_enc_eq_statement<C: Curve>(
    ro: Seq<u8>,
    cipher: Cipher<C>,
    commitment: Commitment<C>,
    pub_key: PublicKey<C>,
    cmm_key: CommitmentKey<C>,
    h: C,
) -> Seq<u8> {
    ro + COM_ENC_EQ_DOMAIN.spec_bytes() + pub_key.generator.enc() + pub_key.key.enc() + h.enc()
        + cmm_key.0.enc() + cmm_key.1.enc() + cipher.0.enc() + cipher.1.enc() + commitment.0.enc()
}

/// The challenge for the first moves `a_1`, `a_2`, `a_3`.
pub open spec fn com_enc_eq_challenge<C: Curve>(
    ro: Seq<u8>,
    cipher: Cipher<C>,
    commitment: Commitment<C>,
    pub_key: PublicKey<C>,
    cmm_key: CommitmentKey<C>,
    h: C,
    a_1: Seq<u8>,
    a_2: Seq<u8>,
    a_3: Seq<u8>,
) -> nat {
    digest_scalar(
        sha256_of(com_enc_eq_statement(ro, cipher, commitment, pub_key, cmm_key, h) + a_1 + a_2 + a_3),
    )
}

/// What the verifier accepts: the challenge is the one hashed from the
/// first moves that the responses give back,
/// `a_1 = c·E_1 + z_r·g`, `a_2 = c·E_2 + z_r·pk + z_m·h` and
/// `a_3 = c·C + z_m·g' + z_s·h'`.
pub open spec fn com_enc_eq_accepts<C: Curve>(
    ro: Seq<u8>,
    cipher: Cipher<C>,
    commitment: Commitment<C>,
    pub_key: PublicKey<C>,
    cmm_key: CommitmentKey<C>,
    h: C,
    proof: ComEncEqProof,
) -> bool {
    let c = proof.challenge@;
    let (z_m, z_r, z_s) = (proof.witness.0@, proof.witness.1@, proof.witness.2@);
    let a_1 = C::add_spec(C::mul_spec(cipher.0.enc(), c), C::mul_spec(pub_key.generator.enc(), z_r));
    let a_2 = C::add_spec(
        C::add_spec(C::mul_spec(cipher.1.enc(), c), C::mul_spec(pub_key.key.enc(), z_r)),
        C::mul_spec(h.enc(), z_m),
    );
    let a_3 = C::add_spec(
        C::add_spec(C::mul_spec(commitment.0.enc(), c), C::mul_spec(cmm_key.0.enc(), z_m)),
        C::mul_spec(cmm_key.1.enc(), z_s),
    );
    c == com_enc_eq_challenge(ro, cipher, commitment, pub_key, cmm_key, h, a_1, a_2, a_3)
}

/// `proof` is what an honest prover produces. Over a common base `B`:
/// `g = γ·B`, `pk = κ·B`, `h = η·B` and the commitment key is
/// `(γ'·B, η'·B)`; the ciphertext encrypts `m` with randomness `r`, the
/// commitment is to `m` with randomness `s`; the first moves use the masks
/// `(α, ρ, σ)`; the responses are `α − c·m`, `ρ − c·r` and `σ − c·s`.
pub open spec fn com_enc_eq_honest<C: Curve>(
    ro: Seq<u8>,
    cipher: Cipher<C>,
    commitment: Commitment<C>,
    pub_key: PublicKey<C>,
    cmm_key: CommitmentKey<C>,
    h: C,
    proof: ComEncEqProof,
    base: Seq<u8>,
    gamma: nat,
    kappa: nat,
    eta: nat,
    gamma_c: nat,
    eta_c: nat,
    m: nat,
    r: nat,
    s: nat,
    alpha: nat,
    rho: nat,
    sigma: nat,
) -> bool {
    let c = proof.challenge@;
    let q = fr_modulus();
    &&& C::decodes_spec(base)
    &&& pub_key.generator.enc() == C::mul_spec(base, gamma)
    &&& key_over(CommitmentKey(pub_key.key, h), base, kappa, eta)
    &&& key_over(cmm_key, base, gamma_c, eta_c)
    &&& cipher.0.enc() == C::mul_spec(base, (gamma * r) % q)
    &&& cipher.1.enc() == C::mul_spec(base, commit_exponent(kappa, eta, r, m))
    &&& commitment.0.enc() == C::mul_spec(base, commit_exponent(gamma_c, eta_c, m, s))
    &&& c == com_enc_eq_challenge(
        ro,
        cipher,
        commitment,
        pub_key,
        cmm_key,
        h,
        C::mul_spec(base, (gamma * rho) % q),
        C::mul_spec(base, commit_exponent(kappa, eta, rho, alpha)),
        C::mul_spec(base, commit_exponent(gamma_c, eta_c, alpha, sigma)),
    )
    &&& proof.witness.0@ == fr_sub_spec(alpha, (c * m) % q)
    &&& proof.witness.1@ == fr_sub_spec(rho, (c * r) % q)
    &&& proof.witness.2@ == fr_sub_spec(sigma, (c * s) % q)
}

/// The one-term form of `lemma_com_eq_exponents`: `c·(γ·r) + γ·(ρ − c·r) = γ·ρ`.
#[verifier::rlimit(40)]
pub proof fn lemma_single_exponent(gamma: nat, r: nat, c: nat, rho: nat)
    ensures
        ({
            let q = fr_modulus();
            ((((gamma * r) % q) * c) % q + (gamma * fr_sub_spec(rho, (c * r) % q)) % q) % q
                == (gamma * rho) % q
        }),
{
    let q = fr_modulus();
    lemma_com_eq_exponents(gamma, 0, r, 0, c, rho, 0);
    vstd::arithmetic::div_mod::lemma_mod_bound((gamma * r) as int, q as int);
    vstd::arithmetic::div_mod::lemma_mod_bound((gamma * rho) as int, q as int);
    assert(0nat * 0nat == 0);
    vstd::arithmetic::div_mod::lemma_small_mod(0, q);
    vstd::arithmetic::div_mod::lemma_small_mod((gamma * r) % q, q);
    vstd::arithmetic::div_mod::lemma_small_mod((gamma * rho) % q, q);
    let s_2 = fr_sub_spec(0, (c * 0) % q);
    assert(c * 0 == 0);
    vstd::arithmetic::div_mod::lemma_mod_self_0(q as int);
    assert(s_2 == 0);
    assert(0 * s_2 == 0);
    let x = ((((gamma * r) % q) * c) % q + (gamma * fr_sub_spec(rho, (c * r) % q)) % q) % q;
    vstd::arithmetic::div_mod::lemma_mod_bound(x as int, q as int);
    vstd::arithmetic::div_mod::lemma_small_mod(x, q);
}

impl ComEncEqProof {
    pub open spec fn wf(&self) -> bool {
        self.challenge.wf() && self.witness.0.wf() && self.witness.1.wf() && self.witness.2.wf()
    }

    /// `b` is the encoding of the proof: the challenge, then `z_m`, `z_r`
    /// and `z_s`, 32 bytes each.
    pub open spec fn encodes(&self, b: Seq<u8>) -> bool {
        &&& b.len() == 128
        &&& be_value(b.subrange(0, 32)) == self.challenge@
        &&& be_value(b.subrange(32, 64)) == self.witness.0@
        &&& be_value(b.subrange(64, 96)) == self.witness.1@
        &&& be_value(b.subrange(96, 128)) == self.witness.2@
    }

    /// The bytes that `from_bytes` accepts: four canonical scalars.
    pub open spec fn decodable(b: Seq<u8>) -> bool {
        &&& b.len() >= 128
        &&& be_value(b.subrange(0, 32)) < fr_modulus()
        &&& be_value(b.subrange(32, 64)) < fr_modulus()
        &&& be_value(b.subrange(64, 96)) < fr_modulus()
        &&& be_value(b.subrange(96, 128)) < fr_modulus()
    }

    /// The encoding of the proof.
    pub fn to_bytes(&self) -> (r: Vec<u8>)
        ensures
            self.encodes(r@),
    {
        let mut out = self.challenge.to_bytes();
        let mut a = self.witness.0.to_bytes();
        let mut b = self.witness.1.to_bytes();
        let mut c = self.witness.2.to_bytes();
        let ghost (o0, a0, b0, c0) = (out@, a@, b@, c@);
        out.append(&mut a);
        out.append(&mut b);
        out.append(&mut c);
        proof {
            assert(out@.subrange(0, 32) =~= o0);
            assert(out@.subrange(32, 64) =~= a0);
            assert(out@.subrange(64, 96) =~= b0);
            assert(out@.subrange(96, 128) =~= c0);
        }
        out
    }

    /// Reads a proof from the first 128 bytes of `b`; bytes after them are ignored.
    pub fn from_bytes(b: &[u8]) -> (r: Result<ComEncEqProof, DecodeError>)
        ensures
            r.is_ok() == Self::decodable(b@),
            r matches Ok(q) ==> q.wf() && q.encodes(b@.subrange(0, 128)),
    {
        if b.len() < 4 * SCALAR_LENGTH {
            return Err(DecodeError::TooShort);
        }
        let (_, r1) = b.split_at(SCALAR_LENGTH);
        let (_, r2) = b.split_at(2 * SCALAR_LENGTH);
        let (_, r3) = b.split_at(3 * SCALAR_LENGTH);
        proof {
            assert(r1@.subrange(0, 32) =~= b@.subrange(32, 64));
            assert(r2@.subrange(0, 32) =~= b@.subrange(64, 96));
            assert(r3@.subrange(0, 32) =~= b@.subrange(96, 128));
            let s = b@.subrange(0, 128);
            assert(s.subrange(0, 32) =~= b@.subrange(0, 32));
            assert(s.subrange(32, 64) =~= b@.subrange(32, 64));
            assert(s.subrange(64, 96) =~= b@.subrange(64, 96));
            assert(s.subrange(96, 128) =~= b@.subrange(96, 128));
        }
        let challenge = Scalar::from_bytes(b);
        let s_1 = Scalar::from_bytes(r1);
        let s_2 = Scalar::from_bytes(r2);
        let t = Scalar::from_bytes(r3);
        match (challenge, s_1, s_2, t) {
            (Some(challenge), Some(s_1), Some(s_2), Some(t)) => Ok(
                ComEncEqProof { challenge, witness: (s_1, s_2, t) },
            ),
            _ => Err(DecodeError::NonCanonicalScalar),
        }
    }
}

/// A proof is recovered from its encoding: `from_bytes` accepts the
/// encoding of every well-formed proof, and what it returns then is that proof.
pub proof fn lemma_com_enc_eq_proof_round_trip(p: ComEncEqProof, q: ComEncEqProof, b: Seq<u8>)
    requires
        p.wf(),
        p.encodes(b),
    ensures
        ComEncEqProof::decodable(b),
        q.encodes(b.subrange(0, 128)) ==> q == p,
{
    assert(b.subrange(0, 128) =~= b);
    if q.encodes(b) {
        lemma_scalar_eq(p.challenge, q.challenge);
        lemma_scalar_eq(p.witness.0, q.witness.0);
        lemma_scalar_eq(p.witness.1, q.witness.1);
        lemma_scalar_eq(p.witness.2, q.witness.2);
    }
}


/// The oracle after it has absorbed the label and the statement.
fn absorb_statement<C: Curve>(
    ro: RandomOracle,
    cipher: &Cipher<C>,
    commitment: &Commitment<C>,
    pub_key: &PublicKey<C>,
    cmm_key: &CommitmentKey<C>,
    h: &C,
) -> (r: RandomOracle)
    ensures
        r@ == com_enc_eq_statement(ro@, *cipher, *commitment, *pub_key, *cmm_key, *h),
{
    ro.append_bytes(COM_ENC_EQ_DOMAIN.as_bytes()).append(&pub_key.generator).append(&pub_key.key).append(
        h,
    ).append(&cmm_key.0).append(&cmm_key.1).append(&cipher.0).append(&cipher.1).append(&commitment.0)
}

/// The proof with masks `(α, ρ, σ)`: first moves `a_1 = ρ·g`,
/// `a_2 = ρ·pk + α·h` and `a_3 = α·g' + σ·h'`; none where the challenge is zero.
pub fn prove_com_enc_eq_with_masks<C: Curve>(
    ro: RandomOracle,
    cipher: &Cipher<C>,
    commitment: &Commitment<C>,
    pub_key: &PublicKey<C>,
    cmm_key: &CommitmentKey<C>,
    h: &C,
    secret: &ComEncEqSecret,
    alpha: &Scalar,
    rho: &Scalar,
    sigma: &Scalar,
) -> (r: Option<ComEncEqProof>)
    requires
        pub_key.wf(),
        cmm_key.wf(),
        on_curve(*h),
        secret.value.value.wf(),
        secret.elgamal_rand.randomness.wf(),
        secret.pedersen_rand.randomness.wf(),
        alpha.wf(),
        rho.wf(),
        sigma.wf(),
    ensures
        ({
            let a_1 = C::mul_spec(pub_key.generator.enc(), rho@);
            let a_2 = commit_spec(CommitmentKey(pub_key.key, *h), rho@, alpha@);
            let a_3 = commit_spec(*cmm_key, alpha@, sigma@);
            let c = com_enc_eq_challenge(ro@, *cipher, *commitment, *pub_key, *cmm_key, *h, a_1, a_2, a_3);
            &&& r.is_some() == (c != 0)
            &&& forall|b: Seq<u8>, gamma: nat|
                #![trigger C::mul_spec(b, gamma)]
                C::decodes_spec(b) && pub_key.generator.enc() == C::mul_spec(b, gamma) ==> a_1
                    == C::mul_spec(b, (gamma * rho@) % fr_modulus())
            &&& forall|b: Seq<u8>, kappa: nat, eta: nat|
                #[trigger] key_over(CommitmentKey(pub_key.key, *h), b, kappa, eta) ==> a_2
                    == C::mul_spec(b, commit_exponent(kappa, eta, rho@, alpha@))
            &&& forall|b: Seq<u8>, gamma: nat, eta: nat|
                #[trigger] key_over(*cmm_key, b, gamma, eta) ==> a_3 == C::mul_spec(
                    b,
                    commit_exponent(gamma, eta, alpha@, sigma@),
                )
            &&& r matches Some(p) ==> {
                &&& p.wf()
                &&& p.challenge@ == c
                &&& p.witness.0@ == fr_sub_spec(alpha@, (c * secret.value.value@) % fr_modulus())
                &&& p.witness.1@ == fr_sub_spec(
                    rho@,
                    (c * secret.elgamal_rand.randomness@) % fr_modulus(),
                )
                &&& p.witness.2@ == fr_sub_spec(
                    sigma@,
                    (c * secret.pedersen_rand.randomness@) % fr_modulus(),
                )
            }
        }),
{
    let hasher = absorb_statement(ro, cipher, commitment, pub_key, cmm_key, h);
    let a_1 = pub_key.generator.mul_by_scalar(rho);
    let enc_key = CommitmentKey(pub_key.key, *h);
    let a_2 = enc_key.commit_with(&Value { value: *rho }, &Randomness { randomness: *alpha });
    let a_3 = cmm_key.commit_with(&Value { value: *alpha }, &Randomness { randomness: *sigma });
    let challenge = hasher.append(&a_1).append(&a_2.0).finish_to_scalar(&a_3.0);
    if challenge.is_zero() {
        return None;
    }
    let z_m = fr_sub(alpha, &fr_mul(&challenge, &secret.value.value));
    let z_r = fr_sub(rho, &fr_mul(&challenge, &secret.elgamal_rand.randomness));
    let z_s = fr_sub(sigma, &fr_mul(&challenge, &secret.pedersen_rand.randomness));
    Some(ComEncEqProof { challenge, witness: (z_m, z_r, z_s) })
}

/// A proof that `commitment` commits to the exponent that `cipher`
/// encrypts, bound to `ro`. The prover draws fresh masks until the
/// challenge is non-zero, and returns none if that has not happened after
/// `MAX_PROOF_ATTEMPTS` draws.
pub fn prove_com_enc_eq<C: Curve>(
    ro: RandomOracle,
    cipher: &Cipher<C>,
    commitment: &Commitment<C>,
    pub_key: &PublicKey<C>,
    cmm_key: &CommitmentKey<C>,
    h: &C,
    secret: &ComEncEqSecret,
    csprng: &mut StdRng,
) -> (r: Option<ComEncEqProof>)
    requires
        pub_key.wf(),
        cmm_key.wf(),
        on_curve(*h),
        secret.value.value.wf(),
        secret.elgamal_rand.randomness.wf(),
        secret.pedersen_rand.randomness.wf(),
    ensures
        r matches Some(p) ==> {
            &&& p.wf()
            &&& p.challenge@ != 0
            &&& forall|
                base: Seq<u8>,
                gamma: nat,
                kappa: nat,
                eta: nat,
                gamma_c: nat,
                eta_c: nat,
            |
                #![trigger C::mul_spec(base, gamma), key_over(CommitmentKey(pub_key.key, *h), base, kappa, eta), key_over(*cmm_key, base, gamma_c, eta_c)]
                C::decodes_spec(base) && pub_key.generator.enc() == C::mul_spec(base, gamma)
                    && key_over(CommitmentKey(pub_key.key, *h), base, kappa, eta) && key_over(
                    *cmm_key,
                    base,
                    gamma_c,
                    eta_c,
                ) && cipher.0.enc() == C::mul_spec(
                    base,
                    (gamma * secret.elgamal_rand.randomness@) % fr_modulus(),
                ) && cipher.1.enc() == C::mul_spec(
                    base,
                    commit_exponent(
                        kappa,
                        eta,
                        secret.elgamal_rand.randomness@,
                        secret.value.value@,
                    ),
                ) && commitment.0.enc() == C::mul_spec(
                    base,
                    commit_exponent(
                        gamma_c,
                        eta_c,
                        secret.value.value@,
                        secret.pedersen_rand.randomness@,
                    ),
                ) ==> exists|alpha: nat, rho: nat, sigma: nat|
                    #[trigger] com_enc_eq_honest(
                        ro@,
                        *cipher,
                        *commitment,
                        *pub_key,
                        *cmm_key,
                        *h,
                        p,
                        base,
                        gamma,
                        kappa,
                        eta,
                        gamma_c,
                        eta_c,
                        secret.value.value@,
                        secret.elgamal_rand.randomness@,
                        secret.pedersen_rand.randomness@,
                        alpha,
                        rho,
                        sigma,
                    )
        },
{
    let mut attempts: u32 = 0;
    while attempts < MAX_PROOF_ATTEMPTS
        invariant
            pub_key.wf(),
            cmm_key.wf(),
            on_curve(*h),
            secret.value.value.wf(),
            secret.elgamal_rand.randomness.wf(),
            secret.pedersen_rand.randomness.wf(),
        decreases MAX_PROOF_ATTEMPTS - attempts,
    {
        let alpha = fr_random(csprng);
        let rho = fr_random(csprng);
        let sigma = fr_random(csprng);
        let r = prove_com_enc_eq_with_masks(
            ro.split(),
            cipher,
            commitment,
            pub_key,
            cmm_key,
            h,
            secret,
            &alpha,
            &rho,
            &sigma,
        );
        if let Some(p) = r {
            assert forall|
                base: Seq<u8>,
                gamma: nat,
                kappa: nat,
                eta: nat,
                gamma_c: nat,
                eta_c: nat,
            |
                #![trigger C::mul_spec(base, gamma), key_over(CommitmentKey(pub_key.key, *h), base, kappa, eta), key_over(*cmm_key, base, gamma_c, eta_c)]
                C::decodes_spec(base) && pub_key.generator.enc() == C::mul_spec(base, gamma)
                    && key_over(CommitmentKey(pub_key.key, *h), base, kappa, eta) && key_over(
                    *cmm_key,
                    base,
                    gamma_c,
                    eta_c,
                ) && cipher.0.enc() == C::mul_spec(
                    base,
                    (gamma * secret.elgamal_rand.randomness@) % fr_modulus(),
                ) && cipher.1.enc() == C::mul_spec(
                    base,
                    commit_exponent(
                        kappa,
                        eta,
                        secret.elgamal_rand.randomness@,
                        secret.value.value@,
                    ),
                ) && commitment.0.enc() == C::mul_spec(
                    base,
                    commit_exponent(
                        gamma_c,
                        eta_c,
                        secret.value.value@,
                        secret.pedersen_rand.randomness@,
                    ),
                ) implies exists|alpha: nat, rho: nat, sigma: nat|
                    #[trigger] com_enc_eq_honest(
                        ro@,
                        *cipher,
                        *commitment,
                        *pub_key,
                        *cmm_key,
                        *h,
                        p,
                        base,
                        gamma,
                        kappa,
                        eta,
                        gamma_c,
                        eta_c,
                        secret.value.value@,
                        secret.elgamal_rand.randomness@,
                        secret.pedersen_rand.randomness@,
                        alpha,
                        rho,
                        sigma,
                    ) by {
                assert(com_enc_eq_honest(
                    ro@,
                    *cipher,
                    *commitment,
                    *pub_key,
                    *cmm_key,
                    *h,
                    p,
                    base,
                    gamma,
                    kappa,
                    eta,
                    gamma_c,
                    eta_c,
                    secret.value.value@,
                    secret.elgamal_rand.randomness@,
                    secret.pedersen_rand.randomness@,
                    alpha@,
                    rho@,
                    sigma@,
                ));
            }
            return Some(p);
        }
        attempts = attempts + 1;
    }
    None
}

/// Checks a proof that `commitment` commits to the exponent that `cipher`
/// encrypts under `pub_key` with exponent base `h`.
///
/// Every proof that an honest prover makes for a true statement is accepted.
pub fn verify_com_enc_eq<C: Curve>(
    ro: RandomOracle,
    cipher: &Cipher<C>,
    commitment: &Commitment<C>,
    pub_key: &PublicKey<C>,
    cmm_key: &CommitmentKey<C>,
    h: &C,
    proof: &ComEncEqProof,
) -> (r: bool)
    requires
        pub_key.wf(),
        cmm_key.wf(),
        on_curve(*h),
        on_curve(cipher.0),
        on_curve(cipher.1),
        on_curve(commitment.0),
        proof.wf(),
    ensures
        r == com_enc_eq_accepts(ro@, *cipher, *commitment, *pub_key, *cmm_key, *h, *proof),
        forall|
            base: Seq<u8>,
            gamma: nat,
            kappa: nat,
            eta: nat,
            gamma_c: nat,
            eta_c: nat,
            m: nat,
            rr: nat,
            s: nat,
            alpha: nat,
            rho: nat,
            sigma: nat,
        |
            #[trigger] com_enc_eq_honest(
                ro@,
                *cipher,
                *commitment,
                *pub_key,
                *cmm_key,
                *h,
                *proof,
                base,
                gamma,
                kappa,
                eta,
                gamma_c,
                eta_c,
                m,
                rr,
                s,
                alpha,
                rho,
                sigma,
            ) ==> r,
{
    let ghost ro_v = ro@;
    let (z_m, z_r, z_s) = proof.witness;
    let c = proof.challenge;
    let x1 = cipher.0.mul_by_scalar(&c);
    let x2 = pub_key.generator.mul_by_scalar(&z_r);
    let a_1 = x1.plus_point(&x2);
    let y1 = cipher.1.mul_by_scalar(&c);
    let y2 = pub_key.key.mul_by_scalar(&z_r);
    let y3 = h.mul_by_scalar(&z_m);
    let y12 = y1.plus_point(&y2);
    let a_2 = y12.plus_point(&y3);
    let w1 = commitment.0.mul_by_scalar(&c);
    let w2 = cmm_key.0.mul_by_scalar(&z_m);
    let w3 = cmm_key.1.mul_by_scalar(&z_s);
    let w12 = w1.plus_point(&w2);
    let a_3 = w12.plus_point(&w3);
    let hasher = absorb_statement(ro, cipher, commitment, pub_key, cmm_key, h);
    let computed = hasher.append(&a_1).append(&a_2).finish_to_scalar(&a_3);
    proof {
        lemma_scalar_eq(computed, proof.challenge);
    }
    let r = computed == proof.challenge;
    proof {
        assert forall|
            base: Seq<u8>,
            gamma: nat,
            kappa: nat,
            eta: nat,
            gamma_c: nat,
            eta_c: nat,
            m: nat,
            rr: nat,
            s: nat,
            alpha: nat,
            rho: nat,
            sigma: nat,
        |
            #[trigger] com_enc_eq_honest(
                ro_v,
                *cipher,
                *commitment,
                *pub_key,
                *cmm_key,
                *h,
                *proof,
                base,
                gamma,
                kappa,
                eta,
                gamma_c,
                eta_c,
                m,
                rr,
                s,
                alpha,
                rho,
                sigma,
            ) implies r by {
            let q = fr_modulus();
            let cv = c@;
            let e_c = commit_exponent(kappa, eta, rr, m);
            let e_m = commit_exponent(gamma_c, eta_c, m, s);
            assert(x1.enc() == C::mul_spec(base, (((gamma * rr) % q) * cv) % q));
            assert(x2.enc() == C::mul_spec(base, (gamma * z_r@) % q));
            lemma_single_exponent(gamma, rr, cv, rho);
            assert(a_1.enc() == C::mul_spec(base, (gamma * rho) % q));
            assert(y1.enc() == C::mul_spec(base, (e_c * cv) % q));
            assert(y2.enc() == C::mul_spec(base, (kappa * z_r@) % q));
            assert(y3.enc() == C::mul_spec(base, (eta * z_m@) % q));
            assert(y12.enc() == C::mul_spec(base, ((e_c * cv) % q + (kappa * z_r@) % q) % q));
            lemma_com_eq_exponents(kappa, eta, rr, m, cv, rho, alpha);
            assert(a_2.enc() == C::mul_spec(base, commit_exponent(kappa, eta, rho, alpha)));
            assert(w1.enc() == C::mul_spec(base, (e_m * cv) % q));
            assert(w2.enc() == C::mul_spec(base, (gamma_c * z_m@) % q));
            assert(w3.enc() == C::mul_spec(base, (eta_c * z_s@) % q));
            assert(w12.enc() == C::mul_spec(base, ((e_m * cv) % q + (gamma_c * z_m@) % q) % q));
            lemma_com_eq_exponents(gamma_c, eta_c, m, s, cv, alpha, sigma);
            assert(a_3.enc() == C::mul_spec(base, commit_exponent(gamma_c, eta_c, alpha, sigma)));
        }
    }
    r
}

} // verus!
