//! Proof that a commitment `C = v·g + r·h` holds the discrete logarithm of
//! `y = v·base`: knowledge of `(v, r)`.
use crate::bytes::be_value;
use crate::com_enc_eq::lemma_single_exponent;
use crate::com_eq_different_groups::lemma_com_eq_exponents;
use crate::curve::{on_curve, Curve};
use crate::dlog::{DecodeError, MAX_PROOF_ATTEMPTS};
use crate::pedersen::{
    commit_exponent, commit_spec, key_over, Commitment, CommitmentKey, Randomness, Value,
};
use crate::random_oracle::{digest_scalar, sha256_of, RandomOracle};
use crate::scalar::{
    fr_modulus, fr_mul, fr_random, fr_sub, fr_sub_spec, lemma_scalar_eq, Scalar, SCALAR_LENGTH,
};
use rand::rngs::StdRng;
use vstd::prelude::*;
use vstd::string::StringSliceAdditionalSpecFns;

verus! {

/// The label that starts this protocol's part of the transcript.
pub const COM_EQ_DOMAIN: &'static str = "com_eq";

/// What the prover knows: the value and the commitment's randomness.
#[derive(Clone, Copy, Debug, PartialEq, Eq, Structural)]
pub struct ComEqSecret {
    pub value: Value,
    pub randomness: Randomness,
}

/// The challenge and the responses `(z_v, z_r)`.
#[derive(Clone, Copy, Debug, PartialEq, Eq)]
pub struct ComEqProof {
    pub challenge: Scalar,
    pub witness: (Scalar, Scalar),
}

/// The public part of the statement, in the order it enters the transcript.
pub open spec fn com_eq_statement<C: Curve>(
    ro: Seq<u8>,
    commitment: Commitment<C>,
    y: C,
    cmm_key: CommitmentKey<C>,
    base: C,
) -> Seq<u8> {
    ro + COM_EQ_DOMAIN.spec_bytes() + cmm_key.0.enc() + cmm_key.1.enc() + base.enc()
        + commitment.0.enc() + y.enc()
}

/// The challenge for the first moves `a_1` and `a_2`.
pub open spec fn com_eq_challenge<C: Curve>(
    ro: Seq<u8>,
    commitment: Commitment<C>,
    y: C,
    cmm_key: CommitmentKey<C>,
    base: C,
    a_1: Seq<u8>,
    a_2: Seq<u8>,
) -> nat {
    digest_scalar(sha256_of(com_eq_statement(ro, commitment, y, cmm_key, base) + a_1 + a_2))
}

/// What the verifier accepts: the challenge is the one hashed from
/// `a_1 = c·C + z_v·g + z_r·h` and `a_2 = c·y + z_v·base`.
pub open spec fn com_eq_accepts<C: Curve>(
    ro: Seq<u8>,
    commitment: Commitment<C>,
    y: C,
    cmm_key: CommitmentKey<C>,
    base: C,
    proof: ComEqProof,
) -> bool {
    let c = proof.challenge@;
    let (z_v, z_r) = (proof.witness.0@, proof.witness.1@);
    let a_1 = C::add_spec(
        C::add_spec(C::mul_spec(commitment.0.enc(), c), C::mul_spec(cmm_key.0.enc(), z_v)),
        C::mul_spec(cmm_key.1.enc(), z_r),
    );
    let a_2 = C::add_spec(C::mul_spec(y.enc(), c), C::mul_spec(base.enc(), z_v));
    c == com_eq_challenge(ro, commitment, y, cmm_key, base, a_1, a_2)
}

/// `proof` is what an honest prover produces. Over a common point `B`:
/// the key is `(γ·B, η·B)` and `base = β·B`; the commitment is to `v` with
/// randomness `r` and `y = v·base`; the first moves use the masks `(α, ρ)`;
/// the responses are `α − c·v` and `ρ − c·r`.
pub open spec fn com_eq_honest<C: Curve>(
    ro: Seq<u8>,
    commitment: Commitment<C>,
    y: C,
    cmm_key: CommitmentKey<C>,
    base: C,
    proof: ComEqProof,
    b: Seq<u8>,
    gamma: nat,
    eta: nat,
    beta: nat,
    v: nat,
    r: nat,
    alpha: nat,
    rho: nat,
) -> bool {
    let c = proof.challenge@;
    let q = fr_modulus();
    &&& key_over(cmm_key, b, gamma, eta)
    &&& base.enc() == C::mul_spec(b, beta)
    &&& commitment.0.enc() == C::mul_spec(b, commit_exponent(gamma, eta, v, r))
    &&& y.enc() == C::mul_spec(b, (beta * v) % q)
    &&& c == com_eq_challenge(
        ro,
        commitment,
        y,
        cmm_key,
        base,
        C::mul_spec(b, commit_exponent(gamma, eta, alpha, rho)),
        C::mul_spec(b, (beta * alpha) % q),
    )
    &&& proof.witness.0@ == fr_sub_spec(alpha, (c * v) % q)
    &&& proof.witness.1@ == fr_sub_spec(rho, (c * r) % q)
}

impl ComEqProof {
    pub open spec fn wf(&self) -> bool {
        self.challenge.wf() && self.witness.0.wf() && self.witness.1.wf()
    }

    /// `b` is the encoding of the proof: the challenge, then `z_v` and
    /// `z_r`, 32 bytes each.
    pub open spec fn encodes(&self, b: Seq<u8>) -> bool {
        &&& b.len() == 96
        &&& be_value(b.subrange(0, 32)) == self.challenge@
        &&& be_value(b.subrange(32, 64)) == self.witness.0@
        &&& be_value(b.subrange(64, 96)) == self.witness.1@
    }

    /// The bytes that `from_bytes` accepts: three canonical scalars.
    pub open spec fn decodable(b: Seq<u8>) -> bool {
        &&& b.len() >= 96
        &&& be_value(b.subrange(0, 32)) < fr_modulus()
        &&& be_value(b.subrange(32, 64)) < fr_modulus()
        &&& be_value(b.subrange(64, 96)) < fr_modulus()
    }

    /// The encoding of the proof.
    pub fn to_bytes(&self) -> (r: Vec<u8>)
        ensures
            self.encodes(r@),
    {
        let mut out = self.challenge.to_bytes();
        let mut a = self.witness.0.to_bytes();
        let mut b = self.witness.1.to_bytes();
        let ghost (o0, a0, b0) = (out@, a@, b@);
        out.append(&mut a);
        out.append(&mut b);
        proof {
            assert(out@.subrange(0, 32) =~= o0);
            assert(out@.subrange(32, 64) =~= a0);
            assert(out@.subrange(64, 96) =~= b0);
        }
        out
    }

    /// Reads a proof from the first 96 bytes of `b`; bytes after them are ignored.
    pub fn from_bytes(b: &[u8]) -> (r: Result<ComEqProof, DecodeError>)
        ensures
            r.is_ok() == Self::decodable(b@),
            r matches Ok(q) ==> q.wf() && q.encodes(b@.subrange(0, 96)),
    {
        if b.len() < 3 * SCALAR_LENGTH {
            return Err(DecodeError::TooShort);
        }
        let (_, r1) = b.split_at(SCALAR_LENGTH);
        let (_, r2) = b.split_at(2 * SCALAR_LENGTH);
        proof {
            assert(r1@.subrange(0, 32) =~= b@.subrange(32, 64));
            assert(r2@.subrange(0, 32) =~= b@.subrange(64, 96));
            let s = b@.subrange(0, 96);
            assert(s.subrange(0, 32) =~= b@.subrange(0, 32));
            assert(s.subrange(32, 64) =~= b@.subrange(32, 64));
            assert(s.subrange(64, 96) =~= b@.subrange(64, 96));
        }
        match (Scalar::from_bytes(b), Scalar::from_bytes(r1), Scalar::from_bytes(r2)) {
            (Some(challenge), Some(z_v), Some(z_r)) => Ok(
                ComEqProof { challenge, witness: (z_v, z_r) },
            ),
            _ => Err(DecodeError::NonCanonicalScalar),
        }
    }
}

/// A proof is recovered from its encoding: `from_bytes` accepts the
/// encoding of every well-formed proof, and what it returns then is that proof.
pub proof fn lemma_com_eq_proof_round_trip(p: ComEqProof, q: ComEqProof, b: Seq<u8>)
    requires
        p.wf(),
        p.encodes(b),
    ensures
        ComEqProof::decodable(b),
        q.encodes(b.subrange(0, 96)) ==> q == p,
{
    assert(b.subrange(0, 96) =~= b);
    if q.encodes(b) {
        lemma_scalar_eq(p.challenge, q.challenge);
        lemma_scalar_eq(p.witness.0, q.witness.0);
        lemma_scalar_eq(p.witness.1, q.witness.1);
    }
}

/// The oracle after it has absorbed the label and the statement.
fn absorb_statement<C: Curve>(
    ro: RandomOracle,
    commitment: &Commitment<C>,
    y: &C,
    cmm_key: &CommitmentKey<C>,
    base: &C,
) -> (r: RandomOracle)
    ensures
        r@ == com_eq_statement(ro@, *commitment, *y, *cmm_key, *base),
{
    ro.append_bytes(COM_EQ_DOMAIN.as_bytes()).append(&cmm_key.0).append(&cmm_key.1).append(base).append(
        &commitment.0,
    ).append(y)
}

/// The proof with masks `(α, ρ)`: first moves `a_1 = α·g + ρ·h` and
/// `a_2 = α·base`; none where the challenge is zero.
pub fn prove_com_eq_with_masks<C: Curve>(
    ro: RandomOracle,
    commitment: &Commitment<C>,
    y: &C,
    cmm_key: &CommitmentKey<C>,
    base: &C,
    secret: &ComEqSecret,
    alpha: &Scalar,
    rho: &Scalar,
) -> (r: Option<ComEqProof>)
    requires
        cmm_key.wf(),
        on_curve(*base),
        secret.value.value.wf(),
        secret.randomness.randomness.wf(),
        alpha.wf(),
        rho.wf(),
    ensures
        ({
            let a_1 = commit_spec(*cmm_key, alpha@, rho@);
            let a_2 = C::mul_spec(base.enc(), alpha@);
            let c = com_eq_challenge(ro@, *commitment, *y, *cmm_key, *base, a_1, a_2);
            &&& r.is_some() == (c != 0)
            &&& forall|b: Seq<u8>, gamma: nat, eta: nat|
                #[trigger] key_over(*cmm_key, b, gamma, eta) ==> a_1 == C::mul_spec(
                    b,
                    commit_exponent(gamma, eta, alpha@, rho@),
                )
            &&& forall|b: Seq<u8>, beta: nat|
                #![trigger C::mul_spec(b, beta)]
                C::decodes_spec(b) && base.enc() == C::mul_spec(b, beta) ==> a_2 == C::mul_spec(
                    b,
                    (beta * alpha@) % fr_modulus(),
                )
            &&& r matches Some(p) ==> {
                &&& p.wf()
                &&& p.challenge@ == c
                &&& p.witness.0@ == fr_sub_spec(alpha@, (c * secret.value.value@) % fr_modulus())
                &&& p.witness.1@ == fr_sub_spec(
                    rho@,
                    (c * secret.randomness.randomness@) % fr_modulus(),
                )
            }
        }),
{
    let hasher = absorb_statement(ro, commitment, y, cmm_key, base);
    let a_1 = cmm_key.commit_with(&Value { value: *alpha }, &Randomness { randomness: *rho });
    let a_2 = base.mul_by_scalar(alpha);
    let challenge = hasher.append(&a_1.0).finish_to_scalar(&a_2);
    if challenge.is_zero() {
        return None;
    }
    let z_v = fr_sub(alpha, &fr_mul(&challenge, &secret.value.value));
    let z_r = fr_sub(rho, &fr_mul(&challenge, &secret.randomness.randomness));
    Some(ComEqProof { challenge, witness: (z_v, z_r) })
}

/// A proof that `commitment` (under `cmm_key`) holds the discrete logarithm
/// of `y` to `base`, bound to `ro`. The prover draws fresh masks until the
/// challenge is non-zero, and returns none if that has not happened after
/// `MAX_PROOF_ATTEMPTS` draws.
pub fn prove_com_eq<C: Curve>(
    ro: RandomOracle,
    commitment: &Commitment<C>,
    y: &C,
    cmm_key: &CommitmentKey<C>,
    base: &C,
    secret: &ComEqSecret,
    csprng: &mut StdRng,
) -> (r: Option<ComEqProof>)
    requires
        cmm_key.wf(),
        on_curve(*base),
        secret.value.value.wf(),
        secret.randomness.randomness.wf(),
    ensures
        r matches Some(p) ==> {
            &&& p.wf()
            &&& p.challenge@ != 0
            &&& forall|b: Seq<u8>, gamma: nat, eta: nat, beta: nat|
                #![trigger key_over(*cmm_key, b, gamma, eta), C::mul_spec(b, beta)]
                key_over(*cmm_key, b, gamma, eta) && base.enc() == C::mul_spec(b, beta)
                    && commitment.0.enc() == C::mul_spec(
                    b,
                    commit_exponent(
                        gamma,
                        eta,
                        secret.value.value@,
                        secret.randomness.randomness@,
                    ),
                ) && y.enc() == C::mul_spec(b, (beta * secret.value.value@) % fr_modulus())
                    ==> exists|alpha: nat, rho: nat|
                    #[trigger] com_eq_honest(
                        ro@,
                        *commitment,
                        *y,
                        *cmm_key,
                        *base,
                        p,
                        b,
                        gamma,
                        eta,
                        beta,
                        secret.value.value@,
                        secret.randomness.randomness@,
                        alpha,
                        rho,
                    )
        },
{
    let mut attempts: u32 = 0;
    while attempts < MAX_PROOF_ATTEMPTS
        invariant
            cmm_key.wf(),
            on_curve(*base),
            secret.value.value.wf(),
            secret.randomness.randomness.wf(),
        decreases MAX_PROOF_ATTEMPTS - attempts,
    {
        let alpha = fr_random(csprng);
        let rho = fr_random(csprng);
        let r = prove_com_eq_with_masks(ro.split(), commitment, y, cmm_key, base, secret, &alpha, &rho);
        if let Some(p) = r {
            assert forall|b: Seq<u8>, gamma: nat, eta: nat, beta: nat|
                #![trigger key_over(*cmm_key, b, gamma, eta), C::mul_spec(b, beta)]
                key_over(*cmm_key, b, gamma, eta) && base.enc() == C::mul_spec(b, beta)
                    && commitment.0.enc() == C::mul_spec(
                    b,
                    commit_exponent(
                        gamma,
                        eta,
                        secret.value.value@,
                        secret.randomness.randomness@,
                    ),
                ) && y.enc() == C::mul_spec(b, (beta * secret.value.value@) % fr_modulus())
                    implies exists|alpha: nat, rho: nat|
                    #[trigger] com_eq_honest(
                        ro@,
                        *commitment,
                        *y,
                        *cmm_key,
                        *base,
                        p,
                        b,
                        gamma,
                        eta,
                        beta,
                        secret.value.value@,
                        secret.randomness.randomness@,
                        alpha,
                        rho,
                    ) by {
                assert(com_eq_honest(
                    ro@,
                    *commitment,
                    *y,
                    *cmm_key,
                    *base,
                    p,
                    b,
                    gamma,
                    eta,
                    beta,
                    secret.value.value@,
                    secret.randomness.randomness@,
                    alpha@,
                    rho@,
                ));
            }
            return Some(p);
        }
        attempts = attempts + 1;
    }
    None
}

/// Checks a proof that `commitment` holds the discrete logarithm of `y` to
/// `base`.
///
/// Every proof that an honest prover makes for a true statement is accepted.
pub fn verify_com_eq<C: Curve>(
    ro: RandomOracle,
    commitment: &Commitment<C>,
    y: &C,
    cmm_key: &CommitmentKey<C>,
    base: &C,
    proof: &ComEqProof,
) -> (r: bool)
    requires
        cmm_key.wf(),
        on_curve(*base),
        on_curve(*y),
        on_curve(commitment.0),
        proof.wf(),
    ensures
        r == com_eq_accepts(ro@, *commitment, *y, *cmm_key, *base, *proof),
        forall|
            b: Seq<u8>,
            gamma: nat,
            eta: nat,
            beta: nat,
            v: nat,
            rr: nat,
            alpha: nat,
            rho: nat,
        |
            #[trigger] com_eq_honest(
                ro@,
                *commitment,
                *y,
                *cmm_key,
                *base,
                *proof,
                b,
                gamma,
                eta,
                beta,
                v,
                rr,
                alpha,
                rho,
            ) ==> r,
{
    let ghost ro_v = ro@;
    let (z_v, z_r) = proof.witness;
    let c = proof.challenge;
    let w1 = commitment.0.mul_by_scalar(&c);
    let w2 = cmm_key.0.mul_by_scalar(&z_v);
    let w3 = cmm_key.1.mul_by_scalar(&z_r);
    let w12 = w1.plus_point(&w2);
    let a_1 = w12.plus_point(&w3);
    let x1 = y.mul_by_scalar(&c);
    let x2 = base.mul_by_scalar(&z_v);
    let a_2 = x1.plus_point(&x2);
    let hasher = absorb_statement(ro, commitment, y, cmm_key, base);
    let computed = hasher.append(&a_1).finish_to_scalar(&a_2);
    proof {
        lemma_scalar_eq(computed, proof.challenge);
    }
    let r = computed == proof.challenge;
    proof {
        assert forall|
            b: Seq<u8>,
            gamma: nat,
            eta: nat,
            beta: nat,
            v: nat,
            rr: nat,
            alpha: nat,
            rho: nat,
        |
            #[trigger] com_eq_honest(
                ro_v,
                *commitment,
                *y,
                *cmm_key,
                *base,
                *proof,
                b,
                gamma,
                eta,
                beta,
                v,
                rr,
                alpha,
                rho,
            ) implies r by {
            let q = fr_modulus();
            let cv = c@;
            let e = commit_exponent(gamma, eta, v, rr);
            assert(w1.enc() == C::mul_spec(b, (e * cv) % q));
            assert(w2.enc() == C::mul_spec(b, (gamma * z_v@) % q));
            assert(w3.enc() == C::mul_spec(b, (eta * z_r@) % q));
            assert(w12.enc() == C::mul_spec(b, ((e * cv) % q + (gamma * z_v@) % q) % q));
            lemma_com_eq_exponents(gamma, eta, v, rr, cv, alpha, rho);
            assert(a_1.enc() == C::mul_spec(b, commit_exponent(gamma, eta, alpha, rho)));
            assert(x1.enc() == C::mul_spec(b, (((beta * v) % q) * cv) % q));
            assert(x2.enc() == C::mul_spec(b, (beta * z_v@) % q));
            lemma_single_exponent(beta, v, cv, alpha);
            assert(a_2.enc() == C::mul_spec(b, (beta * alpha) % q));
        }
    }
    r
}

} // verus!
