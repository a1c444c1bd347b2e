//! Proof that two commitments, in two (possibly different) groups of the same
//! order r, commit to the same value.
use crate::bytes::be_value;
use crate::curve::{on_curve, Curve};
use crate::dlog::{DecodeError, MAX_PROOF_ATTEMPTS};
use crate::pedersen::{
    commit_exponent, commit_spec, key_over, Commitment, CommitmentKey, Randomness, Value,
};
use crate::random_oracle::{digest_scalar, sha256_of, RandomOracle};
use crate::scalar::{
    fr_modulus, fr_mul, fr_random, fr_sub, fr_sub_spec, lemma_scalar_eq, Scalar, SCALAR_LENGTH,
};
use rand::rngs::StdRng;
use vstd::prelude::*;
use vstd::string::StringSliceAdditionalSpecFns;

verus! {

/// The label that starts this protocol's part of the transcript.
pub const COM_EQ_DOMAIN: &'static str = "com_eq_different_groups";

/// What the prover knows: the value and the blinding of each commitment.
#[derive(Clone, Copy, Debug, PartialEq, Eq, Structural)]
pub struct ComEqDiffGrpsSecret {
    pub value: Value,
    pub rand_cmm_1: Randomness,
    pub rand_cmm_2: Randomness,
}

/// The challenge and the responses `(s_1, s_2, t)`.
#[derive(Clone, Copy, Debug, PartialEq, Eq)]
pub struct ComEqDiffGrpsProof {
    pub challenge: Scalar,
    pub witness: (Scalar, Scalar, Scalar),
}

/// The transcript from which the challenge is hashed: the oracle's state,
/// the label, both keys, both commitments, then the first moves `u` and `v`.
pub open spec fn com_eq_transcript<C1: Curve, C2: Curve>(
    ro: Seq<u8>,
    commitment_1: Commitment<C1>,
    commitment_2: Commitment<C2>,
    cmm_key_1: CommitmentKey<C1>,
    cmm_key_2: CommitmentKey<C2>,
    u: Seq<u8>,
    v: Seq<u8>,
) -> Seq<u8> {
    ro + COM_EQ_DOMAIN.spec_bytes() + cmm_key_1.0.enc() + cmm_key_1.1.enc() + cmm_key_2.0.enc()
        + cmm_key_2.1.enc() + commitment_1.0.enc() + commitment_2.0.enc() + u + v
}

/// The challenge for the first moves `u` and `v`.
pub open spec fn com_eq_challenge<C1: Curve, C2: Curve>(
    ro: Seq<u8>,
    commitment_1: Commitment<C1>,
    commitment_2: Commitment<C2>,
    cmm_key_1: CommitmentKey<C1>,
    cmm_key_2: CommitmentKey<C2>,
    u: Seq<u8>,
    v: Seq<u8>,
) -> nat {
    digest_scalar(
        sha256_of(com_eq_transcript(ro, commitment_1, commitment_2, cmm_key_1, cmm_key_2, u, v)),
    )
}

/// The first move that the verifier recomputes in the first group:
/// `c·C_1 + s_1·g_1 + s_2·h_1`.
pub open spec fn com_eq_u<C1: Curve>(
    commitment_1: Commitment<C1>,
    cmm_key_1: CommitmentKey<C1>,
    proof: ComEqDiffGrpsProof,
) -> Seq<u8> {
    C1::add_spec(
        C1::add_spec(
            C1::mul_spec(commitment_1.0.enc(), proof.challenge@),
            C1::mul_spec(cmm_key_1.0.enc(), proof.witness.0@),
        ),
        C1::mul_spec(cmm_key_1.1.enc(), proof.witness.1@),
    )
}

/// The first move that the verifier recomputes in the second group:
/// `c·C_2 + s_1·g_2 + t·h_2`.
pub open spec fn com_eq_v<C2: Curve>(
    commitment_2: Commitment<C2>,
    cmm_key_2: CommitmentKey<C2>,
    proof: ComEqDiffGrpsProof,
) -> Seq<u8> {
    C2::add_spec(
        C2::add_spec(
            C2::mul_spec(commitment_2.0.enc(), proof.challenge@),
            C2::mul_spec(cmm_key_2.0.enc(), proof.witness.0@),
        ),
        C2::mul_spec(cmm_key_2.1.enc(), proof.witness.2@),
    )
}

/// `proof` is what an honest prover produces: `cmm_key_1 = (γ_1·B_1, η_1·B_1)`
/// and `cmm_key_2 = (γ_2·B_2, η_2·B_2)`, the commitments are to the same
/// value `a` with blindings `r_1` and `r_2`, the first moves are the
/// commitments to `α_1` with blindings `α_2` and `α_3`, the challenge is
/// hashed from them, and the responses are `α_1 − c·a`, `α_2 − c·r_1` and
/// `α_3 − c·r_2`.
pub open spec fn com_eq_honest<C1: Curve, C2: Curve>(
    ro: Seq<u8>,
    commitment_1: Commitment<C1>,
    commitment_2: Commitment<C2>,
    cmm_key_1: CommitmentKey<C1>,
    cmm_key_2: CommitmentKey<C2>,
    proof: ComEqDiffGrpsProof,
    base_1: Seq<u8>,
    gamma_1: nat,
    eta_1: nat,
    base_2: Seq<u8>,
    gamma_2: nat,
    eta_2: nat,
    a: nat,
    r_1: nat,
    r_2: nat,
    alpha_1: nat,
    alpha_2: nat,
    alpha_3: nat,
) -> bool {
    let c = proof.challenge@;
    let q = fr_modulus();
    &&& key_over(cmm_key_1, base_1, gamma_1, eta_1)
    &&& key_over(cmm_key_2, base_2, gamma_2, eta_2)
    &&& commitment_1.0.enc() == C1::mul_spec(base_1, commit_exponent(gamma_1, eta_1, a, r_1))
    &&& commitment_2.0.enc() == C2::mul_spec(base_2, commit_exponent(gamma_2, eta_2, a, r_2))
    &&& c == com_eq_challenge(
        ro,
        commitment_1,
        commitment_2,
        cmm_key_1,
        cmm_key_2,
        C1::mul_spec(base_1, commit_exponent(gamma_1, eta_1, alpha_1, alpha_2)),
        C2::mul_spec(base_2, commit_exponent(gamma_2, eta_2, alpha_1, alpha_3)),
    )
    &&& proof.witness.0@ == fr_sub_spec(alpha_1, (c * a) % q)
    &&& proof.witness.1@ == fr_sub_spec(alpha_2, (c * r_1) % q)
    &&& proof.witness.2@ == fr_sub_spec(alpha_3, (c * r_2) % q)
}

/// The exponent that the verifier recomputes, `c·e + γ·s_1 + η·s_2` with
/// `e` the exponent of the commitment, is that of the prover's first move.
#[verifier::rlimit(40)]
pub proof fn lemma_com_eq_exponents(
    gamma: nat,
    eta: nat,
    a: nat,
    r: nat,
    c: nat,
    alpha_1: nat,
    alpha_2: nat,
)
    ensures
        ({
            let q = fr_modulus();
            let e = commit_exponent(gamma, eta, a, r);
            let s_1 = fr_sub_spec(alpha_1, (c * a) % q);
            let s_2 = fr_sub_spec(alpha_2, (c * r) % q);
            let x = ((e * c) % q + (gamma * s_1) % q) % q;
            (x + (eta * s_2) % q) % q == commit_exponent(gamma, eta, alpha_1, alpha_2)
        }),
{
    let q = fr_modulus() as int;
    let (gi, ei, ai, ri, ci, a1, a2) = (
        gamma as int,
        eta as int,
        a as int,
        r as int,
        c as int,
        alpha_1 as int,
        alpha_2 as int,
    );
    let big_e = gi * ai + ei * ri;
    let e = commit_exponent(gamma, eta, a, r) as int;
    vstd::arithmetic::div_mod::lemma_add_mod_noop(gi * ai, ei * ri, q);
    assert(e == big_e % q);
    vstd::arithmetic::div_mod::lemma_mul_mod_noop_left(big_e, ci, q);
    let s_1 = fr_sub_spec(alpha_1, (c * a) % fr_modulus()) as int;
    vstd::arithmetic::div_mod::lemma_sub_mod_noop_right(a1 + q, ci * ai, q);
    vstd::arithmetic::div_mod::lemma_mod_add_multiples_vanish(a1 - ci * ai, q);
    assert(s_1 == (a1 - ci * ai) % q);
    vstd::arithmetic::div_mod::lemma_mul_mod_noop_right(gi, a1 - ci * ai, q);
    let s_2 = fr_sub_spec(alpha_2, (c * r) % fr_modulus()) as int;
    vstd::arithmetic::div_mod::lemma_sub_mod_noop_right(a2 + q, ci * ri, q);
    vstd::arithmetic::div_mod::lemma_mod_add_multiples_vanish(a2 - ci * ri, q);
    assert(s_2 == (a2 - ci * ri) % q);
    vstd::arithmetic::div_mod::lemma_mul_mod_noop_right(ei, a2 - ci * ri, q);
    let t1 = big_e * ci;
    let t2 = gi * (a1 - ci * ai);
    let t3 = ei * (a2 - ci * ri);
    vstd::arithmetic::div_mod::lemma_add_mod_noop(t1, t2, q);
    vstd::arithmetic::div_mod::lemma_add_mod_noop(t1 + t2, t3, q);
    assert(t1 == gi * ai * ci + ei * ri * ci) by (nonlinear_arith)
        requires
            t1 == big_e * ci,
            big_e == gi * ai + ei * ri,
    ;
    assert(t2 == gi * a1 - gi * (ci * ai)) by (nonlinear_arith)
        requires
            t2 == gi * (a1 - ci * ai),
    ;
    assert(t3 == ei * a2 - ei * (ci * ri)) by (nonlinear_arith)
        requires
            t3 == ei * (a2 - ci * ri),
    ;
    assert(gi * ai * ci == gi * (ci * ai)) by (nonlinear_arith);
    assert(ei * ri * ci == ei * (ci * ri)) by (nonlinear_arith);
    assert(t1 + t2 + t3 == gi * a1 + ei * a2);
    vstd::arithmetic::div_mod::lemma_add_mod_noop(gi * a1, ei * a2, q);
    assert((e * ci) % q == t1 % q);
}

impl ComEqDiffGrpsProof {
    pub open spec fn wf(&self) -> bool {
        self.challenge.wf() && self.witness.0.wf() && self.witness.1.wf() && self.witness.2.wf()
    }

    /// `b` is the encoding of the proof: the challenge, then `s_1`, `s_2`
    /// and `t`, 32 bytes each.
    pub open spec fn encodes(&self, b: Seq<u8>) -> bool {
        &&& b.len() == 128
        &&& be_value(b.subrange(0, 32)) == self.challenge@
        &&& be_value(b.subrange(32, 64)) == self.witness.0@
        &&& be_value(b.subrange(64, 96)) == self.witness.1@
        &&& be_value(b.subrange(96, 128)) == self.witness.2@
    }

    /// The bytes that `from_bytes` accepts: four canonical scalars.
    pub open spec fn decodable(b: Seq<u8>) -> bool {
        &&& b.len() >= 128
        &&& be_value(b.subrange(0, 32)) < fr_modulus()
        &&& be_value(b.subrange(32, 64)) < fr_modulus()
        &&& be_value(b.subrange(64, 96)) < fr_modulus()
        &&& be_value(b.subrange(96, 128)) < fr_modulus()
    }

    /// The encoding of the proof.
    pub fn to_bytes(&self) -> (r: Vec<u8>)
        ensures
            self.encodes(r@),
    {
        let mut out = self.challenge.to_bytes();
        let mut a = self.witness.0.to_bytes();
        let mut b = self.witness.1.to_bytes();
        let mut c = self.witness.2.to_bytes();
        let ghost (o0, a0, b0, c0) = (out@, a@, b@, c@);
        out.append(&mut a);
        out.append(&mut b);
        out.append(&mut c);
        proof {
            assert(out@.subrange(0, 32) =~= o0);
            assert(out@.subrange(32, 64) =~= a0);
            assert(out@.subrange(64, 96) =~= b0);
            assert(out@.subrange(96, 128) =~= c0);
        }
        out
    }

    /// Reads a proof from the first 128 bytes of `b`; bytes after them are ignored.
    pub fn from_bytes(b: &[u8]) -> (r: Result<ComEqDiffGrpsProof, DecodeError>)
        ensures
            r.is_ok() == Self::decodable(b@),
            r matches Ok(q) ==> q.wf() && q.encodes(b@.subrange(0, 128)),
    {
        if b.len() < 4 * SCALAR_LENGTH {
            return Err(DecodeError::TooShort);
        }
        let (_, r1) = b.split_at(SCALAR_LENGTH);
        let (_, r2) = b.split_at(2 * SCALAR_LENGTH);
        let (_, r3) = b.split_at(3 * SCALAR_LENGTH);
        proof {
            assert(r1@.subrange(0, 32) =~= b@.subrange(32, 64));
            assert(r2@.subrange(0, 32) =~= b@.subrange(64, 96));
            assert(r3@.subrange(0, 32) =~= b@.subrange(96, 128));
            let s = b@.subrange(0, 128);
            assert(s.subrange(0, 32) =~= b@.subrange(0, 32));
            assert(s.subrange(32, 64) =~= b@.subrange(32, 64));
            assert(s.subrange(64, 96) =~= b@.subrange(64, 96));
            assert(s.subrange(96, 128) =~= b@.subrange(96, 128));
        }
        let challenge = Scalar::from_bytes(b);
        let s_1 = Scalar::from_bytes(r1);
        let s_2 = Scalar::from_bytes(r2);
        let t = Scalar::from_bytes(r3);
        match (challenge, s_1, s_2, t) {
            (Some(challenge), Some(s_1), Some(s_2), Some(t)) => Ok(
                ComEqDiffGrpsProof { challenge, witness: (s_1, s_2, t) },
            ),
            _ => Err(DecodeError::NonCanonicalScalar),
        }
    }
}

/// A proof is recovered from its encoding: `from_bytes` accepts the
/// encoding of every well-formed proof, and what it returns then is that proof.
pub proof fn lemma_com_eq_proof_round_trip(p: ComEqDiffGrpsProof, q: ComEqDiffGrpsProof, b: Seq<u8>)
    requires
        p.wf(),
        p.encodes(b),
    ensures
        ComEqDiffGrpsProof::decodable(b),
        q.encodes(b.subrange(0, 128)) ==> q == p,
{
    assert(b.subrange(0, 128) =~= b);
    if q.encodes(b) {
        lemma_scalar_eq(p.challenge, q.challenge);
        lemma_scalar_eq(p.witness.0, q.witness.0);
        lemma_scalar_eq(p.witness.1, q.witness.1);
        lemma_scalar_eq(p.witness.2, q.witness.2);
    }
}

/// The oracle after it has absorbed the label, both keys and both commitments.
fn com_eq_statement<C1: Curve, C2: Curve>(
    ro: RandomOracle,
    commitment_1: &Commitment<C1>,
    commitment_2: &Commitment<C2>,
    cmm_key_1: &CommitmentKey<C1>,
    cmm_key_2: &CommitmentKey<C2>,
) -> (r: RandomOracle)
    ensures
        r@ == ro@ + COM_EQ_DOMAIN.spec_bytes() + cmm_key_1.0.enc() + cmm_key_1.1.enc()
            + cmm_key_2.0.enc() + cmm_key_2.1.enc() + commitment_1.0.enc() + commitment_2.0.enc(),
{
    ro.append_bytes(COM_EQ_DOMAIN.as_bytes()).append(&cmm_key_1.0).append(&cmm_key_1.1).append(
        &cmm_key_2.0,
    ).append(&cmm_key_2.1).append(&commitment_1.0).append(&commitment_2.0)
}

/// The proof with first moves `u = α_1·g_1 + α_2·h_1` and
/// `v = α_1·g_2 + α_3·h_2`; none where the challenge is zero.
pub fn prove_com_eq_diff_grps_with_masks<C1: Curve, C2: Curve>(
    ro: RandomOracle,
    commitment_1: &Commitment<C1>,
    commitment_2: &Commitment<C2>,
    cmm_key_1: &CommitmentKey<C1>,
    cmm_key_2: &CommitmentKey<C2>,
    secret: &ComEqDiffGrpsSecret,
    alpha_1: &Scalar,
    alpha_2: &Scalar,
    alpha_3: &Scalar,
) -> (r: Option<ComEqDiffGrpsProof>)
    requires
        cmm_key_1.wf(),
        cmm_key_2.wf(),
        secret.value.value.wf(),
        secret.rand_cmm_1.randomness.wf(),
        secret.rand_cmm_2.randomness.wf(),
        alpha_1.wf(),
        alpha_2.wf(),
        alpha_3.wf(),
    ensures
        ({
            let c = com_eq_challenge(
                ro@,
                *commitment_1,
                *commitment_2,
                *cmm_key_1,
                *cmm_key_2,
                commit_spec(*cmm_key_1, alpha_1@, alpha_2@),
                commit_spec(*cmm_key_2, alpha_1@, alpha_3@),
            );
            &&& r.is_some() == (c != 0)
            &&& forall|b: Seq<u8>, gamma: nat, eta: nat|
                #[trigger] key_over(*cmm_key_1, b, gamma, eta) ==> commit_spec(
                    *cmm_key_1,
                    alpha_1@,
                    alpha_2@,
                ) == C1::mul_spec(b, commit_exponent(gamma, eta, alpha_1@, alpha_2@))
            &&& forall|b: Seq<u8>, gamma: nat, eta: nat|
                #[trigger] key_over(*cmm_key_2, b, gamma, eta) ==> commit_spec(
                    *cmm_key_2,
                    alpha_1@,
                    alpha_3@,
                ) == C2::mul_spec(b, commit_exponent(gamma, eta, alpha_1@, alpha_3@))
            &&& r matches Some(p) ==> {
                &&& p.wf()
                &&& p.challenge@ == c
                &&& p.witness.0@ == fr_sub_spec(
                    alpha_1@,
                    (c * secret.value.value@) % fr_modulus(),
                )
                &&& p.witness.1@ == fr_sub_spec(
                    alpha_2@,
                    (c * secret.rand_cmm_1.randomness@) % fr_modulus(),
                )
                &&& p.witness.2@ == fr_sub_spec(
                    alpha_3@,
                    (c * secret.rand_cmm_2.randomness@) % fr_modulus(),
                )
            }
        }),
{
    let hasher = com_eq_statement(ro, commitment_1, commitment_2, cmm_key_1, cmm_key_2);
    let u = cmm_key_1.commit_with(&Value { value: *alpha_1 }, &Randomness { randomness: *alpha_2 });
    let v = cmm_key_2.commit_with(&Value { value: *alpha_1 }, &Randomness { randomness: *alpha_3 });
    let challenge = hasher.append(&u.0).finish_to_scalar(&v.0);
    if challenge.is_zero() {
        return None;
    }
    let s_1 = fr_sub(alpha_1, &fr_mul(&challenge, &secret.value.value));
    let s_2 = fr_sub(alpha_2, &fr_mul(&challenge, &secret.rand_cmm_1.randomness));
    let t = fr_sub(alpha_3, &fr_mul(&challenge, &secret.rand_cmm_2.randomness));
    Some(ComEqDiffGrpsProof { challenge, witness: (s_1, s_2, t) })
}

/// A proof that `commitment_1` (under `cmm_key_1`) and `commitment_2` (under
/// `cmm_key_2`) commit to the same value, bound to the transcript `ro`. The
/// prover draws fresh masks until the challenge is non-zero, and returns none
/// if that has not happened after `MAX_PROOF_ATTEMPTS` draws.
pub fn prove_com_eq_diff_grps<C1: Curve, C2: Curve>(
    ro: RandomOracle,
    commitment_1: &Commitment<C1>,
    commitment_2: &Commitment<C2>,
    cmm_key_1: &CommitmentKey<C1>,
    cmm_key_2: &CommitmentKey<C2>,
    secret: &ComEqDiffGrpsSecret,
    csprng: &mut StdRng,
) -> (r: Option<ComEqDiffGrpsProof>)
    requires
        cmm_key_1.wf(),
        cmm_key_2.wf(),
        secret.value.value.wf(),
        secret.rand_cmm_1.randomness.wf(),
        secret.rand_cmm_2.randomness.wf(),
    ensures
        r matches Some(p) ==> {
            &&& p.wf()
            &&& p.challenge@ != 0
            &&& exists|a_1: nat, a_2: nat, a_3: nat|
                {
                    &&& a_1 < fr_modulus()
                    &&& a_2 < fr_modulus()
                    &&& a_3 < fr_modulus()
                    &&& #[trigger] com_eq_challenge(
                        ro@,
                        *commitment_1,
                        *commitment_2,
                        *cmm_key_1,
                        *cmm_key_2,
                        commit_spec(*cmm_key_1, a_1, a_2),
                        commit_spec(*cmm_key_2, a_1, a_3),
                    ) == p.challenge@
                    &&& p.witness.0@ == fr_sub_spec(
                        a_1,
                        (p.challenge@ * secret.value.value@) % fr_modulus(),
                    )
                    &&& p.witness.1@ == fr_sub_spec(
                        a_2,
                        (p.challenge@ * secret.rand_cmm_1.randomness@) % fr_modulus(),
                    )
                    &&& p.witness.2@ == fr_sub_spec(
                        a_3,
                        (p.challenge@ * secret.rand_cmm_2.randomness@) % fr_modulus(),
                    )
                }
            &&& forall|
                base_1: Seq<u8>,
                gamma_1: nat,
                eta_1: nat,
                base_2: Seq<u8>,
                gamma_2: nat,
                eta_2: nat,
            |
                #![trigger key_over(*cmm_key_1, base_1, gamma_1, eta_1), key_over(*cmm_key_2, base_2, gamma_2, eta_2)]
                key_over(*cmm_key_1, base_1, gamma_1, eta_1) && key_over(
                    *cmm_key_2,
                    base_2,
                    gamma_2,
                    eta_2,
                ) && commitment_1.0.enc() == C1::mul_spec(
                    base_1,
                    commit_exponent(
                        gamma_1,
                        eta_1,
                        secret.value.value@,
                        secret.rand_cmm_1.randomness@,
                    ),
                ) && commitment_2.0.enc() == C2::mul_spec(
                    base_2,
                    commit_exponent(
                        gamma_2,
                        eta_2,
                        secret.value.value@,
                        secret.rand_cmm_2.randomness@,
                    ),
                ) ==> exists|a_1: nat, a_2: nat, a_3: nat|
                    #[trigger] com_eq_honest(
                        ro@,
                        *commitment_1,
                        *commitment_2,
                        *cmm_key_1,
                        *cmm_key_2,
                        p,
                        base_1,
                        gamma_1,
                        eta_1,
                        base_2,
                        gamma_2,
                        eta_2,
                        secret.value.value@,
                        secret.rand_cmm_1.randomness@,
                        secret.rand_cmm_2.randomness@,
                        a_1,
                        a_2,
                        a_3,
                    )
        },
{
    let mut attempts: u32 = 0;
    while attempts < MAX_PROOF_ATTEMPTS
        invariant
            cmm_key_1.wf(),
            cmm_key_2.wf(),
            secret.value.value.wf(),
            secret.rand_cmm_1.randomness.wf(),
            secret.rand_cmm_2.randomness.wf(),
        decreases MAX_PROOF_ATTEMPTS - attempts,
    {
        let alpha_1 = fr_random(csprng);
        let alpha_2 = fr_random(csprng);
        let alpha_3 = fr_random(csprng);
        let r = prove_com_eq_diff_grps_with_masks(
            ro.split(),
            commitment_1,
            commitment_2,
            cmm_key_1,
            cmm_key_2,
            secret,
            &alpha_1,
            &alpha_2,
            &alpha_3,
        );
        if let Some(p) = r {
            assert(com_eq_challenge(
                ro@,
                *commitment_1,
                *commitment_2,
                *cmm_key_1,
                *cmm_key_2,
                commit_spec(*cmm_key_1, alpha_1@, alpha_2@),
                commit_spec(*cmm_key_2, alpha_1@, alpha_3@),
            ) == p.challenge@);
            assert forall|
                base_1: Seq<u8>,
                gamma_1: nat,
                eta_1: nat,
                base_2: Seq<u8>,
                gamma_2: nat,
                eta_2: nat,
            |
                #![trigger key_over(*cmm_key_1, base_1, gamma_1, eta_1), key_over(*cmm_key_2, base_2, gamma_2, eta_2)]
                key_over(*cmm_key_1, base_1, gamma_1, eta_1) && key_over(
                    *cmm_key_2,
                    base_2,
                    gamma_2,
                    eta_2,
                ) && commitment_1.0.enc() == C1::mul_spec(
                    base_1,
                    commit_exponent(
                        gamma_1,
                        eta_1,
                        secret.value.value@,
                        secret.rand_cmm_1.randomness@,
                    ),
                ) && commitment_2.0.enc() == C2::mul_spec(
                    base_2,
                    commit_exponent(
                        gamma_2,
                        eta_2,
                        secret.value.value@,
                        secret.rand_cmm_2.randomness@,
                    ),
                ) implies exists|a_1: nat, a_2: nat, a_3: nat|
                    #[trigger] com_eq_honest(
                        ro@,
                        *commitment_1,
                        *commitment_2,
                        *cmm_key_1,
                        *cmm_key_2,
                        p,
                        base_1,
                        gamma_1,
                        eta_1,
                        base_2,
                        gamma_2,
                        eta_2,
                        secret.value.value@,
                        secret.rand_cmm_1.randomness@,
                        secret.rand_cmm_2.randomness@,
                        a_1,
                        a_2,
                        a_3,
                    ) by {
                assert(com_eq_honest(
                    ro@,
                    *commitment_1,
                    *commitment_2,
                    *cmm_key_1,
                    *cmm_key_2,
                    p,
                    base_1,
                    gamma_1,
                    eta_1,
                    base_2,
                    gamma_2,
                    eta_2,
                    secret.value.value@,
                    secret.rand_cmm_1.randomness@,
                    secret.rand_cmm_2.randomness@,
                    alpha_1@,
                    alpha_2@,
                    alpha_3@,
                ));
            }
            return Some(p);
        }
        attempts = attempts + 1;
    }
    None
}

/// Checks a proof that `commitment_1` and `commitment_2` commit to the same
/// value: the challenge must equal the one hashed from the statement and
/// the first moves that the responses give back.
///
/// Every proof that an honest prover makes for a true statement is accepted.
pub fn verify_com_eq_diff_grps<C1: Curve, C2: Curve>(
    ro: RandomOracle,
    commitment_1: &Commitment<C1>,
    commitment_2: &Commitment<C2>,
    cmm_key_1: &CommitmentKey<C1>,
    cmm_key_2: &CommitmentKey<C2>,
    proof: &ComEqDiffGrpsProof,
) -> (r: bool)
    requires
        on_curve(commitment_1.0),
        on_curve(commitment_2.0),
        cmm_key_1.wf(),
        cmm_key_2.wf(),
        proof.wf(),
    ensures
        r == (proof.challenge@ == com_eq_challenge(
            ro@,
            *commitment_1,
            *commitment_2,
            *cmm_key_1,
            *cmm_key_2,
            com_eq_u(*commitment_1, *cmm_key_1, *proof),
            com_eq_v(*commitment_2, *cmm_key_2, *proof),
        )),
        forall|
            base_1: Seq<u8>,
            gamma_1: nat,
            eta_1: nat,
            base_2: Seq<u8>,
            gamma_2: nat,
            eta_2: nat,
            a: nat,
            r_1: nat,
            r_2: nat,
            alpha_1: nat,
            alpha_2: nat,
            alpha_3: nat,
        |
            #[trigger] com_eq_honest(
                ro@,
                *commitment_1,
                *commitment_2,
                *cmm_key_1,
                *cmm_key_2,
                *proof,
                base_1,
                gamma_1,
                eta_1,
                base_2,
                gamma_2,
                eta_2,
                a,
                r_1,
                r_2,
                alpha_1,
                alpha_2,
                alpha_3,
            ) ==> r,
{
    let ghost ro_v = ro@;
    let (s_1, s_2, t) = proof.witness;
    let u1 = commitment_1.0.mul_by_scalar(&proof.challenge);
    let u2 = cmm_key_1.0.mul_by_scalar(&s_1);
    let u3 = cmm_key_1.1.mul_by_scalar(&s_2);
    let u12 = u1.plus_point(&u2);
    let u = u12.plus_point(&u3);
    let v1 = commitment_2.0.mul_by_scalar(&proof.challenge);
    let v2 = cmm_key_2.0.mul_by_scalar(&s_1);
    let v3 = cmm_key_2.1.mul_by_scalar(&t);
    let v12 = v1.plus_point(&v2);
    let v = v12.plus_point(&v3);
    let hasher = com_eq_statement(ro, commitment_1, commitment_2, cmm_key_1, cmm_key_2);
    let computed_challenge = hasher.append(&u).finish_to_scalar(&v);
    proof {
        lemma_scalar_eq(computed_challenge, proof.challenge);
    }
    let r = computed_challenge == proof.challenge;
    proof {
        assert forall|
            base_1: Seq<u8>,
            gamma_1: nat,
            eta_1: nat,
            base_2: Seq<u8>,
            gamma_2: nat,
            eta_2: nat,
            a: nat,
            r_1: nat,
            r_2: nat,
            alpha_1: nat,
            alpha_2: nat,
            alpha_3: nat,
        |
            #[trigger] com_eq_honest(
                ro_v,
                *commitment_1,
                *commitment_2,
                *cmm_key_1,
                *cmm_key_2,
                *proof,
                base_1,
                gamma_1,
                eta_1,
                base_2,
                gamma_2,
                eta_2,
                a,
                r_1,
                r_2,
                alpha_1,
                alpha_2,
                alpha_3,
            ) implies r by {
            let q = fr_modulus();
            let c = proof.challenge@;
            let e_1 = commit_exponent(gamma_1, eta_1, a, r_1);
            let e_2 = commit_exponent(gamma_2, eta_2, a, r_2);
            assert(u1.enc() == C1::mul_spec(base_1, (e_1 * c) % q));
            assert(u2.enc() == C1::mul_spec(base_1, (gamma_1 * s_1@) % q));
            assert(u3.enc() == C1::mul_spec(base_1, (eta_1 * s_2@) % q));
            assert(u12.enc() == C1::mul_spec(
                base_1,
                ((e_1 * c) % q + (gamma_1 * s_1@) % q) % q,
            ));
            lemma_com_eq_exponents(gamma_1, eta_1, a, r_1, c, alpha_1, alpha_2);
            assert(u.enc() == C1::mul_spec(
                base_1,
                commit_exponent(gamma_1, eta_1, alpha_1, alpha_2),
            ));
            assert(v1.enc() == C2::mul_spec(base_2, (e_2 * c) % q));
            assert(v2.enc() == C2::mul_spec(base_2, (gamma_2 * s_1@) % q));
            assert(v3.enc() == C2::mul_spec(base_2, (eta_2 * t@) % q));
            assert(v12.enc() == C2::mul_spec(
                base_2,
                ((e_2 * c) % q + (gamma_2 * s_1@) % q) % q,
            ));
            lemma_com_eq_exponents(gamma_2, eta_2, a, r_2, c, alpha_1, alpha_3);
            assert(v.enc() == C2::mul_spec(
                base_2,
                commit_exponent(gamma_2, eta_2, alpha_1, alpha_3),
            ));
        }
    }
    r
}

} // verus!
