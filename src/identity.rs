//! The identity issuance request: the holder's pre-identity object, which
//! shares the holder's credential secret among anonymity revokers, and the
//! identity provider's validation of it.
use crate::com_enc_eq::{com_enc_eq_accepts, prove_com_enc_eq, verify_com_enc_eq, ComEncEqProof, ComEncEqSecret};
use crate::com_eq::{com_eq_accepts, prove_com_eq, verify_com_eq, ComEqProof, ComEqSecret};
use crate::com_eq_different_groups::{
    com_eq_challenge, com_eq_u, com_eq_v, prove_com_eq_diff_grps, verify_com_eq_diff_grps,
    ComEqDiffGrpsProof, ComEqDiffGrpsSecret,
};
use crate::curve::{on_curve, Curve, G1Point};
use crate::dlog::{dlog_accepts, prove_dlog, verify_dlog, DlogProof};
use crate::elgamal::{Cipher, PublicKey, SecretKey};
use crate::pedersen::{commit_exponent, commit_spec, key_over, Commitment, CommitmentKey, Randomness, Value};
use crate::random_oracle::RandomOracle;
use crate::scalar::{fr_modulus, fr_random, Scalar};
use crate::secret_sharing::{evaluate_polynomial, poly_eval, share_with_coefficients, values};
use crate::ps_sig::PublicKey as PsPublicKey;
use crate::unknown_message::UnknownMessage;
use rand::rngs::StdRng;
use vstd::prelude::*;
use vstd::string::StringSliceAdditionalSpecFns;

verus! {

/// The prefix of the proof of knowledge of the credential secret.
pub const POK_SC_PREFIX: &'static str = "pok_sc";

/// The transcript from which the other proofs of a request start.
pub const PIO_DOMAIN: &'static str = "pre_identity_object";

/// Parameters that every participant shares: the commitment key used on
/// chain and the generator of G1.
#[derive(Clone, Copy, Debug, PartialEq, Eq)]
pub struct GlobalContext {
    pub on_chain_commitment_key: CommitmentKey<G1Point>,
    pub generator: G1Point,
}

/// An anonymity revoker: its identity (never 0) and its ElGamal key.
#[derive(Clone, Copy, Debug, PartialEq, Eq)]
pub struct ArInfo {
    pub ar_identity: u32,
    pub ar_public_key: PublicKey<G1Point>,
}

/// The revokers a holder chose, and how many of them revocation takes.
#[derive(Clone, Debug, PartialEq, Eq)]
pub struct ChoiceArParameters {
    pub ar_identities: Vec<u32>,
    pub threshold: u32,
}

/// What one revoker receives: its share of the credential secret,
/// encrypted in the exponent under its key, and the proof that the
/// ciphertext encrypts the committed share.
#[derive(Clone, Copy, Debug, PartialEq, Eq)]
pub struct IpArData {
    pub ar_identity: u32,
    pub enc_id_cred_pub_share: Cipher<G1Point>,
    pub proof_com_enc_eq: ComEncEqProof,
}

/// The request that a holder sends to the identity provider.
#[derive(Clone, Debug)]
pub struct PreIdentityObject {
    /// `id_cred_sec·g`.
    pub id_cred_pub: G1Point,
    pub ip_ar_data: Vec<IpArData>,
    pub choice_ar_parameters: ChoiceArParameters,
    /// Commitment to `id_cred_sec`.
    pub cmm_sc: Commitment<G1Point>,
    /// Commitments to the coefficients of the sharing polynomial, the
    /// first being `id_cred_sec` itself.
    pub cmm_sharing_coeff: Vec<Commitment<G1Point>>,
    /// Knowledge of `id_cred_sec`.
    pub pok_sc: DlogProof<G1Point>,
    /// `cmm_sc` holds the discrete logarithm of `id_cred_pub`.
    pub proof_com_eq_sc: ComEqProof,
    /// `cmm_sc` and the first coefficient commitment hold the same value.
    pub proof_commitments_same: ComEqDiffGrpsProof,
    /// Commitment to `id_cred_sec` under the provider's message key
    /// `(Y_0, g)`: the part of the signed message that the holder brings.
    pub cmm_id_ps: Commitment<G1Point>,
    /// `cmm_sc` and `cmm_id_ps` hold the same value.
    pub proof_id_ps: ComEqDiffGrpsProof,
}

/// Which proof of a request failed.
#[derive(Clone, Copy, Debug, PartialEq, Eq, Structural)]
pub enum ProofKind {
    PokSc,
    ComEqSc,
    CommitmentsSame,
    ComEncEq,
    IdPs,
}

/// Why a request is rejected.
#[derive(Clone, Copy, Debug, PartialEq, Eq, Structural)]
pub enum RequestError {
    /// The threshold is 0 or above the number of chosen revokers.
    ThresholdOutOfRange,
    /// A chosen revoker identity is 0 or chosen twice.
    InvalidArIdentities,
    /// A chosen revoker is not one the provider knows.
    UnknownArIdentity,
    /// The revoker data do not follow the chosen revokers one for one.
    ArDataMismatch,
    /// There are not `threshold` coefficient commitments.
    CoefficientCountMismatch,
    /// A proof failed.
    ProofInvalid(ProofKind),
}

impl GlobalContext {
    pub open spec fn wf(&self) -> bool {
        self.on_chain_commitment_key.wf() && on_curve(self.generator)
    }
}

impl PreIdentityObject {
    /// Every point is in the group and every scalar is reduced.
    pub open spec fn wf(&self) -> bool {
        &&& on_curve(self.id_cred_pub)
        &&& on_curve(self.cmm_sc.0)
        &&& forall|i: int|
            0 <= i < self.cmm_sharing_coeff@.len() ==> on_curve(
                #[trigger] self.cmm_sharing_coeff@[i].0,
            )
        &&& forall|i: int|
            0 <= i < self.ip_ar_data@.len() ==> {
                &&& on_curve((#[trigger] self.ip_ar_data@[i]).enc_id_cred_pub_share.0)
                &&& on_curve(self.ip_ar_data@[i].enc_id_cred_pub_share.1)
                &&& self.ip_ar_data@[i].proof_com_enc_eq.wf()
            }
        &&& self.pok_sc.wf()
        &&& self.proof_com_eq_sc.wf()
        &&& self.proof_commitments_same.wf()
        &&& on_curve(self.cmm_id_ps.0)
        &&& self.proof_id_ps.wf()
    }
}

impl PreIdentityObject {
    /// Whether every point is in the group and every scalar is reduced: the
    /// provider's check of the request's encoding.
    pub fn check_wf(&self) -> (r: bool)
        ensures
            r == self.wf(),
    {
        if !self.id_cred_pub.is_valid() || !self.cmm_sc.0.is_valid() {
            return false;
        }
        let mut i: usize = 0;
        while i < self.cmm_sharing_coeff.len()
            invariant
                i <= self.cmm_sharing_coeff@.len(),
                forall|j: int| 0 <= j < i ==> on_curve(#[trigger] self.cmm_sharing_coeff@[j].0),
            decreases self.cmm_sharing_coeff@.len() - i,
        {
            if !self.cmm_sharing_coeff[i].0.is_valid() {
                return false;
            }
            i = i + 1;
        }
        let mut k: usize = 0;
        while k < self.ip_ar_data.len()
            invariant
                k <= self.ip_ar_data@.len(),
                forall|j: int|
                    0 <= j < k ==> {
                        &&& on_curve((#[trigger] self.ip_ar_data@[j]).enc_id_cred_pub_share.0)
                        &&& on_curve(self.ip_ar_data@[j].enc_id_cred_pub_share.1)
                        &&& self.ip_ar_data@[j].proof_com_enc_eq.wf()
                    },
            decreases self.ip_ar_data@.len() - k,
        {
            let d = &self.ip_ar_data[k];
            let p = &d.proof_com_enc_eq;
            if !d.enc_id_cred_pub_share.0.is_valid() || !d.enc_id_cred_pub_share.1.is_valid()
                || !p.challenge.is_canonical() || !p.witness.0.is_canonical()
                || !p.witness.1.is_canonical() || !p.witness.2.is_canonical() {
                return false;
            }
            k = k + 1;
        }
        let pok = &self.pok_sc;
        let ceq = &self.proof_com_eq_sc;
        let same = &self.proof_commitments_same;
        pok.challenge.is_canonical() && pok.randomised_point.is_valid() && pok.witness.is_canonical()
            && ceq.challenge.is_canonical() && ceq.witness.0.is_canonical()
            && ceq.witness.1.is_canonical() && same.challenge.is_canonical()
            && same.witness.0.is_canonical() && same.witness.1.is_canonical()
            && same.witness.2.is_canonical() && self.cmm_id_ps.0.is_valid()
            && self.proof_id_ps.challenge.is_canonical() && self.proof_id_ps.witness.0.is_canonical()
            && self.proof_id_ps.witness.1.is_canonical() && self.proof_id_ps.witness.2.is_canonical()
    }
}

/// The chosen identities are non-zero and distinct.
pub open spec fn ar_ids_valid(ids: Seq<u32>) -> bool {
    &&& forall|j: int| 0 <= j < ids.len() ==> ids[j] != 0
    &&& forall|j: int, k: int| 0 <= j < ids.len() && 0 <= k < ids.len() && j != k ==> ids[j] != ids[k]
}

/// The provider knows a revoker with identity `id`.
pub open spec fn ar_known(ars: Seq<ArInfo>, id: u32) -> bool {
    exists|i: int| 0 <= i < ars.len() && ars[i].ar_identity == id
}

/// The key of the revoker with identity `id`.
pub open spec fn ar_key_of(ars: Seq<ArInfo>, id: u32) -> PublicKey<G1Point> {
    ars[choose|i: int| 0 <= i < ars.len() && ars[i].ar_identity == id].ar_public_key
}

/// The configured revokers have distinct identities and valid keys whose
/// generator is the global one.
pub open spec fn ars_wf(ars: Seq<ArInfo>, ctx: GlobalContext) -> bool {
    &&& forall|i: int| 0 <= i < ars.len() ==> (#[trigger] ars[i]).ar_public_key.wf()
    &&& forall|i: int| 0 <= i < ars.len() ==> (#[trigger] ars[i]).ar_public_key.generator == ctx.generator
    &&& forall|j: int, k: int|
        0 <= j < ars.len() && 0 <= k < ars.len() && j != k ==> ars[j].ar_identity
            != ars[k].ar_identity
}

/// The request is well formed: the threshold is in range, the chosen
/// revokers are valid, known and matched one for one by the revoker data,
/// and there is one coefficient commitment per unit of threshold.
pub open spec fn structure_ok(pio: PreIdentityObject, ars: Seq<ArInfo>) -> bool {
    let ids = pio.choice_ar_parameters.ar_identities@;
    let t = pio.choice_ar_parameters.threshold;
    &&& 1 <= t <= ids.len()
    &&& ar_ids_valid(ids)
    &&& forall|k: int| 0 <= k < ids.len() ==> ar_known(ars, #[trigger] ids[k])
    &&& pio.ip_ar_data@.len() == ids.len()
    &&& forall|k: int| 0 <= k < ids.len() ==> (#[trigger] pio.ip_ar_data@[k]).ar_identity == ids[k]
    &&& pio.cmm_sharing_coeff@.len() == t
}

/// The commitment to the share at `x`, from the coefficient commitments
/// `C_i, …, C_{n−1}`: `C_i + x·(C_{i+1} + x·(…))`.
pub open spec fn share_commitment_spec(cmms: Seq<Commitment<G1Point>>, x: nat, i: nat) -> Seq<u8>
    decreases cmms.len() - i,
{
    if i + 1 >= cmms.len() {
        cmms[i as int].0.enc()
    } else {
        G1Point::add_spec(
            cmms[i as int].0.enc(),
            G1Point::mul_spec(share_commitment_spec(cmms, x, i + 1), x),
        )
    }
}

/// The revoker data `d` pass their proof, against the share commitment
/// derived from `cmms`.
pub open spec fn ar_entry_ok(
    d: IpArData,
    cmms: Seq<Commitment<G1Point>>,
    ars: Seq<ArInfo>,
    ctx: GlobalContext,
) -> bool {
    exists|c: Commitment<G1Point>|
        c.0.enc() == share_commitment_spec(cmms, d.ar_identity as nat, 0)
            && #[trigger] com_enc_eq_accepts(
            PIO_DOMAIN.spec_bytes(),
            d.enc_id_cred_pub_share,
            c,
            ar_key_of(ars, d.ar_identity),
            ctx.on_chain_commitment_key,
            ctx.generator,
            d.proof_com_enc_eq,
        )
}

/// The revoker data of entry `k` pass their proof.
pub open spec fn ar_data_ok(pio: PreIdentityObject, ars: Seq<ArInfo>, ctx: GlobalContext, k: int) -> bool {
    ar_entry_ok(pio.ip_ar_data@[k], pio.cmm_sharing_coeff@, ars, ctx)
}

/// All proofs of a well-formed request pass.
pub open spec fn proofs_ok(pio: PreIdentityObject, ars: Seq<ArInfo>, ctx: GlobalContext) -> bool {
    let ck = ctx.on_chain_commitment_key;
    &&& dlog_accepts(POK_SC_PREFIX.spec_bytes(), ctx.generator, pio.id_cred_pub, pio.pok_sc)
    &&& com_eq_accepts(
        PIO_DOMAIN.spec_bytes(),
        pio.cmm_sc,
        pio.id_cred_pub,
        ck,
        ctx.generator,
        pio.proof_com_eq_sc,
    )
    &&& pio.proof_commitments_same.challenge@ == com_eq_challenge(
        PIO_DOMAIN.spec_bytes(),
        pio.cmm_sc,
        pio.cmm_sharing_coeff@[0],
        ck,
        ck,
        com_eq_u(pio.cmm_sc, ck, pio.proof_commitments_same),
        com_eq_v(pio.cmm_sharing_coeff@[0], ck, pio.proof_commitments_same),
    )
    &&& forall|k: int| 0 <= k < pio.ip_ar_data@.len() ==> #[trigger] ar_data_ok_at(pio, ars, ctx, k)
}

/// The provider's key is usable for identities: well formed, with a
/// generator `Y_0` for `id_cred_sec`.
pub open spec fn ip_key_ok(ip_pk: PsPublicKey) -> bool {
    ip_pk.wf() && ip_pk.ys@.len() >= 1
}

/// The provider's message key `(Y_0, g)`, under which the holder commits to
/// `id_cred_sec`.
pub open spec fn ps_message_key(ip_pk: PsPublicKey) -> CommitmentKey<G1Point> {
    CommitmentKey(ip_pk.ys@[0], ip_pk.g)
}

/// The proof that `cmm_id_ps` holds the value of `cmm_sc` passes.
pub open spec fn id_ps_ok(pio: PreIdentityObject, ip_pk: PsPublicKey, ctx: GlobalContext) -> bool {
    let ck = ctx.on_chain_commitment_key;
    let pk = ps_message_key(ip_pk);
    pio.proof_id_ps.challenge@ == com_eq_challenge(
        PIO_DOMAIN.spec_bytes(),
        pio.cmm_sc,
        pio.cmm_id_ps,
        ck,
        pk,
        com_eq_u(pio.cmm_sc, ck, pio.proof_id_ps),
        com_eq_v(pio.cmm_id_ps, pk, pio.proof_id_ps),
    )
}

/// The message that the provider signs: `cmm_id_ps + Σ_{i<n} a_i·Y_{i+1}`.
pub open spec fn identity_message_spec(ip_pk: PsPublicKey, cmm: Seq<u8>, attributes: Seq<Value>, n: nat) -> Seq<u8>
    decreases n,
{
    if n == 0 {
        cmm
    } else {
        G1Point::add_spec(
            identity_message_spec(ip_pk, cmm, attributes, (n - 1) as nat),
            G1Point::mul_spec(ip_pk.ys@[n as int].enc(), attributes[n - 1].value@),
        )
    }
}

/// `ar_data_ok`, named for use as a trigger.
pub open spec fn ar_data_ok_at(pio: PreIdentityObject, ars: Seq<ArInfo>, ctx: GlobalContext, k: int) -> bool {
    ar_data_ok(pio, ars, ctx, k)
}

/// The index of the revoker with identity `id`, if the provider knows one.
fn find_ar(ars: &[ArInfo], id: u32) -> (r: Option<usize>)
    ensures
        r.is_some() == ar_known(ars@, id),
        r matches Some(i) ==> i < ars@.len() && ars@[i as int].ar_identity == id,
{
    let mut i: usize = 0;
    while i < ars.len()
        invariant
            i <= ars@.len(),
            forall|j: int| 0 <= j < i ==> ars@[j].ar_identity != id,
        decreases ars@.len() - i,
    {
        if ars[i].ar_identity == id {
            return Some(i);
        }
        i = i + 1;
    }
    None
}

/// Whether the identities are non-zero and distinct.
fn check_ar_ids(ids: &[u32]) -> (r: bool)
    ensures
        r == ar_ids_valid(ids@),
{
    let n = ids.len();
    let mut j: usize = 0;
    while j < n
        invariant
            j <= n,
            n == ids@.len(),
            forall|a: int| 0 <= a < j ==> ids@[a] != 0,
            forall|a: int, b: int| 0 <= a < j && 0 <= b < n && a != b ==> ids@[a] != ids@[b],
        decreases n - j,
    {
        if ids[j] == 0 {
            return false;
        }
        let mut k: usize = 0;
        while k < n
            invariant
                k <= n,
                j < n,
                n == ids@.len(),
                ids@[j as int] != 0,
                forall|b: int| 0 <= b < k && b != j ==> ids@[j as int] != ids@[b],
                forall|a: int| 0 <= a < j ==> ids@[a] != 0,
                forall|a: int, b: int| 0 <= a < j && 0 <= b < n && a != b ==> ids@[a] != ids@[b],
            decreases n - k,
        {
            if k != j && ids[k] == ids[j] {
                return false;
            }
            k = k + 1;
        }
        j = j + 1;
    }
    true
}

/// Each `cmms[j]` commits to `vals[j]` with randomness `rands[j]` under a
/// key `(γ·B, η·B)`, as a multiple of `B`.
pub open spec fn cmms_over(
    cmms: Seq<Commitment<G1Point>>,
    b: Seq<u8>,
    gamma: nat,
    eta: nat,
    vals: Seq<nat>,
    rands: Seq<nat>,
) -> bool {
    &&& G1Point::decodes_spec(b)
    &&& vals.len() == cmms.len()
    &&& rands.len() == cmms.len()
    &&& forall|j: int|
        0 <= j < cmms.len() ==> vals[j] < fr_modulus() && rands[j] < fr_modulus() && (
        #[trigger] cmms[j]).0.enc() == G1Point::mul_spec(
            b,
            commit_exponent(gamma, eta, vals[j], rands[j]),
        )
}

/// A Horner step on commitment exponents: `e(a_0, r_0) + x·e(P, Q)` is
/// `e(a_0 + x·P, r_0 + x·Q)`, modulo r.
#[verifier::rlimit(40)]
pub proof fn lemma_horner_commit(gamma: nat, eta: nat, a0: nat, r0: nat, p: nat, q: nat, x: nat)
    ensures
        (commit_exponent(gamma, eta, a0, r0) + (commit_exponent(gamma, eta, p, q) * x)
            % fr_modulus()) % fr_modulus() == commit_exponent(
            gamma,
            eta,
            (a0 + x * p) % fr_modulus(),
            (r0 + x * q) % fr_modulus(),
        ),
{
    let m = fr_modulus() as int;
    let (g, e, a, r, pi, qi, xi) = (gamma as int, eta as int, a0 as int, r0 as int, p as int, q as int, x as int);
    vstd::arithmetic::div_mod::lemma_add_mod_noop(g * a, e * r, m);
    vstd::arithmetic::div_mod::lemma_add_mod_noop(g * pi, e * qi, m);
    vstd::arithmetic::div_mod::lemma_mul_mod_noop_left(g * pi + e * qi, xi, m);
    vstd::arithmetic::div_mod::lemma_add_mod_noop(g * a + e * r, (g * pi + e * qi) * xi, m);
    vstd::arithmetic::div_mod::lemma_mul_mod_noop_right(g, a + xi * pi, m);
    vstd::arithmetic::div_mod::lemma_mul_mod_noop_right(e, r + xi * qi, m);
    vstd::arithmetic::div_mod::lemma_add_mod_noop(g * (a + xi * pi), e * (r + xi * qi), m);
    assert(g * (a + xi * pi) + e * (r + xi * qi) == (g * a + e * r) + (g * pi + e * qi) * xi)
        by (nonlinear_arith);
}

/// A constant polynomial: `poly_eval([v], x)` is `v mod r`.
proof fn lemma_poly_single(s: Seq<nat>, x: nat)
    requires
        s.len() == 1,
    ensures
        poly_eval(s, x) == s[0] % fr_modulus(),
{
    assert(s.drop_first().len() == 0);
    assert(poly_eval(s.drop_first(), x) == 0);
    assert(x * 0 == 0);
}

/// The commitment to the share at `x`, computed from the coefficient
/// commitments alone. Where the coefficient commitments commit to `vals`
/// with randomness `rands`, it commits to `f(x)` with randomness `R(x)`, for
/// the polynomials `f` and `R` with those coefficients.
pub fn share_commitment(cmms: &[Commitment<G1Point>], x: u32) -> (r: Commitment<G1Point>)
    requires
        cmms@.len() >= 1,
        forall|i: int| 0 <= i < cmms@.len() ==> on_curve(#[trigger] cmms@[i].0),
    ensures
        on_curve(r.0),
        r.0.enc() == share_commitment_spec(cmms@, x as nat, 0),
        forall|b: Seq<u8>, gamma: nat, eta: nat, vals: Seq<nat>, rands: Seq<nat>|
            #[trigger] cmms_over(cmms@, b, gamma, eta, vals, rands) ==> r.0.enc()
                == G1Point::mul_spec(
                b,
                commit_exponent(gamma, eta, poly_eval(vals, x as nat), poly_eval(rands, x as nat)),
            ),
{
    let xs = Scalar::from_u64(x as u64);
    let n = cmms.len();
    let mut acc = cmms[n - 1].0;
    let mut i: usize = n - 1;
    proof {
        assert forall|b: Seq<u8>, gamma: nat, eta: nat, vals: Seq<nat>, rands: Seq<nat>|
            #[trigger] cmms_over(cmms@, b, gamma, eta, vals, rands) implies acc.enc()
                == G1Point::mul_spec(
                b,
                commit_exponent(
                    gamma,
                    eta,
                    poly_eval(vals.subrange(n as int - 1, n as int), x as nat),
                    poly_eval(rands.subrange(n as int - 1, n as int), x as nat),
                ),
            ) by {
            lemma_poly_single(vals.subrange(n as int - 1, n as int), x as nat);
            lemma_poly_single(rands.subrange(n as int - 1, n as int), x as nat);
            assert(cmms@[n as int - 1].0.enc() == G1Point::mul_spec(
                b,
                commit_exponent(gamma, eta, vals[n as int - 1], rands[n as int - 1]),
            ));
        }
    }
    while i > 0
        invariant
            1 <= n == cmms@.len(),
            i < n,
            xs.wf(),
            xs@ == x as nat,
            forall|k: int| 0 <= k < cmms@.len() ==> on_curve(#[trigger] cmms@[k].0),
            on_curve(acc),
            acc.enc() == share_commitment_spec(cmms@, x as nat, i as nat),
            forall|b: Seq<u8>, gamma: nat, eta: nat, vals: Seq<nat>, rands: Seq<nat>|
                #[trigger] cmms_over(cmms@, b, gamma, eta, vals, rands) ==> acc.enc()
                    == G1Point::mul_spec(
                    b,
                    commit_exponent(
                        gamma,
                        eta,
                        poly_eval(vals.subrange(i as int, n as int), x as nat),
                        poly_eval(rands.subrange(i as int, n as int), x as nat),
                    ),
                ),
        decreases i,
    {
        let scaled = acc.mul_by_scalar(&xs);
        let next = cmms[i - 1].0.plus_point(&scaled);
        proof {
            assert forall|b: Seq<u8>, gamma: nat, eta: nat, vals: Seq<nat>, rands: Seq<nat>|
                #[trigger] cmms_over(cmms@, b, gamma, eta, vals, rands) implies next.enc()
                    == G1Point::mul_spec(
                    b,
                    commit_exponent(
                        gamma,
                        eta,
                        poly_eval(vals.subrange(i - 1, n as int), x as nat),
                        poly_eval(rands.subrange(i - 1, n as int), x as nat),
                    ),
                ) by {
                let pv = poly_eval(vals.subrange(i as int, n as int), x as nat);
                let pr = poly_eval(rands.subrange(i as int, n as int), x as nat);
                assert(vals.subrange(i - 1, n as int).drop_first() =~= vals.subrange(i as int, n as int));
                assert(rands.subrange(i - 1, n as int).drop_first() =~= rands.subrange(i as int, n as int));
                assert(cmms@[i - 1].0.enc() == G1Point::mul_spec(
                    b,
                    commit_exponent(gamma, eta, vals[i - 1], rands[i - 1]),
                ));
                assert(scaled.enc() == G1Point::mul_spec(
                    b,
                    (commit_exponent(gamma, eta, pv, pr) * x as nat) % fr_modulus(),
                ));
                lemma_horner_commit(gamma, eta, vals[i - 1], rands[i - 1], pv, pr, x as nat);
            }
        }
        acc = next;
        i = i - 1;
    }
    proof {
        assert forall|b: Seq<u8>, gamma: nat, eta: nat, vals: Seq<nat>, rands: Seq<nat>|
            #[trigger] cmms_over(cmms@, b, gamma, eta, vals, rands) implies acc.enc()
                == G1Point::mul_spec(
                b,
                commit_exponent(gamma, eta, poly_eval(vals, x as nat), poly_eval(rands, x as nat)),
            ) by {
            assert(vals.subrange(0, n as int) =~= vals);
            assert(rands.subrange(0, n as int) =~= rands);
        }
    }
    Commitment(acc)
}

/// The identity provider's check of a request: first its structure, then
/// each proof. The error names the first check that failed.
pub fn validate_request(
    pio: &PreIdentityObject,
    ctx: &GlobalContext,
    ars: &[ArInfo],
    ip_pk: &PsPublicKey,
) -> (r: Result<(), RequestError>)
    requires
        ctx.wf(),
        ars_wf(ars@, *ctx),
        ip_key_ok(*ip_pk),
        pio.wf(),
    ensures
        r.is_ok() == (structure_ok(*pio, ars@) && proofs_ok(*pio, ars@, *ctx) && id_ps_ok(
            *pio,
            *ip_pk,
            *ctx,
        )),
        r matches Err(RequestError::ProofInvalid(_)) ==> structure_ok(*pio, ars@),
        r matches Err(e) ==> (e is ProofInvalid) == structure_ok(*pio, ars@),
        r == Err::<(), RequestError>(RequestError::ThresholdOutOfRange) ==> !(1
            <= pio.choice_ar_parameters.threshold <= pio.choice_ar_parameters.ar_identities@.len()),
        r == Err::<(), RequestError>(RequestError::InvalidArIdentities) ==> !ar_ids_valid(
            pio.choice_ar_parameters.ar_identities@,
        ),
        r == Err::<(), RequestError>(RequestError::ProofInvalid(ProofKind::PokSc)) ==> !dlog_accepts(
            POK_SC_PREFIX.spec_bytes(),
            ctx.generator,
            pio.id_cred_pub,
            pio.pok_sc,
        ),
{
    let ids = &pio.choice_ar_parameters.ar_identities;
    let t = pio.choice_ar_parameters.threshold;
    if t < 1 || t as usize > ids.len() {
        return Err(RequestError::ThresholdOutOfRange);
    }
    if !check_ar_ids(ids.as_slice()) {
        return Err(RequestError::InvalidArIdentities);
    }
    let mut k: usize = 0;
    while k < ids.len()
        invariant
            k <= ids@.len(),
            ids@ == pio.choice_ar_parameters.ar_identities@,
            forall|j: int| 0 <= j < k ==> ar_known(ars@, #[trigger] ids@[j]),
        decreases ids@.len() - k,
    {
        if find_ar(ars, ids[k]).is_none() {
            return Err(RequestError::UnknownArIdentity);
        }
        k = k + 1;
    }
    if pio.ip_ar_data.len() != ids.len() {
        return Err(RequestError::ArDataMismatch);
    }
    let mut k: usize = 0;
    while k < ids.len()
        invariant
            k <= ids@.len(),
            ids@ == pio.choice_ar_parameters.ar_identities@,
            pio.ip_ar_data@.len() == ids@.len(),
            forall|j: int| 0 <= j < k ==> (#[trigger] pio.ip_ar_data@[j]).ar_identity == ids@[j],
        decreases ids@.len() - k,
    {
        if pio.ip_ar_data[k].ar_identity != ids[k] {
            return Err(RequestError::ArDataMismatch);
        }
        k = k + 1;
    }
    if pio.cmm_sharing_coeff.len() != t as usize {
        return Err(RequestError::CoefficientCountMismatch);
    }
    assert(structure_ok(*pio, ars@));
    if !verify_dlog(POK_SC_PREFIX.as_bytes(), &ctx.generator, &pio.id_cred_pub, &pio.pok_sc) {
        return Err(RequestError::ProofInvalid(ProofKind::PokSc));
    }
    let ck = &ctx.on_chain_commitment_key;
    if !verify_com_eq(
        RandomOracle::domain(PIO_DOMAIN.as_bytes()),
        &pio.cmm_sc,
        &pio.id_cred_pub,
        ck,
        &ctx.generator,
        &pio.proof_com_eq_sc,
    ) {
        return Err(RequestError::ProofInvalid(ProofKind::ComEqSc));
    }
    if !verify_com_eq_diff_grps(
        RandomOracle::domain(PIO_DOMAIN.as_bytes()),
        &pio.cmm_sc,
        &pio.cmm_sharing_coeff[0],
        ck,
        ck,
        &pio.proof_commitments_same,
    ) {
        return Err(RequestError::ProofInvalid(ProofKind::CommitmentsSame));
    }
    let mut k: usize = 0;
    while k < pio.ip_ar_data.len()
        invariant
            k <= pio.ip_ar_data@.len(),
            ctx.wf(),
            ars_wf(ars@, *ctx),
            pio.wf(),
            structure_ok(*pio, ars@),
            forall|j: int| 0 <= j < k ==> #[trigger] ar_data_ok_at(*pio, ars@, *ctx, j),
        decreases pio.ip_ar_data@.len() - k,
    {
        let d = &pio.ip_ar_data[k];
        let idx = match find_ar(ars, d.ar_identity) {
            Some(i) => i,
            None => {
                assert(ar_known(ars@, pio.choice_ar_parameters.ar_identities@[k as int]));
                return Err(RequestError::UnknownArIdentity);
            },
        };
        let cmm = share_commitment(pio.cmm_sharing_coeff.as_slice(), d.ar_identity);
        proof {
            assert(0 <= idx < ars@.len() && ars@[idx as int].ar_identity == d.ar_identity);
            let i = choose|i: int| 0 <= i < ars@.len() && ars@[i].ar_identity == d.ar_identity;
            assert(i == idx);
            assert(ar_key_of(ars@, d.ar_identity) == ars@[idx as int].ar_public_key);
        }
        let ok = verify_com_enc_eq(
            RandomOracle::domain(PIO_DOMAIN.as_bytes()),
            &d.enc_id_cred_pub_share,
            &cmm,
            &ars[idx].ar_public_key,
            &ctx.on_chain_commitment_key,
            &ctx.generator,
            &d.proof_com_enc_eq,
        );
        if !ok {
            proof {
                assert forall|c: Commitment<G1Point>|
                    c.0.enc() == share_commitment_spec(
                        pio.cmm_sharing_coeff@,
                        d.ar_identity as nat,
                        0,
                    ) implies !#[trigger] com_enc_eq_accepts(
                    PIO_DOMAIN.spec_bytes(),
                    d.enc_id_cred_pub_share,
                    c,
                    ar_key_of(ars@, d.ar_identity),
                    ctx.on_chain_commitment_key,
                    ctx.generator,
                    d.proof_com_enc_eq,
                ) by {
                    G1Point::lemma_enc_injective(c.0, cmm.0);
                }
                assert(!ar_data_ok_at(*pio, ars@, *ctx, k as int));
            }
            return Err(RequestError::ProofInvalid(ProofKind::ComEncEq));
        }
        assert(com_enc_eq_accepts(
            PIO_DOMAIN.spec_bytes(),
            d.enc_id_cred_pub_share,
            cmm,
            ar_key_of(ars@, d.ar_identity),
            ctx.on_chain_commitment_key,
            ctx.generator,
            d.proof_com_enc_eq,
        ));
        assert(ar_data_ok_at(*pio, ars@, *ctx, k as int));
        k = k + 1;
    }
    let ps_key = CommitmentKey(ip_pk.ys[0], ip_pk.g);
    if !verify_com_eq_diff_grps(
        RandomOracle::domain(PIO_DOMAIN.as_bytes()),
        &pio.cmm_sc,
        &pio.cmm_id_ps,
        &ctx.on_chain_commitment_key,
        &ps_key,
        &pio.proof_id_ps,
    ) {
        return Err(RequestError::ProofInvalid(ProofKind::IdPs));
    }
    Ok(())
}

/// The values that a request is built from, besides the provers' masks:
/// the blindings of `cmm_sc` and `cmm_id_ps`, the further coefficients `a_1, …, a_{t−1}` of
/// the sharing polynomial, the blinding of each coefficient commitment
/// (the first for `id_cred_sec`), and the encryption randomness of each
/// revoker's share.
#[derive(Clone, Debug)]
pub struct PioRandomness {
    pub cmm_sc_rand: Scalar,
    pub id_ps_rand: Scalar,
    pub coefficients: Vec<Scalar>,
    pub coefficient_rands: Vec<Scalar>,
    pub enc_rands: Vec<Scalar>,
}

impl PioRandomness {
    /// Every value is reduced, and there are `t − 1` coefficients, `t`
    /// coefficient blindings and `n` encryption randomnesses.
    pub open spec fn wf(&self, t: nat, n: nat) -> bool {
        &&& self.cmm_sc_rand.wf()
        &&& self.id_ps_rand.wf()
        &&& self.coefficients@.len() + 1 == t
        &&& self.coefficient_rands@.len() == t
        &&& self.enc_rands@.len() == n
        &&& forall|i: int| 0 <= i < self.coefficients@.len() ==> (#[trigger] self.coefficients@[i]).wf()
        &&& forall|i: int| 0 <= i < self.coefficient_rands@.len() ==> (#[trigger] self.coefficient_rands@[i]).wf()
        &&& forall|i: int| 0 <= i < self.enc_rands@.len() ==> (#[trigger] self.enc_rands@[i]).wf()
    }
}

/// The coefficients of the sharing polynomial: `id_cred_sec`, then `a_1, …`.
pub open spec fn sharing_values(id_cred_sec: nat, rnd: PioRandomness) -> Seq<nat> {
    seq![id_cred_sec] + values(rnd.coefficients@)
}

/// The commitments and ciphertexts of `pio` are the ones built from
/// `id_cred_sec` and `rnd`: `cmm_sc`, `cmm_id_ps` and each coefficient commitment commit
/// to their value, and revoker `k`'s ciphertext encrypts `f(id_k)·g` under
/// its key, for the sharing polynomial `f`.
pub open spec fn built_from(
    pio: PreIdentityObject,
    ctx: GlobalContext,
    ip_pk: PsPublicKey,
    ars: Seq<ArInfo>,
    id_cred_sec: nat,
    rnd: PioRandomness,
) -> bool {
    let ck = ctx.on_chain_commitment_key;
    let vals = sharing_values(id_cred_sec, rnd);
    &&& pio.cmm_sc.0.enc() == commit_spec(ck, id_cred_sec, rnd.cmm_sc_rand@)
    &&& pio.cmm_id_ps.0.enc() == commit_spec(ps_message_key(ip_pk), id_cred_sec, rnd.id_ps_rand@)
    &&& pio.cmm_sharing_coeff@.len() == rnd.coefficient_rands@.len()
    &&& forall|j: int|
        0 <= j < pio.cmm_sharing_coeff@.len() ==> (#[trigger] pio.cmm_sharing_coeff@[j]).0.enc()
            == commit_spec(ck, vals[j], rnd.coefficient_rands@[j]@)
    &&& pio.ip_ar_data@.len() == ars.len()
    &&& forall|k: int|
        0 <= k < ars.len() ==> {
            &&& (#[trigger] pio.ip_ar_data@[k]).enc_id_cred_pub_share.0.enc() == G1Point::mul_spec(
                ctx.generator.enc(),
                rnd.enc_rands@[k]@,
            )
            &&& pio.ip_ar_data@[k].enc_id_cred_pub_share.1.enc() == G1Point::add_spec(
                G1Point::mul_spec(ars[k].ar_public_key.key.enc(), rnd.enc_rands@[k]@),
                G1Point::mul_spec(ctx.generator.enc(), poly_eval(vals, ars[k].ar_identity as nat)),
            )
        }
}

/// The commitment key, the generator and every revoker key are multiples
/// of one point `B`: `(γ·B, η·B)`, `β·B` and `κ_i·B`. In a cyclic group of
/// prime order this holds for any generator `B`.
pub open spec fn over_one_base(
    ctx: GlobalContext,
    ars: Seq<ArInfo>,
    b: Seq<u8>,
    gamma: nat,
    eta: nat,
    beta: nat,
    kappas: Seq<nat>,
) -> bool {
    &&& key_over(ctx.on_chain_commitment_key, b, gamma, eta)
    &&& ctx.generator.enc() == G1Point::mul_spec(b, beta)
    &&& kappas.len() == ars.len()
    &&& forall|i: int|
        0 <= i < ars.len() ==> (#[trigger] ars[i]).ar_public_key.key.enc() == G1Point::mul_spec(
            b,
            kappas[i],
        )
}

/// The commitments to `vals[j]` with blinding `rands[j]`.
fn commit_coefficients(ck: &CommitmentKey<G1Point>, vals: &[Scalar], rands: &[Scalar]) -> (r: Vec<
    Commitment<G1Point>,
>)
    requires
        ck.wf(),
        vals@.len() == rands@.len(),
        forall|i: int| 0 <= i < vals@.len() ==> (#[trigger] vals@[i]).wf(),
        forall|i: int| 0 <= i < rands@.len() ==> (#[trigger] rands@[i]).wf(),
    ensures
        r@.len() == vals@.len(),
        forall|j: int| 0 <= j < r@.len() ==> on_curve(#[trigger] r@[j].0),
        forall|j: int|
            0 <= j < r@.len() ==> (#[trigger] r@[j]).0.enc() == commit_spec(*ck, vals@[j]@, rands@[j]@),
        forall|b: Seq<u8>, gamma: nat, eta: nat|
            #[trigger] key_over(*ck, b, gamma, eta) ==> cmms_over(r@, b, gamma, eta, values(vals@), values(rands@)),
{
    let mut cmms: Vec<Commitment<G1Point>> = Vec::new();
    let mut i: usize = 0;
    while i < vals.len()
        invariant
            ck.wf(),
            i <= vals@.len(),
            vals@.len() == rands@.len(),
            forall|k: int| 0 <= k < vals@.len() ==> (#[trigger] vals@[k]).wf(),
            forall|k: int| 0 <= k < rands@.len() ==> (#[trigger] rands@[k]).wf(),
            cmms@.len() == i,
            forall|j: int| 0 <= j < i ==> on_curve(#[trigger] cmms@[j].0),
            forall|j: int|
                0 <= j < i ==> (#[trigger] cmms@[j]).0.enc() == commit_spec(*ck, vals@[j]@, rands@[j]@),
            forall|b: Seq<u8>, gamma: nat, eta: nat|
                #[trigger] key_over(*ck, b, gamma, eta) ==> forall|j: int|
                    0 <= j < i ==> (#[trigger] cmms@[j]).0.enc() == G1Point::mul_spec(
                        b,
                        commit_exponent(gamma, eta, vals@[j]@, rands@[j]@),
                    ),
        decreases vals@.len() - i,
    {
        let c = ck.commit_with(&Value { value: vals[i] }, &Randomness { randomness: rands[i] });
        cmms.push(c);
        i = i + 1;
    }
    proof {
        assert forall|b: Seq<u8>, gamma: nat, eta: nat|
            #[trigger] key_over(*ck, b, gamma, eta) implies cmms_over(
                cmms@,
                b,
                gamma,
                eta,
                values(vals@),
                values(rands@),
            ) by {
            assert forall|j: int| 0 <= j < cmms@.len() implies values(vals@)[j] < fr_modulus()
                && values(rands@)[j] < fr_modulus() && (#[trigger] cmms@[j]).0.enc()
                == G1Point::mul_spec(
                b,
                commit_exponent(gamma, eta, values(vals@)[j], values(rands@)[j]),
            ) by {
                assert(vals@[j].wf());
                assert(rands@[j].wf());
            }
        }
    }
    cmms
}

/// The holder's request built from `id_cred_sec` and the drawn values
/// `rnd` (the provers draw their own masks): `id_cred_sec` is shared among
/// `ars` with threshold `threshold`, each share is encrypted in the exponent
/// of the generator under its revoker's key, and the proofs bind the
/// shares, the coefficient commitments and `id_cred_pub` together. The
/// request passes every proof of the provider wherever the keys are
/// multiples of one point. None where a prover gave up.
pub fn generate_pio_with_randomness(
    ctx: &GlobalContext,
    ip_pk: &PsPublicKey,
    ars: &[ArInfo],
    id_cred_sec: &Scalar,
    threshold: u32,
    rnd: &PioRandomness,
    csprng: &mut StdRng,
) -> (r: Option<PreIdentityObject>)
    requires
        ctx.wf(),
        ars_wf(ars@, *ctx),
        ip_key_ok(*ip_pk),
        forall|i: int| 0 <= i < ars@.len() ==> (#[trigger] ars@[i]).ar_identity != 0,
        id_cred_sec.wf(),
        1 <= threshold <= ars@.len(),
        rnd.wf(threshold as nat, ars@.len()),
    ensures
        r matches Some(pio) ==> {
            &&& pio.wf()
            &&& structure_ok(pio, ars@)
            &&& pio.id_cred_pub.enc() == G1Point::mul_spec(ctx.generator.enc(), id_cred_sec@)
            &&& pio.choice_ar_parameters.threshold == threshold
            &&& pio.choice_ar_parameters.ar_identities@.len() == ars@.len()
            &&& forall|k: int|
                0 <= k < ars@.len() ==> (#[trigger] pio.choice_ar_parameters.ar_identities@[k])
                    == ars@[k].ar_identity
            &&& built_from(pio, *ctx, *ip_pk, ars@, id_cred_sec@, *rnd)
            &&& forall|b: Seq<u8>, gamma: nat, eta: nat, beta: nat, kappas: Seq<nat>|
                #[trigger] over_one_base(*ctx, ars@, b, gamma, eta, beta, kappas) ==> proofs_ok(
                    pio,
                    ars@,
                    *ctx,
                )
            &&& forall|
                b: Seq<u8>,
                gamma: nat,
                eta: nat,
                beta: nat,
                kappas: Seq<nat>,
                y_0: nat,
                g_ps: nat,
            |
                #![trigger over_one_base(*ctx, ars@, b, gamma, eta, beta, kappas), key_over(ps_message_key(*ip_pk), b, y_0, g_ps)]
                over_one_base(*ctx, ars@, b, gamma, eta, beta, kappas) && key_over(
                    ps_message_key(*ip_pk),
                    b,
                    y_0,
                    g_ps,
                ) ==> id_ps_ok(pio, *ip_pk, *ctx)
        },
{
    let g = &ctx.generator;
    let ck = &ctx.on_chain_commitment_key;
    let mut ids: Vec<u32> = Vec::new();
    let mut i: usize = 0;
    while i < ars.len()
        invariant
            i <= ars@.len(),
            ids@.len() == i,
            forall|k: int| 0 <= k < i ==> (#[trigger] ids@[k]) == ars@[k].ar_identity,
        decreases ars@.len() - i,
    {
        ids.push(ars[i].ar_identity);
        i = i + 1;
    }
    let id_cred_pub = g.mul_by_scalar(id_cred_sec);
    let r_sc = Randomness { randomness: rnd.cmm_sc_rand };
    let cmm_sc = ck.commit_with(&Value { value: *id_cred_sec }, &r_sc);
    let mut vals: Vec<Scalar> = Vec::new();
    vals.push(*id_cred_sec);
    let mut i: usize = 0;
    while i < rnd.coefficients.len()
        invariant
            i <= rnd.coefficients@.len(),
            id_cred_sec.wf(),
            forall|k: int| 0 <= k < rnd.coefficients@.len() ==> (#[trigger] rnd.coefficients@[k]).wf(),
            vals@ == seq![*id_cred_sec] + rnd.coefficients@.subrange(0, i as int),
        decreases rnd.coefficients@.len() - i,
    {
        vals.push(rnd.coefficients[i]);
        i = i + 1;
        assert(vals@ =~= seq![*id_cred_sec] + rnd.coefficients@.subrange(0, i as int));
    }
    assert(rnd.coefficients@.subrange(0, i as int) =~= rnd.coefficients@);
    assert(values(vals@) =~= sharing_values(id_cred_sec@, *rnd));
    assert forall|k: int| 0 <= k < vals@.len() implies (#[trigger] vals@[k]).wf() by {
        if k > 0 {
            assert(vals@[k] == rnd.coefficients@[k - 1]);
        }
    }
    let shares = share_with_coefficients(id_cred_sec, rnd.coefficients.as_slice(), ids.as_slice());
    let cmms = commit_coefficients(ck, vals.as_slice(), rnd.coefficient_rands.as_slice());
    let ghost vals_v = values(vals@);
    let ghost rands_v = values(rnd.coefficient_rands@);
    let mut ip_ar_data: Vec<IpArData> = Vec::new();
    let mut k: usize = 0;
    while k < ars.len()
        invariant
            ctx.wf(),
            ars_wf(ars@, *ctx),
            *g == ctx.generator,
            *ck == ctx.on_chain_commitment_key,
            rnd.wf(threshold as nat, ars@.len()),
            k <= ars@.len(),
            ids@.len() == ars@.len(),
            forall|j: int| 0 <= j < ars@.len() ==> (#[trigger] ids@[j]) == ars@[j].ar_identity,
            shares@.len() == ids@.len(),
            forall|j: int|
                0 <= j < ids@.len() ==> {
                    &&& (#[trigger] shares@[j]).0 == ids@[j]
                    &&& shares@[j].1.wf()
                    &&& shares@[j].1@ == poly_eval(
                        seq![id_cred_sec@] + values(rnd.coefficients@),
                        ids@[j] as nat,
                    )
                },
            vals_v == values(vals@),
            vals_v == sharing_values(id_cred_sec@, *rnd),
            rands_v == values(rnd.coefficient_rands@),
            cmms@.len() == vals@.len(),
            cmms@.len() >= 1,
            forall|j: int| 0 <= j < cmms@.len() ==> on_curve(#[trigger] cmms@[j].0),
            forall|b: Seq<u8>, gamma: nat, eta: nat|
                #[trigger] key_over(*ck, b, gamma, eta) ==> cmms_over(cmms@, b, gamma, eta, vals_v, rands_v),
            ip_ar_data@.len() == k,
            forall|j: int|
                0 <= j < k ==> {
                    &&& (#[trigger] ip_ar_data@[j]).ar_identity == ids@[j]
                    &&& on_curve(ip_ar_data@[j].enc_id_cred_pub_share.0)
                    &&& on_curve(ip_ar_data@[j].enc_id_cred_pub_share.1)
                    &&& ip_ar_data@[j].proof_com_enc_eq.wf()
                    &&& ip_ar_data@[j].enc_id_cred_pub_share.0.enc() == G1Point::mul_spec(
                        ctx.generator.enc(),
                        rnd.enc_rands@[j]@,
                    )
                    &&& ip_ar_data@[j].enc_id_cred_pub_share.1.enc() == G1Point::add_spec(
                        G1Point::mul_spec(ars@[j].ar_public_key.key.enc(), rnd.enc_rands@[j]@),
                        G1Point::mul_spec(ctx.generator.enc(), poly_eval(vals_v, ars@[j].ar_identity as nat)),
                    )
                },
            forall|b: Seq<u8>, gamma: nat, eta: nat, beta: nat, kappas: Seq<nat>|
                #[trigger] over_one_base(*ctx, ars@, b, gamma, eta, beta, kappas) ==> forall|j: int|
                    0 <= j < k ==> #[trigger] ar_entry_ok(ip_ar_data@[j], cmms@, ars@, *ctx),
        decreases ars@.len() - k,
    {
        let x = ids[k];
        let y = shares[k].1;
        let xs = Scalar::from_u64(x as u64);
        let pedersen_rand = evaluate_polynomial(rnd.coefficient_rands.as_slice(), &xs);
        let cmm = share_commitment(cmms.as_slice(), x);
        let pk = &ars[k].ar_public_key;
        let r_enc = Randomness { randomness: rnd.enc_rands[k] };
        let cipher = pk.encrypt_exponent_given_randomness(&Value { value: y }, g, &r_enc);
        let secret = ComEncEqSecret {
            value: Value { value: y },
            elgamal_rand: r_enc,
            pedersen_rand: Randomness { randomness: pedersen_rand },
        };
        let proof = prove_com_enc_eq(
            RandomOracle::domain(PIO_DOMAIN.as_bytes()),
            &cipher,
            &cmm,
            pk,
            ck,
            g,
            &secret,
            csprng,
        )?;
        let accepted = verify_com_enc_eq(
            RandomOracle::domain(PIO_DOMAIN.as_bytes()),
            &cipher,
            &cmm,
            pk,
            ck,
            g,
            &proof,
        );
        let d = IpArData { ar_identity: x, enc_id_cred_pub_share: cipher, proof_com_enc_eq: proof };
        proof {
            assert(0 <= k < ars@.len() && ars@[k as int].ar_identity == x);
            let ii = choose|ii: int| 0 <= ii < ars@.len() && ars@[ii].ar_identity == x;
            assert(ii == k);
            assert(ar_key_of(ars@, x) == *pk);
            assert(pk.generator == ctx.generator);
            assert forall|b: Seq<u8>, gamma: nat, eta: nat, beta: nat, kappas: Seq<nat>|
                #[trigger] over_one_base(*ctx, ars@, b, gamma, eta, beta, kappas) implies ar_entry_ok(
                d,
                cmms@,
                ars@,
                *ctx,
            ) by {
                let kappa = kappas[k as int];
                assert(pk.key.enc() == G1Point::mul_spec(b, kappa));
                assert(key_over(*ck, b, gamma, eta));
                assert(cmms_over(cmms@, b, gamma, eta, vals_v, rands_v));
                assert(cmm.0.enc() == G1Point::mul_spec(
                    b,
                    commit_exponent(gamma, eta, poly_eval(vals_v, x as nat), poly_eval(rands_v, x as nat)),
                ));
                assert(key_over(CommitmentKey(pk.key, *g), b, kappa, beta));
                assert(pk.generator.enc() == G1Point::mul_spec(b, beta));
                assert(cipher.0.enc() == G1Point::mul_spec(b, (beta * r_enc.randomness@) % fr_modulus()));
                assert(cipher.1.enc() == G1Point::mul_spec(
                    b,
                    commit_exponent(kappa, beta, r_enc.randomness@, y@),
                ));
                assert(accepted);
                assert(cmm.0.enc() == share_commitment_spec(cmms@, d.ar_identity as nat, 0)
                    && com_enc_eq_accepts(
                    PIO_DOMAIN.spec_bytes(),
                    d.enc_id_cred_pub_share,
                    cmm,
                    ar_key_of(ars@, d.ar_identity),
                    ctx.on_chain_commitment_key,
                    ctx.generator,
                    d.proof_com_enc_eq,
                ));
            }
        }
        ip_ar_data.push(d);
        k = k + 1;
    }
    let pok_sc = prove_dlog(csprng, POK_SC_PREFIX.as_bytes(), &id_cred_pub, id_cred_sec, g)?;
    let pok_ok = verify_dlog(POK_SC_PREFIX.as_bytes(), g, &id_cred_pub, &pok_sc);
    let sc_secret = ComEqSecret { value: Value { value: *id_cred_sec }, randomness: r_sc };
    let proof_com_eq_sc = prove_com_eq(
        RandomOracle::domain(PIO_DOMAIN.as_bytes()),
        &cmm_sc,
        &id_cred_pub,
        ck,
        g,
        &sc_secret,
        csprng,
    )?;
    let com_eq_ok = verify_com_eq(
        RandomOracle::domain(PIO_DOMAIN.as_bytes()),
        &cmm_sc,
        &id_cred_pub,
        ck,
        g,
        &proof_com_eq_sc,
    );
    let same_secret = ComEqDiffGrpsSecret {
        value: Value { value: *id_cred_sec },
        rand_cmm_1: r_sc,
        rand_cmm_2: Randomness { randomness: rnd.coefficient_rands[0] },
    };
    let proof_commitments_same = prove_com_eq_diff_grps(
        RandomOracle::domain(PIO_DOMAIN.as_bytes()),
        &cmm_sc,
        &cmms[0],
        ck,
        ck,
        &same_secret,
        csprng,
    )?;
    let same_ok = verify_com_eq_diff_grps(
        RandomOracle::domain(PIO_DOMAIN.as_bytes()),
        &cmm_sc,
        &cmms[0],
        ck,
        ck,
        &proof_commitments_same,
    );
    let ps_key = CommitmentKey(ip_pk.ys[0], ip_pk.g);
    let r_ps = Randomness { randomness: rnd.id_ps_rand };
    let cmm_id_ps = ps_key.commit_with(&Value { value: *id_cred_sec }, &r_ps);
    let id_ps_secret = ComEqDiffGrpsSecret {
        value: Value { value: *id_cred_sec },
        rand_cmm_1: r_sc,
        rand_cmm_2: r_ps,
    };
    let proof_id_ps = prove_com_eq_diff_grps(
        RandomOracle::domain(PIO_DOMAIN.as_bytes()),
        &cmm_sc,
        &cmm_id_ps,
        ck,
        &ps_key,
        &id_ps_secret,
        csprng,
    )?;
    let id_ps_accepted = verify_com_eq_diff_grps(
        RandomOracle::domain(PIO_DOMAIN.as_bytes()),
        &cmm_sc,
        &cmm_id_ps,
        ck,
        &ps_key,
        &proof_id_ps,
    );
    let pio = PreIdentityObject {
        id_cred_pub,
        ip_ar_data,
        choice_ar_parameters: ChoiceArParameters { ar_identities: ids, threshold },
        cmm_sc,
        cmm_sharing_coeff: cmms,
        pok_sc,
        proof_com_eq_sc,
        proof_commitments_same,
        cmm_id_ps,
        proof_id_ps,
    };
    proof {
        assert forall|k: int| 0 <= k < ars@.len() implies ar_known(
            ars@,
            #[trigger] pio.choice_ar_parameters.ar_identities@[k],
        ) by {
            assert(ars@[k].ar_identity == pio.choice_ar_parameters.ar_identities@[k]);
        }
        assert(ar_ids_valid(pio.choice_ar_parameters.ar_identities@));
        assert(pok_ok);
        assert forall|j: int| 0 <= j < pio.cmm_sharing_coeff@.len() implies (
        #[trigger] pio.cmm_sharing_coeff@[j]).0.enc() == commit_spec(
            *ck,
            sharing_values(id_cred_sec@, *rnd)[j],
            rnd.coefficient_rands@[j]@,
        ) by {
            assert(vals_v[j] == vals@[j]@);
        }
        assert forall|b: Seq<u8>, gamma: nat, eta: nat, beta: nat, kappas: Seq<nat>|
            #[trigger] over_one_base(*ctx, ars@, b, gamma, eta, beta, kappas) implies proofs_ok(
            pio,
            ars@,
            *ctx,
        ) by {
            assert(key_over(*ck, b, gamma, eta));
            assert(cmms_over(cmms@, b, gamma, eta, vals_v, rands_v));
            assert(g.enc() == G1Point::mul_spec(b, beta));
            assert(id_cred_pub.enc() == G1Point::mul_spec(b, (beta * id_cred_sec@) % fr_modulus()));
            assert(cmm_sc.0.enc() == G1Point::mul_spec(
                b,
                commit_exponent(gamma, eta, id_cred_sec@, r_sc.randomness@),
            ));
            assert(vals_v[0] == id_cred_sec@);
            assert(pio.cmm_sharing_coeff@[0].0.enc() == G1Point::mul_spec(
                b,
                commit_exponent(gamma, eta, id_cred_sec@, rands_v[0]),
            ));
            assert(com_eq_ok);
            assert(same_ok);
            assert forall|k: int| 0 <= k < pio.ip_ar_data@.len() implies #[trigger] ar_data_ok_at(
                pio,
                ars@,
                *ctx,
                k,
            ) by {
                assert(ar_entry_ok(pio.ip_ar_data@[k], cmms@, ars@, *ctx));
            }
        }
    }
    proof {
        assert forall|
            b: Seq<u8>,
            gamma: nat,
            eta: nat,
            beta: nat,
            kappas: Seq<nat>,
            y_0: nat,
            g_ps: nat,
        |
            #![trigger over_one_base(*ctx, ars@, b, gamma, eta, beta, kappas), key_over(ps_message_key(*ip_pk), b, y_0, g_ps)]
            over_one_base(*ctx, ars@, b, gamma, eta, beta, kappas) && key_over(
                ps_message_key(*ip_pk),
                b,
                y_0,
                g_ps,
            ) implies id_ps_ok(pio, *ip_pk, *ctx) by {
            assert(key_over(*ck, b, gamma, eta));
            assert(ps_key == ps_message_key(*ip_pk));
            assert(key_over(ps_key, b, y_0, g_ps));
            assert(cmm_sc.0.enc() == G1Point::mul_spec(
                b,
                commit_exponent(gamma, eta, id_cred_sec@, r_sc.randomness@),
            ));
            assert(cmm_id_ps.0.enc() == G1Point::mul_spec(
                b,
                commit_exponent(y_0, g_ps, id_cred_sec@, r_ps.randomness@),
            ));
            assert(id_ps_accepted);
        }
    }
    Some(pio)
}

/// Draws the values of `PioRandomness`: fresh blindings, non-zero
/// coefficients, fresh encryption randomness. None if a non-zero draw kept
/// giving zero.
fn draw_pio_randomness(threshold: u32, n: usize, csprng: &mut StdRng) -> (r: Option<PioRandomness>)
    requires
        1 <= threshold,
    ensures
        r matches Some(rnd) ==> rnd.wf(threshold as nat, n as nat),
{
    let cmm_sc_rand = fr_random(csprng);
    let mut coefficients: Vec<Scalar> = Vec::new();
    let mut coefficient_rands: Vec<Scalar> = Vec::new();
    coefficient_rands.push(fr_random(csprng));
    let mut i: u32 = 1;
    while i < threshold
        invariant
            1 <= i <= threshold,
            coefficients@.len() + 1 == i,
            coefficient_rands@.len() == i,
            forall|k: int| 0 <= k < coefficients@.len() ==> (#[trigger] coefficients@[k]).wf(),
            forall|k: int| 0 <= k < coefficient_rands@.len() ==> (#[trigger] coefficient_rands@[k]).wf(),
        decreases threshold - i,
    {
        let v = Value::generate_non_zero(csprng)?;
        coefficients.push(v.value);
        coefficient_rands.push(fr_random(csprng));
        i = i + 1;
    }
    let mut enc_rands: Vec<Scalar> = Vec::new();
    let mut k: usize = 0;
    while k < n
        invariant
            k <= n,
            enc_rands@.len() == k,
            forall|j: int| 0 <= j < enc_rands@.len() ==> (#[trigger] enc_rands@[j]).wf(),
        decreases n - k,
    {
        enc_rands.push(fr_random(csprng));
        k = k + 1;
    }
    let id_ps_rand = fr_random(csprng);
    Some(PioRandomness { cmm_sc_rand, id_ps_rand, coefficients, coefficient_rands, enc_rands })
}

/// The holder's request, with freshly drawn values (see
/// `generate_pio_with_randomness`), and those values, which the holder keeps:
/// the blinding of `cmm_id_ps` unblinds the provider's signature. None where a
/// draw or a prover gave up.
pub fn generate_pio(
    ctx: &GlobalContext,
    ip_pk: &PsPublicKey,
    ars: &[ArInfo],
    id_cred_sec: &Scalar,
    threshold: u32,
    csprng: &mut StdRng,
) -> (r: Option<(PreIdentityObject, PioRandomness)>)
    requires
        ctx.wf(),
        ars_wf(ars@, *ctx),
        ip_key_ok(*ip_pk),
        forall|i: int| 0 <= i < ars@.len() ==> (#[trigger] ars@[i]).ar_identity != 0,
        id_cred_sec.wf(),
        1 <= threshold <= ars@.len(),
    ensures
        r matches Some((pio, rnd)) ==> {
            &&& pio.wf()
            &&& structure_ok(pio, ars@)
            &&& pio.id_cred_pub.enc() == G1Point::mul_spec(ctx.generator.enc(), id_cred_sec@)
            &&& pio.choice_ar_parameters.threshold == threshold
            &&& pio.choice_ar_parameters.ar_identities@.len() == ars@.len()
            &&& forall|k: int|
                0 <= k < ars@.len() ==> (#[trigger] pio.choice_ar_parameters.ar_identities@[k])
                    == ars@[k].ar_identity
            &&& rnd.wf(threshold as nat, ars@.len())
            &&& built_from(pio, *ctx, *ip_pk, ars@, id_cred_sec@, rnd)
            &&& forall|b: Seq<u8>, gamma: nat, eta: nat, beta: nat, kappas: Seq<nat>|
                #[trigger] over_one_base(*ctx, ars@, b, gamma, eta, beta, kappas) ==> proofs_ok(
                    pio,
                    ars@,
                    *ctx,
                )
            &&& forall|
                b: Seq<u8>,
                gamma: nat,
                eta: nat,
                beta: nat,
                kappas: Seq<nat>,
                y_0: nat,
                g_ps: nat,
            |
                #![trigger over_one_base(*ctx, ars@, b, gamma, eta, beta, kappas), key_over(ps_message_key(*ip_pk), b, y_0, g_ps)]
                over_one_base(*ctx, ars@, b, gamma, eta, beta, kappas) && key_over(
                    ps_message_key(*ip_pk),
                    b,
                    y_0,
                    g_ps,
                ) ==> id_ps_ok(pio, *ip_pk, *ctx)
        },
{
    let rnd = draw_pio_randomness(threshold, ars.len(), csprng)?;
    let pio = generate_pio_with_randomness(ctx, ip_pk, ars, id_cred_sec, threshold, &rnd, csprng)?;
    Some((pio, rnd))
}

/// A revoker's decryption of its share: `c_2 − sk·c_1`, which for an honest
/// request is the share times the generator.
pub fn ar_decrypt_share(ar_secret_key: &SecretKey<G1Point>, data: &IpArData) -> (r: (u32, G1Point))
    requires
        ar_secret_key.wf(),
        on_curve(data.enc_id_cred_pub_share.0),
        on_curve(data.enc_id_cred_pub_share.1),
    ensures
        r.0 == data.ar_identity,
        on_curve(r.1),
        r.1.enc() == G1Point::sub_spec(
            data.enc_id_cred_pub_share.1.enc(),
            G1Point::mul_spec(data.enc_id_cred_pub_share.0.enc(), ar_secret_key.scalar@),
        ),
{
    (data.ar_identity, ar_secret_key.decrypt(&data.enc_id_cred_pub_share))
}

/// The message that the provider signs for a request: the holder's
/// commitment `cmm_id_ps` to `id_cred_sec` under `(Y_0, g)`, plus
/// `Σ a_i·Y_{i+1}` for the attribute values `a_i`. The holder unblinds the
/// signature with the blinding of `cmm_id_ps`, and then holds a signature on
/// `(id_cred_sec, a_1, …)`.
pub fn identity_message(pio: &PreIdentityObject, ip_pk: &PsPublicKey, attributes: &[Value]) -> (r:
    UnknownMessage)
    requires
        ip_key_ok(*ip_pk),
        on_curve(pio.cmm_id_ps.0),
        ip_pk.ys@.len() == attributes@.len() + 1,
        forall|i: int| 0 <= i < attributes@.len() ==> (#[trigger] attributes@[i]).value.wf(),
    ensures
        on_curve(r.0),
        r.0.enc() == identity_message_spec(*ip_pk, pio.cmm_id_ps.0.enc(), attributes@, attributes@.len()),
{
    let mut acc = pio.cmm_id_ps.0;
    let mut i: usize = 0;
    while i < attributes.len()
        invariant
            ip_key_ok(*ip_pk),
            ip_pk.ys@.len() == attributes@.len() + 1,
            forall|k: int| 0 <= k < attributes@.len() ==> (#[trigger] attributes@[k]).value.wf(),
            i <= attributes@.len(),
            on_curve(acc),
            acc.enc() == identity_message_spec(*ip_pk, pio.cmm_id_ps.0.enc(), attributes@, i as nat),
        decreases attributes@.len() - i,
    {
        let term = ip_pk.ys[i + 1].mul_by_scalar(&attributes[i].value);
        acc = acc.plus_point(&term);
        i = i + 1;
    }
    UnknownMessage(acc)
}

/// The identity provider's answer to a request: it validates the request
/// and, only where that succeeds, builds the message from the request's
/// commitment and the attribute values and signs it with its
/// Pointcheval–Sanders key. The error is that of `validate_request`.
pub fn sign_identity_object(
    pio: &PreIdentityObject,
    ctx: &GlobalContext,
    ars: &[ArInfo],
    ip_pk: &PsPublicKey,
    ip_secret_key: &crate::ps_sig::SecretKey,
    attributes: &[Value],
    csprng: &mut StdRng,
) -> (r: Result<crate::ps_sig::BlindedSignature, RequestError>)
    requires
        ctx.wf(),
        ars_wf(ars@, *ctx),
        ip_key_ok(*ip_pk),
        pio.wf(),
        ip_secret_key.wf(),
        ip_pk.ys@.len() == attributes@.len() + 1,
        forall|i: int| 0 <= i < attributes@.len() ==> (#[trigger] attributes@[i]).value.wf(),
    ensures
        r.is_ok() == (structure_ok(*pio, ars@) && proofs_ok(*pio, ars@, *ctx) && id_ps_ok(
            *pio,
            *ip_pk,
            *ctx,
        )),
        r matches Err(e) ==> (e is ProofInvalid) == structure_ok(*pio, ars@),
        r matches Ok(sig) ==> on_curve(sig.sig.0) && on_curve(sig.sig.1) && exists|u: nat|
            u < crate::scalar::fr_modulus() && sig.sig.0.enc() == G1Point::mul_spec(
                ip_secret_key.g.enc(),
                u,
            ) && sig.sig.1.enc() == G1Point::mul_spec(
                G1Point::add_spec(
                    G1Point::mul_spec(ip_secret_key.g.enc(), ip_secret_key.x@),
                    identity_message_spec(
                        *ip_pk,
                        pio.cmm_id_ps.0.enc(),
                        attributes@,
                        attributes@.len(),
                    ),
                ),
                u,
            ),
{
    validate_request(pio, ctx, ars, ip_pk)?;
    let message = identity_message(pio, ip_pk, attributes);
    Ok(ip_secret_key.sign_unknown_message(&message, csprng))
}

} // verus!
