//! Proof of knowledge of a representation: of `x_1, …, x_n` with
//! `y = Σ x_i·g_i`.
use crate::bytes::be_value;
use crate::curve::{on_curve, Curve};
use crate::dlog::MAX_PROOF_ATTEMPTS;
use crate::random_oracle::{digest_scalar, sha256_of, RandomOracle};
use crate::scalar::{fr_modulus, fr_mul, fr_random, fr_sub, fr_sub_spec, lemma_scalar_eq, Scalar};
use crate::secret_sharing::values;
use rand::rngs::StdRng;
use vstd::prelude::*;
use vstd::string::StringSliceAdditionalSpecFns;

verus! {

/// The label that starts this protocol's part of the transcript.
pub const AGGREGATE_DLOG_DOMAIN: &'static str = "aggregate_dlog";

/// The challenge and one response per coefficient.
#[derive(Clone, Debug, PartialEq, Eq)]
pub struct AggregateDlogProof {
    pub challenge: Scalar,
    pub witness: Vec<Scalar>,
}

/// The number that the 32-byte chunk `i` of `b` stands for.
pub open spec fn chunk_value(b: Seq<u8>, i: int) -> nat {
    be_value(b.subrange(32 * i, 32 * i + 32))
}

/// The 32-byte chunk `i` of `b` stands for `v`.
pub open spec fn chunk_is(b: Seq<u8>, i: int, v: nat) -> bool {
    chunk_value(b, i) == v
}

impl AggregateDlogProof {
    /// `b` is the encoding of the proof: the challenge, then each response,
    /// 32 bytes each.
    pub open spec fn encodes(&self, b: Seq<u8>) -> bool {
        &&& b.len() == 32 * (self.witness@.len() + 1)
        &&& chunk_is(b, 0, self.challenge@)
        &&& forall|i: int| 0 <= i < self.witness@.len() ==> #[trigger] chunk_is(b, i + 1, self.witness@[i]@)
    }

    /// The bytes that `from_bytes` accepts for `n` responses: `n + 1`
    /// canonical scalars.
    pub open spec fn decodable(b: Seq<u8>, n: nat) -> bool {
        &&& b.len() >= 32 * (n + 1)
        &&& forall|i: int| 0 <= i <= n ==> #[trigger] chunk_value(b, i) < fr_modulus()
    }

    /// The encoding of the proof.
    pub fn to_bytes(&self) -> (r: Vec<u8>)
        requires
            self.witness@.len() < 0x100_0000,
        ensures
            self.encodes(r@),
    {
        let mut out = self.challenge.to_bytes();
        assert(out@.subrange(0, 32) =~= out@);
        let mut i: usize = 0;
        while i < self.witness.len()
            invariant
                i <= self.witness@.len() < 0x100_0000,
                out@.len() == 32 * (i + 1),
                chunk_is(out@, 0, self.challenge@),
                forall|k: int| 0 <= k < i ==> #[trigger] chunk_is(out@, k + 1, self.witness@[k]@),
            decreases self.witness@.len() - i,
        {
            let mut w = self.witness[i].to_bytes();
            let ghost (prev, wv) = (out@, w@);
            out.append(&mut w);
            proof {
                assert(out@.subrange(0, 32) =~= prev.subrange(0, 32));
                assert forall|k: int| 0 <= k < i + 1 implies #[trigger] chunk_is(out@, k + 1, self.witness@[k]@) by {
                    if k < i {
                        assert(chunk_is(prev, k + 1, self.witness@[k]@));
                        assert(out@.subrange(32 * (k + 1), 32 * (k + 1) + 32) =~= prev.subrange(32 * (k + 1), 32 * (k + 1) + 32));
                    } else {
                        assert(out@.subrange(32 * (k + 1), 32 * (k + 1) + 32) =~= wv);
                    }
                }
            }
            i = i + 1;
        }
        out
    }

    /// Reads a proof with `n` responses from the first `32·(n + 1)` bytes of
    /// `b`; bytes after them are ignored.
    pub fn from_bytes(b: &[u8], n: usize) -> (r: Result<AggregateDlogProof, crate::dlog::DecodeError>)
        requires
            n < 0x100_0000,
        ensures
            r.is_ok() == Self::decodable(b@, n as nat),
            r matches Ok(q) ==> q.witness@.len() == n && q.challenge.wf() && (forall|i: int|
                0 <= i < n ==> (#[trigger] q.witness@[i]).wf()) && q.encodes(
                b@.subrange(0, 32 * (n + 1)),
            ),
    {
        if b.len() < 32 * (n + 1) {
            return Err(crate::dlog::DecodeError::TooShort);
        }
        proof {
            assert(b@.subrange(32 * 0int, 32 * 0int + 32) =~= b@.subrange(0, 32));
            assert(chunk_value(b@, 0) == be_value(b@.subrange(0, 32)));
        }
        let challenge = match Scalar::from_bytes(b) {
            Some(c) => c,
            None => return Err(crate::dlog::DecodeError::NonCanonicalScalar),
        };
        let ghost whole = b@.subrange(0, 32 * (n + 1));
        proof {
            assert(whole.subrange(0, 32) =~= b@.subrange(0, 32));
            assert(b@.subrange(32 * 0int, 32 * 0int + 32) =~= b@.subrange(0, 32));
            assert(whole.subrange(32 * 0int, 32 * 0int + 32) =~= b@.subrange(0, 32));
        }
        let mut witness: Vec<Scalar> = Vec::new();
        let mut i: usize = 0;
        while i < n
            invariant
                i <= n < 0x100_0000,
                b@.len() >= 32 * (n + 1),
                whole == b@.subrange(0, 32 * (n + 1)),
                challenge.wf(),
                chunk_is(whole, 0, challenge@),
                chunk_value(b@, 0) < fr_modulus(),
                witness@.len() == i,
                forall|k: int|
                    0 <= k < i ==> (#[trigger] witness@[k]).wf() && chunk_is(whole, k + 1, witness@[k]@),
                forall|k: int| 1 <= k <= i ==> #[trigger] chunk_value(b@, k) < fr_modulus(),
            decreases n - i,
        {
            let (_, rest) = b.split_at(32 * (i + 1));
            proof {
                assert(rest@.subrange(0, 32) =~= b@.subrange(32 * (i + 1), 32 * (i + 1) + 32));
                assert(whole.subrange(32 * (i + 1), 32 * (i + 1) + 32) =~= b@.subrange(32 * (i + 1), 32 * (i + 1) + 32));
            }
            proof {
                assert(chunk_value(b@, (i + 1) as int) == be_value(rest@.subrange(0, 32)));
                assert(chunk_value(whole, (i + 1) as int) == be_value(rest@.subrange(0, 32)));
            }
            match Scalar::from_bytes(rest) {
                Some(w) => witness.push(w),
                None => {
                    return Err(crate::dlog::DecodeError::NonCanonicalScalar);
                },
            }
            i = i + 1;
        }
        Ok(AggregateDlogProof { challenge, witness })
    }
}

/// A proof is recovered from its encoding: `from_bytes` accepts the
/// encoding of every well-formed proof, and what it returns then is that proof.
pub proof fn lemma_aggregate_dlog_proof_round_trip(p: AggregateDlogProof, q: AggregateDlogProof, b: Seq<u8>)
    requires
        p.challenge.wf(),
        forall|i: int| 0 <= i < p.witness@.len() ==> (#[trigger] p.witness@[i]).wf(),
        p.encodes(b),
    ensures
        AggregateDlogProof::decodable(b, p.witness@.len()),
        q.witness@.len() == p.witness@.len() && q.encodes(b.subrange(0, 32 * (p.witness@.len() + 1) as int))
            ==> q.challenge == p.challenge && q.witness@ == p.witness@,
{
    let n = p.witness@.len();
    assert(b.subrange(0, 32 * (n + 1) as int) =~= b);
    assert forall|i: int| 0 <= i <= n implies #[trigger] chunk_value(b, i) < fr_modulus() by {
        if i >= 1 {
            assert(chunk_is(b, (i - 1) + 1, p.witness@[i - 1]@));
        }
    }
    if q.witness@.len() == n && q.encodes(b) {
        lemma_scalar_eq(p.challenge, q.challenge);
        assert forall|i: int| 0 <= i < n implies q.witness@[i] == p.witness@[i] by {
            assert(chunk_is(b, i + 1, p.witness@[i]@));
            assert(chunk_is(b, i + 1, q.witness@[i]@));
            lemma_scalar_eq(p.witness@[i], q.witness@[i]);
        }
        assert(q.witness@ =~= p.witness@);
    }
}

/// The encoding of `Σ_{i<n} k_i·P_i`, for `n ≥ 1`.
pub open spec fn msm_spec<C: Curve>(points: Seq<C>, ks: Seq<nat>, n: nat) -> Seq<u8>
    decreases n,
{
    let term = C::mul_spec(points[n - 1].enc(), ks[n - 1]);
    if n <= 1 {
        term
    } else {
        C::add_spec(msm_spec(points, ks, (n - 1) as nat), term)
    }
}

/// `Σ_{i<n} γ_i·k_i` modulo r, for `n ≥ 1`, summed as `msm_spec` sums.
pub open spec fn dot(gammas: Seq<nat>, ks: Seq<nat>, n: nat) -> nat
    decreases n,
{
    let term = (gammas[n - 1] * ks[n - 1]) % fr_modulus();
    if n <= 1 {
        term
    } else {
        (dot(gammas, ks, (n - 1) as nat) + term) % fr_modulus()
    }
}

/// Each point `P_i` is `γ_i·B` for the point `B` encoded as `b`.
pub open spec fn points_over<C: Curve>(points: Seq<C>, b: Seq<u8>, gammas: Seq<nat>) -> bool {
    &&& C::decodes_spec(b)
    &&& gammas.len() == points.len()
    &&& forall|i: int| 0 <= i < points.len() ==> (#[trigger] points[i]).enc() == C::mul_spec(b, gammas[i])
}

/// The concatenated encodings of the first `n` points.
pub open spec fn points_bytes<C: Curve>(points: Seq<C>, n: nat) -> Seq<u8>
    decreases n,
{
    if n == 0 {
        Seq::empty()
    } else {
        points_bytes(points, (n - 1) as nat) + points[n - 1].enc()
    }
}

/// The challenge for the first move `a`.
pub open spec fn aggregate_dlog_challenge<C: Curve>(ro: Seq<u8>, public: C, coeff: Seq<C>, a: Seq<u8>) -> nat {
    digest_scalar(
        sha256_of(ro + AGGREGATE_DLOG_DOMAIN.spec_bytes() + points_bytes(coeff, coeff.len()) + public.enc() + a),
    )
}

/// What the verifier accepts: the challenge is the one hashed from
/// `a = c·y + Σ z_i·g_i`.
pub open spec fn aggregate_dlog_accepts<C: Curve>(
    ro: Seq<u8>,
    public: C,
    coeff: Seq<C>,
    proof: AggregateDlogProof,
) -> bool {
    let c = proof.challenge@;
    &&& proof.witness@.len() == coeff.len()
    &&& c == aggregate_dlog_challenge(
        ro,
        public,
        coeff,
        C::add_spec(
            C::mul_spec(public.enc(), c),
            msm_spec(coeff, values(proof.witness@), coeff.len()),
        ),
    )
}

/// `proof` is what an honest prover produces: `g_i = γ_i·B`,
/// `y = (Σ γ_i·x_i)·B`, the first move is `(Σ γ_i·α_i)·B` and the responses
/// are `α_i − c·x_i`.
pub open spec fn aggregate_dlog_honest<C: Curve>(
    ro: Seq<u8>,
    public: C,
    coeff: Seq<C>,
    proof: AggregateDlogProof,
    b: Seq<u8>,
    gammas: Seq<nat>,
    xs: Seq<nat>,
    alphas: Seq<nat>,
) -> bool {
    let c = proof.challenge@;
    let n = coeff.len();
    &&& n >= 1
    &&& points_over(coeff, b, gammas)
    &&& xs.len() == n
    &&& alphas.len() == n
    &&& public.enc() == C::mul_spec(b, dot(gammas, xs, n))
    &&& c == aggregate_dlog_challenge(ro, public, coeff, C::mul_spec(b, dot(gammas, alphas, n)))
    &&& proof.witness@.len() == n
    &&& forall|i: int|
        0 <= i < n ==> (#[trigger] proof.witness@[i])@ == fr_sub_spec(
            alphas[i],
            (c * xs[i]) % fr_modulus(),
        )
}

/// Summing two congruences: `(d_x + t_x)·c + (d_z + t_z)` modulo `q`, from
/// `d_x·c + d_z` and `t_x·c + t_z` each reduced.
#[verifier::rlimit(40)]
proof fn lemma_combine(dx: int, tx: int, dz: int, tz: int, c: int, q: int)
    requires
        q > 0,
    ensures
        (((dx + tx) % q * c) % q + (dz + tz) % q) % q == ((((dx * c) % q + dz) % q) + (((tx * c)
            % q + tz) % q)) % q,
{
    vstd::arithmetic::div_mod::lemma_mul_mod_noop_left(dx + tx, c, q);
    vstd::arithmetic::div_mod::lemma_add_mod_noop((dx + tx) * c, dz + tz, q);
    vstd::arithmetic::div_mod::lemma_add_mod_noop((dx * c) % q + dz, (tx * c) % q + tz, q);
    let w = dz + tz + (tx * c) % q;
    vstd::arithmetic::div_mod::lemma_add_mod_noop_right(w, dx * c, q);
    assert((dx * c) % q + dz + ((tx * c) % q + tz) == w + (dx * c) % q);
    let w2 = dz + tz + dx * c;
    vstd::arithmetic::div_mod::lemma_add_mod_noop_right(w2, tx * c, q);
    assert(w + dx * c == w2 + (tx * c) % q);
    assert((dx + tx) * c == dx * c + tx * c) by (nonlinear_arith);
}

/// `c·(Σ γ_i·x_i) + Σ γ_i·(α_i − c·x_i) = Σ γ_i·α_i`, modulo r.
pub proof fn lemma_dot_responses(gammas: Seq<nat>, xs: Seq<nat>, alphas: Seq<nat>, zs: Seq<nat>, c: nat, n: nat)
    requires
        1 <= n <= gammas.len(),
        n <= xs.len(),
        n <= alphas.len(),
        n <= zs.len(),
        forall|i: int| 0 <= i < n ==> #[trigger] zs[i] == fr_sub_spec(alphas[i], (c * xs[i]) % fr_modulus()),
    ensures
        ((dot(gammas, xs, n) * c) % fr_modulus() + dot(gammas, zs, n)) % fr_modulus() == dot(
            gammas,
            alphas,
            n,
        ),
    decreases n,
{
    let k = n - 1;
    assert(zs[k as int] == fr_sub_spec(alphas[k as int], (c * xs[k as int]) % fr_modulus()));
    crate::com_enc_eq::lemma_single_exponent(gammas[k as int], xs[k as int], c, alphas[k as int]);
    if n > 1 {
        lemma_dot_responses(gammas, xs, alphas, zs, c, (n - 1) as nat);
        let q = fr_modulus() as int;
        let m = (n - 1) as nat;
        lemma_combine(
            dot(gammas, xs, m) as int,
            ((gammas[k as int] * xs[k as int]) % fr_modulus()) as int,
            dot(gammas, zs, m) as int,
            ((gammas[k as int] * zs[k as int]) % fr_modulus()) as int,
            c as int,
            q,
        );
    }
}

/// `Σ k_i·P_i`.
pub fn multiexp<C: Curve>(points: &[C], ks: &[Scalar]) -> (r: C)
    requires
        points@.len() >= 1,
        ks@.len() == points@.len(),
        forall|i: int| 0 <= i < points@.len() ==> on_curve(#[trigger] points@[i]),
        forall|i: int| 0 <= i < ks@.len() ==> (#[trigger] ks@[i]).wf(),
    ensures
        on_curve(r),
        r.enc() == msm_spec(points@, values(ks@), points@.len()),
        forall|b: Seq<u8>, gammas: Seq<nat>|
            #[trigger] points_over(points@, b, gammas) ==> r.enc() == C::mul_spec(
                b,
                dot(gammas, values(ks@), points@.len()),
            ),
{
    let n = points.len();
    let mut acc = points[0].mul_by_scalar(&ks[0]);
    let mut i: usize = 1;
    while i < n
        invariant
            1 <= i <= n,
            n == points@.len(),
            ks@.len() == n,
            forall|k: int| 0 <= k < points@.len() ==> on_curve(#[trigger] points@[k]),
            forall|k: int| 0 <= k < ks@.len() ==> (#[trigger] ks@[k]).wf(),
            on_curve(acc),
            acc.enc() == msm_spec(points@, values(ks@), i as nat),
            forall|b: Seq<u8>, gammas: Seq<nat>|
                #[trigger] points_over(points@, b, gammas) ==> acc.enc() == C::mul_spec(
                    b,
                    dot(gammas, values(ks@), i as nat),
                ),
        decreases n - i,
    {
        let term = points[i].mul_by_scalar(&ks[i]);
        let next = acc.plus_point(&term);
        proof {
            assert forall|b: Seq<u8>, gammas: Seq<nat>|
                #[trigger] points_over(points@, b, gammas) implies next.enc() == C::mul_spec(
                    b,
                    dot(gammas, values(ks@), (i + 1) as nat),
                ) by {
                assert(points@[i as int].enc() == C::mul_spec(b, gammas[i as int]));
                assert(term.enc() == C::mul_spec(b, (gammas[i as int] * ks@[i as int]@) % fr_modulus()));
            }
        }
        acc = next;
        i = i + 1;
    }
    acc
}

/// The oracle after it has absorbed the label, the coefficients and `public`.
fn absorb_statement<C: Curve>(ro: RandomOracle, public: &C, coeff: &[C]) -> (r: RandomOracle)
    ensures
        r@ == ro@ + AGGREGATE_DLOG_DOMAIN.spec_bytes() + points_bytes(coeff@, coeff@.len()) + public.enc(),
{
    let mut h = ro.append_bytes(AGGREGATE_DLOG_DOMAIN.as_bytes());
    let ghost start = h@;
    let mut i: usize = 0;
    while i < coeff.len()
        invariant
            i <= coeff@.len(),
            h@ == start + points_bytes(coeff@, i as nat),
        decreases coeff@.len() - i,
    {
        h = h.append(&coeff[i]);
        i = i + 1;
        assert(h@ =~= start + points_bytes(coeff@, i as nat));
    }
    h.append(public)
}

/// The proof with masks `α_i` and first move `Σ α_i·g_i`; none where the
/// challenge is zero.
pub fn prove_aggregate_dlog_with_masks<C: Curve>(
    ro: RandomOracle,
    public: &C,
    coeff: &[C],
    secret: &[Scalar],
    masks: &[Scalar],
) -> (r: Option<AggregateDlogProof>)
    requires
        coeff@.len() >= 1,
        secret@.len() == coeff@.len(),
        masks@.len() == coeff@.len(),
        forall|i: int| 0 <= i < coeff@.len() ==> on_curve(#[trigger] coeff@[i]),
        forall|i: int| 0 <= i < secret@.len() ==> (#[trigger] secret@[i]).wf(),
        forall|i: int| 0 <= i < masks@.len() ==> (#[trigger] masks@[i]).wf(),
    ensures
        ({
            let a = msm_spec(coeff@, values(masks@), coeff@.len());
            let c = aggregate_dlog_challenge(ro@, *public, coeff@, a);
            &&& r.is_some() == (c != 0)
            &&& forall|b: Seq<u8>, gammas: Seq<nat>|
                #[trigger] points_over(coeff@, b, gammas) ==> a == C::mul_spec(
                    b,
                    dot(gammas, values(masks@), coeff@.len()),
                )
            &&& r matches Some(p) ==> {
                &&& p.challenge.wf()
                &&& p.challenge@ == c
                &&& p.witness@.len() == coeff@.len()
                &&& forall|i: int|
                    0 <= i < coeff@.len() ==> (#[trigger] p.witness@[i]).wf() && p.witness@[i]@
                        == fr_sub_spec(masks@[i]@, (c * secret@[i]@) % fr_modulus())
            }
        }),
{
    let a = multiexp(coeff, masks);
    let challenge = absorb_statement(ro, public, coeff).finish_to_scalar(&a);
    if challenge.is_zero() {
        return None;
    }
    let mut witness: Vec<Scalar> = Vec::new();
    let mut i: usize = 0;
    while i < coeff.len()
        invariant
            i <= coeff@.len(),
            secret@.len() == coeff@.len(),
            masks@.len() == coeff@.len(),
            challenge.wf(),
            forall|k: int| 0 <= k < secret@.len() ==> (#[trigger] secret@[k]).wf(),
            forall|k: int| 0 <= k < masks@.len() ==> (#[trigger] masks@[k]).wf(),
            witness@.len() == i,
            forall|k: int|
                0 <= k < i ==> (#[trigger] witness@[k]).wf() && witness@[k]@ == fr_sub_spec(
                    masks@[k]@,
                    (challenge@ * secret@[k]@) % fr_modulus(),
                ),
        decreases coeff@.len() - i,
    {
        witness.push(fr_sub(&masks[i], &fr_mul(&challenge, &secret[i])));
        i = i + 1;
    }
    Some(AggregateDlogProof { challenge, witness })
}

/// A proof of knowledge of `secret` with `public = Σ secret_i·coeff_i`,
/// bound to `ro`. The prover draws fresh masks until the challenge is
/// non-zero, and returns none if that has not happened after
/// `MAX_PROOF_ATTEMPTS` draws.
pub fn prove_aggregate_dlog<C: Curve>(
    ro: RandomOracle,
    public: &C,
    coeff: &[C],
    secret: &[Scalar],
    csprng: &mut StdRng,
) -> (r: Option<AggregateDlogProof>)
    requires
        coeff@.len() >= 1,
        secret@.len() == coeff@.len(),
        forall|i: int| 0 <= i < coeff@.len() ==> on_curve(#[trigger] coeff@[i]),
        forall|i: int| 0 <= i < secret@.len() ==> (#[trigger] secret@[i]).wf(),
    ensures
        r matches Some(p) ==> {
            &&& p.challenge.wf()
            &&& p.challenge@ != 0
            &&& p.witness@.len() == coeff@.len()
            &&& forall|i: int| 0 <= i < coeff@.len() ==> (#[trigger] p.witness@[i]).wf()
            &&& forall|b: Seq<u8>, gammas: Seq<nat>|
                #[trigger] points_over(coeff@, b, gammas) && public.enc() == C::mul_spec(
                    b,
                    dot(gammas, values(secret@), coeff@.len()),
                ) ==> exists|alphas: Seq<nat>|
                    #[trigger] aggregate_dlog_honest(
                        ro@,
                        *public,
                        coeff@,
                        p,
                        b,
                        gammas,
                        values(secret@),
                        alphas,
                    )
        },
{
    let mut attempts: u32 = 0;
    while attempts < MAX_PROOF_ATTEMPTS
        invariant
            coeff@.len() >= 1,
            secret@.len() == coeff@.len(),
            forall|i: int| 0 <= i < coeff@.len() ==> on_curve(#[trigger] coeff@[i]),
            forall|i: int| 0 <= i < secret@.len() ==> (#[trigger] secret@[i]).wf(),
        decreases MAX_PROOF_ATTEMPTS - attempts,
    {
        let mut masks: Vec<Scalar> = Vec::new();
        let mut i: usize = 0;
        while i < coeff.len()
            invariant
                i <= coeff@.len(),
                masks@.len() == i,
                forall|k: int| 0 <= k < masks@.len() ==> (#[trigger] masks@[k]).wf(),
            decreases coeff@.len() - i,
        {
            masks.push(fr_random(csprng));
            i = i + 1;
        }
        let r = prove_aggregate_dlog_with_masks(ro.split(), public, coeff, secret, masks.as_slice());
        if let Some(p) = r {
            assert forall|b: Seq<u8>, gammas: Seq<nat>|
                #[trigger] points_over(coeff@, b, gammas) && public.enc() == C::mul_spec(
                    b,
                    dot(gammas, values(secret@), coeff@.len()),
                ) implies exists|alphas: Seq<nat>|
                    #[trigger] aggregate_dlog_honest(
                        ro@,
                        *public,
                        coeff@,
                        p,
                        b,
                        gammas,
                        values(secret@),
                        alphas,
                    ) by {
                assert(aggregate_dlog_honest(
                    ro@,
                    *public,
                    coeff@,
                    p,
                    b,
                    gammas,
                    values(secret@),
                    values(masks@),
                ));
            }
            return Some(p);
        }
        attempts = attempts + 1;
    }
    None
}

/// Checks a proof of knowledge of a representation of `public` over `coeff`.
///
/// Every proof that an honest prover makes for a true statement is accepted.
pub fn verify_aggregate_dlog<C: Curve>(
    ro: RandomOracle,
    public: &C,
    coeff: &[C],
    proof: &AggregateDlogProof,
) -> (r: bool)
    requires
        coeff@.len() >= 1,
        on_curve(*public),
        forall|i: int| 0 <= i < coeff@.len() ==> on_curve(#[trigger] coeff@[i]),
        proof.challenge.wf(),
        forall|i: int| 0 <= i < proof.witness@.len() ==> (#[trigger] proof.witness@[i]).wf(),
    ensures
        r == aggregate_dlog_accepts(ro@, *public, coeff@, *proof),
        forall|b: Seq<u8>, gammas: Seq<nat>, xs: Seq<nat>, alphas: Seq<nat>|
            #[trigger] aggregate_dlog_honest(ro@, *public, coeff@, *proof, b, gammas, xs, alphas) ==> r,
{
    if proof.witness.len() != coeff.len() {
        return false;
    }
    let ghost ro_v = ro@;
    let first = public.mul_by_scalar(&proof.challenge);
    let second = multiexp(coeff, proof.witness.as_slice());
    let a = first.plus_point(&second);
    let computed = absorb_statement(ro, public, coeff).finish_to_scalar(&a);
    proof {
        lemma_scalar_eq(computed, proof.challenge);
    }
    let r = computed == proof.challenge;
    proof {
        assert forall|b: Seq<u8>, gammas: Seq<nat>, xs: Seq<nat>, alphas: Seq<nat>|
            #[trigger] aggregate_dlog_honest(ro_v, *public, coeff@, *proof, b, gammas, xs, alphas)
            implies r by {
            let n = coeff@.len();
            let c = proof.challenge@;
            let zs = values(proof.witness@);
            assert forall|i: int| 0 <= i < n implies #[trigger] zs[i] == fr_sub_spec(
                alphas[i],
                (c * xs[i]) % fr_modulus(),
            ) by {
                assert(zs[i] == proof.witness@[i]@);
            }
            lemma_dot_responses(gammas, xs, alphas, zs, c, n);
            assert(first.enc() == C::mul_spec(b, (dot(gammas, xs, n) * c) % fr_modulus()));
            assert(second.enc() == C::mul_spec(b, dot(gammas, zs, n)));
            assert(a.enc() == C::mul_spec(b, dot(gammas, alphas, n)));
        }
    }
    r
}

} // verus!
