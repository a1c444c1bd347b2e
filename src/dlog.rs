//! Proof of knowledge of a discrete logarithm: knowledge of `x` with
//! `public = x·base`, made non-interactive by hashing the statement and the
//! prover's first move with SHA-256.
use crate::bytes::be_value;
use crate::curve::{on_curve, Curve};
use crate::random_oracle::{sha256_of, RandomOracle};
use crate::scalar::{
    fr_modulus, fr_mul, fr_random, fr_sub, fr_sub_spec, lemma_scalar_eq, Scalar, SCALAR_LENGTH,
};
use rand::rngs::StdRng;
use vstd::prelude::*;

verus! {

/// How many masks a prover draws before it gives up on finding a usable
/// challenge. A draw fails where the digest is no canonical scalar (for the
/// discrete-log proof, with probability below 0.55) or the challenge is zero
/// (probability 1/r), so all draws fail with probability below 2^-55.
pub const MAX_PROOF_ATTEMPTS: u32 = 64;

/// A Schnorr proof: the challenge, the prover's first move and the response.
#[derive(Clone, Copy, Debug, PartialEq, Eq)]
pub struct DlogProof<T: Curve> {
    pub challenge: Scalar,
    pub randomised_point: T,
    pub witness: Scalar,
}

/// `(m + (a − m)) mod r` is `a`.
pub proof fn lemma_mask_recovered(m: nat, a: nat)
    requires
        m < fr_modulus(),
        a < fr_modulus(),
    ensures
        (m + fr_sub_spec(a, m)) % fr_modulus() == a,
{
    let q = fr_modulus();
    if a >= m {
        vstd::arithmetic::div_mod::lemma_fundamental_div_mod_converse(
            (a + q - m) as int,
            q as int,
            1,
            (a - m) as int,
        );
        vstd::arithmetic::div_mod::lemma_small_mod(a, q);
    } else {
        vstd::arithmetic::div_mod::lemma_small_mod((a + q - m) as nat, q);
        vstd::arithmetic::div_mod::lemma_fundamental_div_mod_converse(
            (a + q) as int,
            q as int,
            1,
            a as int,
        );
    }
}

/// The digest from which the challenge of a proof comes.
pub open spec fn dlog_hash<T: Curve>(prefix: Seq<u8>, public: T, point: T) -> Seq<u8> {
    sha256_of(prefix + public.enc() + point.enc())
}

/// What the verifier accepts: the digest is a canonical scalar equal to the
/// challenge, and `randomised_point = challenge·public + witness·base`.
pub open spec fn dlog_accepts<T: Curve>(
    prefix: Seq<u8>,
    base: T,
    public: T,
    proof: DlogProof<T>,
) -> bool {
    let h = dlog_hash(prefix, public, proof.randomised_point);
    &&& be_value(h) < fr_modulus()
    &&& proof.challenge@ == be_value(h)
    &&& proof.randomised_point.enc() == T::add_spec(
        T::mul_spec(public.enc(), proof.challenge@),
        T::mul_spec(base.enc(), proof.witness@),
    )
}

/// `proof` is what an honest prover produces for `public = x·base` from the
/// mask `a`.
pub open spec fn dlog_honest<T: Curve>(
    prefix: Seq<u8>,
    base: T,
    public: T,
    proof: DlogProof<T>,
    x: nat,
    a: nat,
) -> bool {
    &&& a < fr_modulus()
    &&& public.enc() == T::mul_spec(base.enc(), x)
    &&& proof.randomised_point.enc() == T::mul_spec(base.enc(), a)
    &&& proof.challenge@ == be_value(dlog_hash(prefix, public, proof.randomised_point))
    &&& proof.witness@ == fr_sub_spec(a, (x * proof.challenge@) % fr_modulus())
}

impl<T: Curve> DlogProof<T> {
    pub open spec fn wf(&self) -> bool {
        self.challenge.wf() && on_curve(self.randomised_point) && self.witness.wf()
    }

    /// Length of the encoding of a proof.
    pub open spec fn length_spec() -> nat {
        2 * 32 + T::length_spec()
    }

    /// `b` is the encoding of the proof: challenge, first move and response.
    pub open spec fn encodes(&self, b: Seq<u8>) -> bool {
        let l = T::length_spec() as int;
        &&& b.len() == Self::length_spec()
        &&& be_value(b.subrange(0, 32)) == self.challenge@
        &&& b.subrange(32, 32 + l) == self.randomised_point.enc()
        &&& be_value(b.subrange(32 + l, 64 + l)) == self.witness@
    }

    /// The bytes that `from_bytes` accepts: long enough, two canonical
    /// scalars around a point of the group.
    pub open spec fn decodable(b: Seq<u8>) -> bool {
        let l = T::length_spec() as int;
        &&& b.len() >= Self::length_spec()
        &&& be_value(b.subrange(0, 32)) < fr_modulus()
        &&& T::decodes_spec(b.subrange(32, 32 + l))
        &&& be_value(b.subrange(32 + l, 64 + l)) < fr_modulus()
    }

    /// The encoding of the proof.
    pub fn to_bytes(&self) -> (r: Vec<u8>)
        ensures
            self.encodes(r@),
    {
        let c = self.challenge.to_bytes();
        let p = self.randomised_point.curve_to_bytes();
        let w = self.witness.to_bytes();
        proof {
            self.randomised_point.lemma_enc_len();
        }
        let mut out = c;
        let mut q = p;
        out.append(&mut q);
        let mut v = w;
        out.append(&mut v);
        proof {
            let l = T::length_spec() as int;
            assert(out@.subrange(0, 32) =~= c@);
            assert(out@.subrange(32, 32 + l) =~= p@);
            assert(out@.subrange(32 + l, 64 + l) =~= w@);
        }
        out
    }

    /// Reads a proof from the first bytes of `b`; bytes after it are ignored.
    pub fn from_bytes(b: &[u8]) -> (r: Result<DlogProof<T>, DecodeError>)
        ensures
            r.is_ok() == Self::decodable(b@),
            r matches Ok(q) ==> q.wf() && q.encodes(b@.subrange(0, Self::length_spec() as int)),
    {
        let l = T::group_element_length();
        if b.len() < 2 * SCALAR_LENGTH + l {
            return Err(DecodeError::TooShort);
        }
        let challenge = match Scalar::from_bytes(b) {
            Some(c) => c,
            None => return Err(DecodeError::NonCanonicalScalar),
        };
        let (_, rest) = b.split_at(SCALAR_LENGTH);
        proof {
            assert(rest@ =~= b@.subrange(32, b@.len() as int));
            assert(rest@.subrange(0, l as int) =~= b@.subrange(32, 32 + l));
        }
        let randomised_point = match T::bytes_to_curve(rest) {
            Some(p) => p,
            None => return Err(DecodeError::InvalidPoint),
        };
        let (_, rest2) = b.split_at(SCALAR_LENGTH + l);
        proof {
            assert(rest2@ =~= b@.subrange(32 + l, b@.len() as int));
            assert(rest2@.subrange(0, 32) =~= b@.subrange(32 + l, 64 + l));
        }
        let witness = match Scalar::from_bytes(rest2) {
            Some(w) => w,
            None => return Err(DecodeError::NonCanonicalScalar),
        };
        proof {
            let n = Self::length_spec() as int;
            let s = b@.subrange(0, n);
            assert(s.subrange(0, 32) =~= b@.subrange(0, 32));
            assert(s.subrange(32, 32 + l) =~= b@.subrange(32, 32 + l));
            assert(s.subrange(32 + l, 64 + l) =~= b@.subrange(32 + l, 64 + l));
        }
        Ok(DlogProof { challenge, randomised_point, witness })
    }
}

/// Why a byte string is not the encoding of a value.
#[derive(Clone, Copy, Debug, PartialEq, Eq, Structural)]
pub enum DecodeError {
    /// Fewer bytes than the encoding takes.
    TooShort,
    /// A scalar whose value is not below r.
    NonCanonicalScalar,
    /// Bytes that are not the encoding of a point of the group.
    InvalidPoint,
}

/// A proof is recovered from its encoding: `from_bytes` accepts the
/// encoding of every well-formed proof, and what it returns then is that proof.
pub proof fn lemma_dlog_proof_round_trip<T: Curve>(p: DlogProof<T>, q: DlogProof<T>, b: Seq<u8>)
    requires
        p.wf(),
        p.encodes(b),
    ensures
        DlogProof::<T>::decodable(b),
        q.encodes(b.subrange(0, DlogProof::<T>::length_spec() as int)) ==> q == p,
{
    assert(b.subrange(0, DlogProof::<T>::length_spec() as int) =~= b);
    let l = T::length_spec() as int;
    assert(on_curve(p.randomised_point));
    assert(T::decodes_spec(b.subrange(32, 32 + l)));
    assert(be_value(b.subrange(0, 32)) < fr_modulus());
    if q.encodes(b) {
        lemma_scalar_eq(p.challenge, q.challenge);
        lemma_scalar_eq(p.witness, q.witness);
        T::lemma_enc_injective(p.randomised_point, q.randomised_point);
    }
}

/// The proof for `public = secret·base` with first move `mask·base`; none
/// where the digest is not a canonical non-zero scalar.
pub fn prove_dlog_with_mask<T: Curve>(
    challenge_prefix: &[u8],
    public: &T,
    secret: &Scalar,
    base: &T,
    mask: &Scalar,
) -> (r: Option<DlogProof<T>>)
    requires
        on_curve(*public),
        on_curve(*base),
        secret.wf(),
        mask.wf(),
    ensures
        ({
            let point = T::mul_spec(base.enc(), mask@);
            let h = sha256_of(challenge_prefix@ + public.enc() + point);
            &&& r.is_some() == (be_value(h) < fr_modulus() && be_value(h) != 0)
            &&& r matches Some(p) ==> {
                &&& p.wf()
                &&& p.randomised_point.enc() == point
                &&& p.challenge@ == be_value(h)
                &&& p.witness@ == fr_sub_spec(mask@, (secret@ * p.challenge@) % fr_modulus())
            }
        }),
{
    let randomised_point = base.mul_by_scalar(mask);
    let h = RandomOracle::domain(challenge_prefix).append(public).append(&randomised_point).finish();
    proof {
        assert(h@.subrange(0, 32) =~= h@);
    }
    match Scalar::from_bytes(h.as_slice()) {
        None => None,
        Some(challenge) => {
            if challenge.is_zero() {
                None
            } else {
                let witness = fr_sub(mask, &fr_mul(secret, &challenge));
                Some(DlogProof { challenge, randomised_point, witness })
            }
        },
    }
}

/// A proof of knowledge of `secret` with `public = secret·base`, bound to
/// `challenge_prefix`. The prover draws fresh masks until the challenge is a
/// canonical non-zero scalar, and returns none if that has not happened
/// after `MAX_PROOF_ATTEMPTS` draws.
pub fn prove_dlog<T: Curve>(
    csprng: &mut StdRng,
    challenge_prefix: &[u8],
    public: &T,
    secret: &Scalar,
    base: &T,
) -> (r: Option<DlogProof<T>>)
    requires
        on_curve(*public),
        on_curve(*base),
        secret.wf(),
    ensures
        r matches Some(p) ==> {
            &&& p.wf()
            &&& p.challenge@ != 0
            &&& p.challenge@ == be_value(dlog_hash(challenge_prefix@, *public, p.randomised_point))
            &&& exists|a: nat|
                a < fr_modulus() && p.randomised_point.enc() == T::mul_spec(base.enc(), a)
                    && p.witness@ == fr_sub_spec(a, (secret@ * p.challenge@) % fr_modulus())
            &&& public.enc() == T::mul_spec(base.enc(), secret@) ==> exists|a: nat|
                #[trigger] dlog_honest(challenge_prefix@, *base, *public, p, secret@, a)
        },
{
    let mut attempts: u32 = 0;
    while attempts < MAX_PROOF_ATTEMPTS
        invariant
            on_curve(*public),
            on_curve(*base),
            secret.wf(),
        decreases MAX_PROOF_ATTEMPTS - attempts,
    {
        let mask = fr_random(csprng);
        let r = prove_dlog_with_mask(challenge_prefix, public, secret, base, &mask);
        if let Some(p) = r {
            assert(p.randomised_point.enc() == T::mul_spec(base.enc(), mask@));
            assert(public.enc() == T::mul_spec(base.enc(), secret@) ==> dlog_honest(
                challenge_prefix@,
                *base,
                *public,
                p,
                secret@,
                mask@,
            ));
            return Some(p);
        }
        attempts = attempts + 1;
    }
    None
}

/// Checks a proof of knowledge of the discrete logarithm of `public` to
/// `base`, bound to `challenge_prefix`.
///
/// Every proof that an honest prover makes for a true statement is accepted.
pub fn verify_dlog<T: Curve>(challenge_prefix: &[u8], base: &T, public: &T, proof: &DlogProof<T>) -> (r: bool)
    requires
        on_curve(*base),
        on_curve(*public),
        proof.wf(),
    ensures
        r == dlog_accepts(challenge_prefix@, *base, *public, *proof),
        forall|x: nat, a: nat|
            #[trigger] dlog_honest(challenge_prefix@, *base, *public, *proof, x, a) ==> r,
{
    let h = RandomOracle::domain(challenge_prefix).append(public).append(&proof.randomised_point).finish();
    proof {
        assert(h@.subrange(0, 32) =~= h@);
    }
    let c = Scalar::from_bytes(h.as_slice());
    let first = public.mul_by_scalar(&proof.challenge);
    let second = base.mul_by_scalar(&proof.witness);
    let lhs = first.plus_point(&second);
    let r = match c {
        None => false,
        Some(c) => proof.randomised_point.equals(&lhs) && c == proof.challenge,
    };
    proof {
        if let Some(c) = c {
            lemma_scalar_eq(c, proof.challenge);
        }
        assert forall|x: nat, a: nat|
            #[trigger] dlog_honest(challenge_prefix@, *base, *public, *proof, x, a) implies r by {
            let q = fr_modulus();
            let ch = proof.challenge@;
            let m = (x * ch) % q;
            assert(first.enc() == T::mul_spec(base.enc(), m));
            assert(second.enc() == T::mul_spec(base.enc(), proof.witness@));
            assert(m < q) by {
                vstd::arithmetic::div_mod::lemma_mod_bound((x * ch) as int, q as int);
            }
            lemma_mask_recovered(m, a);
            assert(lhs.enc() == T::mul_spec(base.enc(), a));
        }
    }
    r
}

} // verus!
