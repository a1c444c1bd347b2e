//! A Fiat–Shamir transcript: the bytes absorbed so far, hashed with SHA-256
//! when a challenge is due.
use crate::bytes::{be_value, read_u64_be};
use crate::curve::Curve;
use crate::scalar::{fr_add, fr_modulus, fr_mul, lemma_be_32, limb_base, Scalar};
use sha2::{Digest, Sha256};
use vstd::prelude::*;

verus! {

/// The SHA-256 digest of `data`.
pub uninterp spec fn sha256_of(data: Seq<u8>) -> Seq<u8>;

/// Relies on sha2's `Digest::digest` for `Sha256`: the 32-byte SHA-256 digest.
#[verifier::external_body]
pub(crate) fn sha256(data: &[u8]) -> (r: Vec<u8>)
    ensures
        r@ == sha256_of(data@),
        r@.len() == 32,
{
    Sha256::digest(data).to_vec()
}

/// The scalar that a SHA-256 digest stands for: the digest read big-endian,
/// reduced modulo r.
pub open spec fn digest_scalar(d: Seq<u8>) -> nat {
    be_value(d) % fr_modulus()
}

/// A transcript. Prover and verifier absorb the same bytes in the same order,
/// so that both arrive at the same challenge.
#[derive(Debug)]
pub struct RandomOracle {
    transcript: Vec<u8>,
}

impl View for RandomOracle {
    type V = Seq<u8>;

    closed spec fn view(&self) -> Seq<u8> {
        self.transcript@
    }
}

impl RandomOracle {
    /// A transcript that starts with the domain separator `prefix`.
    pub fn domain(prefix: &[u8]) -> (r: RandomOracle)
        ensures
            r@ == prefix@,
    {
        let r = RandomOracle { transcript: Vec::new() };
        assert(r@ + prefix@ =~= prefix@);
        r.append_bytes(prefix)
    }

    /// Absorbs raw bytes, such as a label.
    pub fn append_bytes(self, data: &[u8]) -> (r: RandomOracle)
        ensures
            r@ == self@ + data@,
    {
        let mut t = self.transcript;
        let mut i: usize = 0;
        let ghost start = t@;
        while i < data.len()
            invariant
                i <= data@.len(),
                t@ == start + data@.subrange(0, i as int),
            decreases data@.len() - i,
        {
            t.push(data[i]);
            i = i + 1;
            assert(t@ =~= start + data@.subrange(0, i as int));
        }
        assert(data@.subrange(0, data@.len() as int) =~= data@);
        RandomOracle { transcript: t }
    }

    /// Absorbs a point through its canonical encoding.
    pub fn append<C: Curve>(self, p: &C) -> (r: RandomOracle)
        ensures
            r@ == self@ + p.enc(),
    {
        let b = p.curve_to_bytes();
        self.append_bytes(b.as_slice())
    }

    /// A copy of the transcript, to be continued independently.
    pub fn split(&self) -> (r: RandomOracle)
        ensures
            r@ == self@,
    {
        RandomOracle { transcript: self.transcript.clone() }
    }

    /// The SHA-256 digest of the transcript.
    pub fn finish(self) -> (r: Vec<u8>)
        ensures
            r@ == sha256_of(self@),
            r@.len() == 32,
    {
        sha256(self.transcript.as_slice())
    }

    /// Absorbs `p` and returns the digest of the transcript as a scalar,
    /// reduced modulo r.
    #[verifier::rlimit(40)]
    pub fn finish_to_scalar<C: Curve>(self, p: &C) -> (r: Scalar)
        ensures
            r.wf(),
            r@ == digest_scalar(sha256_of(self@ + p.enc())),
    {
        let d = self.append(p).finish();
        let l3 = read_u64_be(d.as_slice(), 0);
        let l2 = read_u64_be(d.as_slice(), 8);
        let l1 = read_u64_be(d.as_slice(), 16);
        let l0 = read_u64_be(d.as_slice(), 24);
        proof {
            lemma_be_32(d@);
            assert(d@.subrange(0, 32) =~= d@);
        }
        let hi = Scalar { l0: l2, l1: l3, l2: 0, l3: 0 };
        let lo = Scalar { l0: l0, l1: l1, l2: 0, l3: 0 };
        let shift = Scalar { l0: 0, l1: 0, l2: 1, l3: 0 };
        proof {
            let bb = limb_base();
            assert(lo@ < bb * bb) by (nonlinear_arith)
                requires lo@ == l0 as nat + bb * (l1 as nat), l0 < bb, l1 < bb, bb == limb_base();
            assert(hi@ < bb * bb) by (nonlinear_arith)
                requires hi@ == l2 as nat + bb * (l3 as nat), l2 < bb, l3 < bb, bb == limb_base();
            assert(shift@ == bb * bb);
            let v = be_value(d@);
            assert(v == l0 as nat + bb * (l1 as nat + bb * (l2 as nat + bb * (l3 as nat))));
            assert(v == lo@ + shift@ * hi@) by (nonlinear_arith)
                requires
                    v == l0 as nat + bb * (l1 as nat + bb * (l2 as nat + bb * (l3 as nat))),
                    lo@ == l0 as nat + bb * (l1 as nat),
                    hi@ == l2 as nat + bb * (l3 as nat),
                    shift@ == bb * bb;
        }
        let m = fr_mul(&hi, &shift);
        let r = fr_add(&m, &lo);
        proof {
            vstd::arithmetic::div_mod::lemma_add_mod_noop(
                (hi@ * shift@) as int,
                lo@ as int,
                fr_modulus() as int,
            );
            vstd::arithmetic::div_mod::lemma_small_mod(lo@, fr_modulus());
            assert(hi@ * shift@ == shift@ * hi@) by (nonlinear_arith);
        }
        r
    }
}

} // verus!
