//! Pedersen commitments `C = v·g + r·h` under a key `(g, h)`.
use crate::curve::{on_curve, Curve};
use crate::scalar::{fr_modulus, fr_random, Scalar};
use rand::rngs::StdRng;
use vstd::prelude::*;

verus! {

/// A commitment key: two generators of the group.
#[derive(Clone, Copy, Debug, PartialEq, Eq)]
pub struct CommitmentKey<C: Curve>(pub C, pub C);

/// A commitment: a point of the group.
#[derive(Clone, Copy, Debug, PartialEq, Eq)]
pub struct Commitment<C: Curve>(pub C);

/// The value committed to.
#[derive(Clone, Copy, Debug, PartialEq, Eq, Structural)]
pub struct Value {
    pub value: Scalar,
}

/// The blinding scalar of a commitment.
#[derive(Clone, Copy, Debug, PartialEq, Eq, Structural)]
pub struct Randomness {
    pub randomness: Scalar,
}

/// The encoding of the commitment to `v` with blinding `r` under `key`.
pub open spec fn commit_spec<C: Curve>(key: CommitmentKey<C>, v: nat, r: nat) -> Seq<u8> {
    C::add_spec(C::mul_spec(key.0.enc(), v), C::mul_spec(key.1.enc(), r))
}

/// `key` is `(γ·B, η·B)` for the point `B` encoded as `b`.
pub open spec fn key_over<C: Curve>(key: CommitmentKey<C>, b: Seq<u8>, gamma: nat, eta: nat) -> bool {
    &&& C::decodes_spec(b)
    &&& key.0.enc() == C::mul_spec(b, gamma)
    &&& key.1.enc() == C::mul_spec(b, eta)
}

/// Under a key `(γ·B, η·B)`, the commitment to `v` with blinding `r` is
/// this multiple of `B`.
pub open spec fn commit_exponent(gamma: nat, eta: nat, v: nat, r: nat) -> nat {
    ((gamma * v) % fr_modulus() + (eta * r) % fr_modulus()) % fr_modulus()
}

impl<C: Curve> CommitmentKey<C> {
    pub open spec fn wf(&self) -> bool {
        on_curve(self.0) && on_curve(self.1)
    }

    /// A key of two independently drawn points.
    pub fn generate(csprng: &mut StdRng) -> (r: CommitmentKey<C>)
        ensures
            r.wf(),
    {
        let g = C::generate(csprng);
        let h = C::generate(csprng);
        CommitmentKey(g, h)
    }

    /// The commitment to `v` with blinding `r`.
    pub fn commit_with(&self, v: &Value, r: &Randomness) -> (c: Commitment<C>)
        requires
            self.wf(),
            v.value.wf(),
            r.randomness.wf(),
        ensures
            on_curve(c.0),
            c.0.enc() == commit_spec(*self, v.value@, r.randomness@),
            forall|b: Seq<u8>, gamma: nat, eta: nat|
                #[trigger] key_over(*self, b, gamma, eta) ==> c.0.enc() == C::mul_spec(
                    b,
                    commit_exponent(gamma, eta, v.value@, r.randomness@),
                ),
    {
        let a = self.0.mul_by_scalar(&v.value);
        let b = self.1.mul_by_scalar(&r.randomness);
        let c = Commitment(a.plus_point(&b));
        assert forall|bb: Seq<u8>, gamma: nat, eta: nat|
            #[trigger] key_over(*self, bb, gamma, eta) implies c.0.enc() == C::mul_spec(
                bb,
                commit_exponent(gamma, eta, v.value@, r.randomness@),
            ) by {
            assert(a.enc() == C::mul_spec(bb, (gamma * v.value@) % fr_modulus()));
            assert(b.enc() == C::mul_spec(bb, (eta * r.randomness@) % fr_modulus()));
        }
        c
    }

    /// The commitment to `v` with a freshly drawn blinding, and that blinding.
    pub fn commit(&self, v: &Value, csprng: &mut StdRng) -> (res: (Commitment<C>, Randomness))
        requires
            self.wf(),
            v.value.wf(),
        ensures
            res.1.randomness.wf(),
            on_curve(res.0.0),
            res.0.0.enc() == commit_spec(*self, v.value@, res.1.randomness@),
            forall|b: Seq<u8>, gamma: nat, eta: nat|
                #[trigger] key_over(*self, b, gamma, eta) ==> res.0.0.enc() == C::mul_spec(
                    b,
                    commit_exponent(gamma, eta, v.value@, res.1.randomness@),
                ),
    {
        let r = Randomness { randomness: fr_random(csprng) };
        (self.commit_with(v, &r), r)
    }

    /// Whether `c` is the commitment to `v` with blinding `r`.
    pub fn open(&self, c: &Commitment<C>, v: &Value, r: &Randomness) -> (res: bool)
        requires
            self.wf(),
            v.value.wf(),
            r.randomness.wf(),
        ensures
            res == (c.0.enc() == commit_spec(*self, v.value@, r.randomness@)),
    {
        let d = self.commit_with(v, r);
        c.0.equals(&d.0)
    }
}

impl Value {
    /// A random non-zero value; none if `attempts` draws all gave zero.
    pub fn generate_non_zero(csprng: &mut StdRng) -> (r: Option<Value>)
        ensures
            r matches Some(v) ==> v.value.wf() && v.value@ != 0,
    {
        let mut attempts: u32 = 0;
        while attempts < crate::dlog::MAX_PROOF_ATTEMPTS
            decreases crate::dlog::MAX_PROOF_ATTEMPTS - attempts,
        {
            let s = fr_random(csprng);
            if !s.is_zero() {
                return Some(Value { value: s });
            }
            attempts = attempts + 1;
        }
        None
    }
}

} // verus!
