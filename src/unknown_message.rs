//! The message that a Pointcheval–Sanders signer signs without seeing it: a
//! commitment in G1 to the attribute values.
use crate::curve::{on_curve, Curve, G1Point};
use crate::pedersen::Commitment;
use crate::scalar::Scalar;
use rand::rngs::StdRng;
use vstd::prelude::*;

verus! {

/// A committed message, as the signer receives it.
#[derive(Clone, Copy, Debug)]
pub struct UnknownMessage(pub G1Point);

impl PartialEq for UnknownMessage {
    fn eq(&self, other: &Self) -> (r: bool) {
        self.0.equals(&other.0)
    }
}

impl vstd::std_specs::cmp::PartialEqSpecImpl for UnknownMessage {
    open spec fn obeys_eq_spec() -> bool {
        true
    }

    open spec fn eq_spec(&self, other: &UnknownMessage) -> bool {
        self.0.enc() == other.0.enc()
    }
}

impl Eq for UnknownMessage {}

impl std::ops::Deref for UnknownMessage {
    type Target = G1Point;

    fn deref(&self) -> (r: &G1Point)
        ensures
            *r == self.0,
    {
        &self.0
    }
}

impl From<Commitment<G1Point>> for UnknownMessage {
    fn from(cmm: Commitment<G1Point>) -> (r: UnknownMessage) {
        UnknownMessage(cmm.0)
    }
}

impl vstd::std_specs::convert::FromSpecImpl<Commitment<G1Point>> for UnknownMessage {
    open spec fn obeys_from_spec() -> bool {
        true
    }

    open spec fn from_spec(cmm: Commitment<G1Point>) -> UnknownMessage {
        UnknownMessage(cmm.0)
    }
}

impl UnknownMessage {
    /// A valid but arbitrary message: a random point of G1. Meant for testing
    /// protocols built on the signature scheme.
    pub fn arbitrary(csprng: &mut StdRng) -> (r: UnknownMessage)
        ensures
            on_curve(r.0),
    {
        UnknownMessage(G1Point::generate(csprng))
    }
}

/// The randomness with which a signature on the committed message is turned
/// into a signature on the message itself.
#[derive(Clone, Copy, Debug, PartialEq, Eq, Structural)]
pub struct SigRetrievalRandomness {
    pub randomness: Scalar,
}

impl std::ops::Deref for SigRetrievalRandomness {
    type Target = Scalar;

    fn deref(&self) -> (r: &Scalar)
        ensures
            *r == self.randomness,
    {
        &self.randomness
    }
}

} // verus!
