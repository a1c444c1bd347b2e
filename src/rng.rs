//! The source of randomness that key generation and provers draw from.
use vstd::prelude::*;

verus! {

/// rand's `StdRng`, a seedable cryptographically secure generator.
#[verifier::external_type_specification]
#[verifier::external_body]
pub struct ExStdRng(rand::rngs::StdRng);

} // verus!
