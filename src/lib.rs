//! Cryptographic building blocks of an identity issuance protocol on BLS12-381.
//!
//! - `scalar`, `curve`, `bytes`: scalars of Fr and points of G1 and G2 in
//!   their canonical encodings, with the group laws stated over the encodings.
//! - `random_oracle`: the SHA-256 Fiat–Shamir transcript; `versioned`: the
//!   versioned envelope of serialized values.
//! - `pedersen`, `elgamal`, `secret_sharing`: commitments, encryption in the
//!   exponent, threshold sharing and reconstruction.
//! - `dlog`, `com_eq`, `com_eq_different_groups`, `com_enc_eq`,
//!   `aggregate_dlog`: sigma-protocol proofs, each with a verifier that
//!   accepts every honestly made proof.
//! - `ps_sig`, `unknown_message`: Pointcheval–Sanders blind signatures.
//! - `aggregate_sig`: BLS signatures and their aggregation.
//! - `identity`, `attributes`: the holder's issuance request, its validation
//!   and signing by the identity provider, the revokers' part, and the
//!   attribute list's checks.

pub mod aggregate_dlog;
pub mod aggregate_sig;
pub mod attributes;
pub mod bytes;
pub mod com_enc_eq;
pub mod com_eq;
pub mod com_eq_different_groups;
pub mod curve;
pub mod dlog;
pub mod elgamal;
pub mod identity;
pub mod pedersen;
pub mod ps_sig;
pub mod random_oracle;
pub mod rng;
pub mod scalar;
pub mod secret_sharing;
pub mod unknown_message;
pub mod versioned;
