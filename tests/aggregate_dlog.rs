use identity_crypto::aggregate_dlog::{multiexp, prove_aggregate_dlog, verify_aggregate_dlog};
use identity_crypto::curve::{Curve, G1Point};
use identity_crypto::random_oracle::RandomOracle;
use identity_crypto::scalar::Scalar;
use rand::rngs::StdRng;
use rand::SeedableRng;

#[test]
fn multiexp_matches_sum_of_multiples() {
    let mut csprng = StdRng::seed_from_u64(41);
    let g = G1Point::generate(&mut csprng);
    let h = G1Point::generate(&mut csprng);
    let r = multiexp(&[g, h, g], &[Scalar::from_u64(2), Scalar::from_u64(3), Scalar::from_u64(4)]);
    let expected = g.mul_by_scalar(&Scalar::from_u64(6)).plus_point(&h.mul_by_scalar(&Scalar::from_u64(3)));
    assert!(r.equals(&expected));
}

#[test]
fn aggregate_dlog_correctness_and_soundness() {
    let mut csprng = StdRng::seed_from_u64(42);
    for n in 1..4 {
        let coeff: Vec<G1Point> = (0..n).map(|_| G1Point::generate(&mut csprng)).collect();
        let secret: Vec<Scalar> = (0..n).map(|_| Scalar::generate(&mut csprng)).collect();
        let public = multiexp(&coeff, &secret);
        let ro = RandomOracle::domain(b"aggregate dlog test");
        let proof = prove_aggregate_dlog(ro.split(), &public, &coeff, &secret, &mut csprng).unwrap();
        assert!(!proof.challenge.is_zero());
        assert_eq!(proof.witness.len(), n);
        assert!(verify_aggregate_dlog(ro.split(), &public, &coeff, &proof));
        let other = public.plus_point(&coeff[0]);
        assert!(!verify_aggregate_dlog(ro.split(), &other, &coeff, &proof));
        assert!(!verify_aggregate_dlog(RandomOracle::domain(b"y"), &public, &coeff, &proof));
        let mut shorter = proof.clone();
        shorter.witness.pop();
        assert!(!verify_aggregate_dlog(ro.split(), &public, &coeff, &shorter));
    }
}

#[test]
fn aggregate_dlog_proof_serialization() {
    let mut csprng = StdRng::seed_from_u64(43);
    for n in 0..4usize {
        let proof = identity_crypto::aggregate_dlog::AggregateDlogProof {
            challenge: Scalar::generate(&mut csprng),
            witness: (0..n).map(|_| Scalar::generate(&mut csprng)).collect(),
        };
        let bytes = proof.to_bytes();
        assert_eq!(bytes.len(), 32 * (n + 1));
        let back = identity_crypto::aggregate_dlog::AggregateDlogProof::from_bytes(&bytes, n);
        assert_eq!(back, Ok(proof));
        assert!(identity_crypto::aggregate_dlog::AggregateDlogProof::from_bytes(&bytes, n + 1).is_err());
    }
}
