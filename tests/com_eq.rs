use identity_crypto::com_eq::{prove_com_eq, verify_com_eq, ComEqProof, ComEqSecret};
use identity_crypto::curve::{Curve, G1Point, G2Point};
use identity_crypto::dlog::DecodeError;
use identity_crypto::pedersen::{CommitmentKey, Value};
use identity_crypto::random_oracle::RandomOracle;
use identity_crypto::scalar::Scalar;
use rand::rngs::StdRng;
use rand::SeedableRng;

#[test]
fn com_eq_correctness_and_soundness() {
    let mut csprng = StdRng::seed_from_u64(31);
    for _ in 0..5 {
        let cmm_key = CommitmentKey::<G1Point>::generate(&mut csprng);
        let base = G1Point::generate(&mut csprng);
        let v = Value { value: Scalar::generate(&mut csprng) };
        let (c, r) = cmm_key.commit(&v, &mut csprng);
        let y = base.mul_by_scalar(&v.value);
        let ro = RandomOracle::domain(b"com_eq test");
        let secret = ComEqSecret { value: v, randomness: r };
        let proof = prove_com_eq(ro.split(), &c, &y, &cmm_key, &base, &secret, &mut csprng).unwrap();
        assert!(!proof.challenge.is_zero());
        assert!(verify_com_eq(ro.split(), &c, &y, &cmm_key, &base, &proof));
        let other_y = base.mul_by_scalar(&Scalar::generate(&mut csprng));
        assert!(!verify_com_eq(ro.split(), &c, &other_y, &cmm_key, &base, &proof));
        let other_key = CommitmentKey::<G1Point>::generate(&mut csprng);
        assert!(!verify_com_eq(ro.split(), &c, &y, &other_key, &base, &proof));
        assert!(!verify_com_eq(RandomOracle::domain(b"x"), &c, &y, &cmm_key, &base, &proof));
    }
}

#[test]
fn com_eq_in_g2() {
    let mut csprng = StdRng::seed_from_u64(32);
    let cmm_key = CommitmentKey::<G2Point>::generate(&mut csprng);
    let base = G2Point::generate(&mut csprng);
    let v = Value { value: Scalar::from_u64(7) };
    let (c, r) = cmm_key.commit(&v, &mut csprng);
    let y = base.mul_by_scalar(&v.value);
    let ro = RandomOracle::domain(b"g2");
    let secret = ComEqSecret { value: v, randomness: r };
    let proof = prove_com_eq(ro.split(), &c, &y, &cmm_key, &base, &secret, &mut csprng).unwrap();
    assert!(verify_com_eq(ro.split(), &c, &y, &cmm_key, &base, &proof));
    assert!(cmm_key.open(&c, &v, &r));
    assert!(!cmm_key.open(&c, &Value { value: Scalar::from_u64(8) }, &r));
}

#[test]
fn com_eq_proof_serialization() {
    let mut csprng = StdRng::seed_from_u64(33);
    let proof = ComEqProof {
        challenge: Scalar::generate(&mut csprng),
        witness: (Scalar::generate(&mut csprng), Scalar::generate(&mut csprng)),
    };
    let bytes = proof.to_bytes();
    assert_eq!(ComEqProof::from_bytes(&bytes), Ok(proof));
    assert_eq!(ComEqProof::from_bytes(&bytes[..95]), Err(DecodeError::TooShort));
    let mut bad = bytes.clone();
    bad[32..64].copy_from_slice(&[0xff; 32]);
    assert_eq!(ComEqProof::from_bytes(&bad), Err(DecodeError::NonCanonicalScalar));
}
