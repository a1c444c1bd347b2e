use identity_crypto::com_enc_eq::{prove_com_enc_eq, verify_com_enc_eq, ComEncEqSecret};
use identity_crypto::curve::{Curve, G1Point};
use identity_crypto::elgamal;
use identity_crypto::pedersen::{CommitmentKey, Value};
use identity_crypto::random_oracle::RandomOracle;
use identity_crypto::scalar::Scalar;
use rand::rngs::StdRng;
use rand::SeedableRng;

#[test]
fn com_enc_eq_correctness_and_soundness() {
    let mut csprng = StdRng::seed_from_u64(21);
    for _ in 0..5 {
        let g = G1Point::generate(&mut csprng);
        let h = G1Point::generate(&mut csprng);
        let sk = elgamal::SecretKey::generate(&g, &mut csprng);
        let pk = elgamal::PublicKey::from_secret(&sk);
        let m = Value::generate_non_zero(&mut csprng).unwrap();
        let (cipher, r) = pk.encrypt_exponent(&m, &h, &mut csprng);
        let cmm_key = CommitmentKey::<G1Point>::generate(&mut csprng);
        let (cmm, s) = cmm_key.commit(&m, &mut csprng);
        let ro = RandomOracle::domain(b"com_enc_eq test");
        let secret = ComEncEqSecret { value: m, elgamal_rand: r, pedersen_rand: s };
        let proof =
            prove_com_enc_eq(ro.split(), &cipher, &cmm, &pk, &cmm_key, &h, &secret, &mut csprng)
                .unwrap();
        assert!(verify_com_enc_eq(ro.split(), &cipher, &cmm, &pk, &cmm_key, &h, &proof));

        let other = Value { value: Scalar::generate(&mut csprng) };
        let (other_cmm, _) = cmm_key.commit(&other, &mut csprng);
        assert!(!verify_com_enc_eq(ro.split(), &cipher, &other_cmm, &pk, &cmm_key, &h, &proof));
        let (other_cipher, _) = pk.encrypt_exponent(&other, &h, &mut csprng);
        assert!(!verify_com_enc_eq(ro.split(), &other_cipher, &cmm, &pk, &cmm_key, &h, &proof));
        let wrong_ro = RandomOracle::domain(b"another context");
        assert!(!verify_com_enc_eq(wrong_ro, &cipher, &cmm, &pk, &cmm_key, &h, &proof));
        let mut altered = proof;
        altered.witness.0 = Scalar::generate(&mut csprng);
        assert!(!verify_com_enc_eq(ro.split(), &cipher, &cmm, &pk, &cmm_key, &h, &altered));
        assert!(!proof.challenge.is_zero());
    }
}

#[test]
fn com_enc_eq_proof_serialization() {
    let mut csprng = StdRng::seed_from_u64(22);
    for _ in 0..100 {
        let proof = identity_crypto::com_enc_eq::ComEncEqProof {
            challenge: Scalar::generate(&mut csprng),
            witness: (
                Scalar::generate(&mut csprng),
                Scalar::generate(&mut csprng),
                Scalar::generate(&mut csprng),
            ),
        };
        let bytes = proof.to_bytes();
        assert_eq!(bytes.len(), 128);
        assert_eq!(identity_crypto::com_enc_eq::ComEncEqProof::from_bytes(&bytes), Ok(proof));
        assert!(identity_crypto::com_enc_eq::ComEncEqProof::from_bytes(&bytes[..127]).is_err());
    }
}
