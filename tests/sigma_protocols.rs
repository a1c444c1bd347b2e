use identity_crypto::com_eq_different_groups::{
    prove_com_eq_diff_grps, verify_com_eq_diff_grps, ComEqDiffGrpsProof, ComEqDiffGrpsSecret,
};
use identity_crypto::curve::{Curve, G1Point, G2Point};
use identity_crypto::dlog::{prove_dlog, verify_dlog, DlogProof};
use identity_crypto::pedersen::{CommitmentKey, Value};
use identity_crypto::random_oracle::RandomOracle;
use identity_crypto::scalar::Scalar;
use rand::rngs::StdRng;
use rand::{Rng, SeedableRng};

fn generate_challenge_prefix(csprng: &mut StdRng) -> Vec<u8> {
    let n: usize = csprng.gen_range(0, 1000);
    (0..n).map(|_| csprng.gen::<u8>()).collect()
}

#[test]
pub fn test_dlog() {
    let mut csprng = StdRng::from_entropy();
    for _ in 0..150 {
        let secret = Scalar::generate(&mut csprng);
        let base = G1Point::generate(&mut csprng);
        let public = base.mul_by_scalar(&secret);
        let challenge_prefix = generate_challenge_prefix(&mut csprng);
        let proof =
            prove_dlog(&mut csprng, &challenge_prefix, &public, &secret, &base).unwrap();
        assert!(verify_dlog(&challenge_prefix, &base, &public, &proof));
        let challenge_prefix_1 = generate_challenge_prefix(&mut csprng);
        if verify_dlog(&challenge_prefix_1, &base, &public, &proof) {
            assert_eq!(challenge_prefix, challenge_prefix_1);
        }
    }
}

#[test]
pub fn test_dlog_proof_serialization() {
    let mut csprng = StdRng::from_entropy();
    for _ in 0..1000 {
        let challenge = Scalar::generate(&mut csprng);
        let randomised_point = G1Point::generate(&mut csprng);
        let witness = Scalar::generate(&mut csprng);

        let dp = DlogProof { challenge, randomised_point, witness };
        let bytes = dp.to_bytes();
        let dpp = DlogProof::<G1Point>::from_bytes(&bytes);
        assert!(dpp.is_ok());
        assert_eq!(dp, dpp.unwrap());
    }
}

#[test]
pub fn test_com_eq_diff_grps_correctness() {
    let mut csprng = StdRng::from_entropy();
    for _i in 0..15 {
        let a_1 = Value::generate_non_zero(&mut csprng).unwrap();
        let cmm_key_1 = CommitmentKey::<G1Point>::generate(&mut csprng);
        let cmm_key_2 = CommitmentKey::<G2Point>::generate(&mut csprng);

        let (u, a_2) = cmm_key_1.commit(&a_1, &mut csprng);
        let (v, r) = cmm_key_2.commit(&a_1, &mut csprng);

        let challenge_prefix = generate_challenge_prefix(&mut csprng);
        let ro = RandomOracle::domain(&challenge_prefix);

        let secret = ComEqDiffGrpsSecret { value: a_1, rand_cmm_1: a_2, rand_cmm_2: r };
        let proof = prove_com_eq_diff_grps(
            ro.split(),
            &u,
            &v,
            &cmm_key_1,
            &cmm_key_2,
            &secret,
            &mut csprng,
        )
        .unwrap();
        assert!(verify_com_eq_diff_grps(ro.split(), &u, &v, &cmm_key_1, &cmm_key_2, &proof));
    }
}

#[test]
pub fn test_com_eq_diff_grps_soundness() {
    let mut csprng = StdRng::from_entropy();
    for _i in 0..6 {
        // Generate proof
        let a_1 = Value::generate_non_zero(&mut csprng).unwrap();
        let cmm_key_1 = CommitmentKey::<G1Point>::generate(&mut csprng);
        let cmm_key_2 = CommitmentKey::<G2Point>::generate(&mut csprng);

        let (u, a_2) = cmm_key_1.commit(&a_1, &mut csprng);
        let (v, r) = cmm_key_2.commit(&a_1, &mut csprng);

        let challenge_prefix = generate_challenge_prefix(&mut csprng);
        let ro = RandomOracle::domain(&challenge_prefix);

        let secret = ComEqDiffGrpsSecret { value: a_1, rand_cmm_1: a_2, rand_cmm_2: r };
        let proof = prove_com_eq_diff_grps(
            ro.split(),
            &u,
            &v,
            &cmm_key_1,
            &cmm_key_2,
            &secret,
            &mut csprng,
        )
        .unwrap();

        // Construct invalid parameters
        let wrong_ro = RandomOracle::domain(&generate_challenge_prefix(&mut csprng));
        let wrong_cmm_key_1 = CommitmentKey::<G1Point>::generate(&mut csprng);
        let wrong_cmm_key_2 = CommitmentKey::<G2Point>::generate(&mut csprng);
        let (wrong_u, _) = wrong_cmm_key_1.commit(&a_1, &mut csprng);
        let (wrong_v, _) = wrong_cmm_key_2.commit(&a_1, &mut csprng);

        // Verify failure for invalid parameters
        assert!(verify_com_eq_diff_grps(ro.split(), &u, &v, &cmm_key_1, &cmm_key_2, &proof));
        assert!(!verify_com_eq_diff_grps(wrong_ro, &u, &v, &cmm_key_1, &cmm_key_2, &proof));
        assert!(!verify_com_eq_diff_grps(
            ro.split(),
            &wrong_u,
            &v,
            &cmm_key_1,
            &cmm_key_2,
            &proof
        ));
        assert!(!verify_com_eq_diff_grps(
            ro.split(),
            &u,
            &wrong_v,
            &cmm_key_1,
            &cmm_key_2,
            &proof
        ));
        assert!(!verify_com_eq_diff_grps(
            ro.split(),
            &u,
            &v,
            &wrong_cmm_key_1,
            &cmm_key_2,
            &proof
        ));
        assert!(!verify_com_eq_diff_grps(
            ro.split(),
            &u,
            &v,
            &cmm_key_1,
            &wrong_cmm_key_2,
            &proof
        ));
    }
}

#[test]
pub fn test_com_eq_diff_grps_proof_serialization() {
    let mut csprng = StdRng::from_entropy();
    for _i in 0..100 {
        let challenge = Scalar::generate(&mut csprng);
        let witness = (
            Scalar::generate(&mut csprng),
            Scalar::generate(&mut csprng),
            Scalar::generate(&mut csprng),
        );
        let ap = ComEqDiffGrpsProof { challenge, witness };
        let app = ComEqDiffGrpsProof::from_bytes(&ap.to_bytes());
        assert!(app.is_ok());
        assert_eq!(ap, app.unwrap());
    }
}
