use identity_crypto::curve::{Curve, G1Point};
use identity_crypto::elgamal;
use identity_crypto::identity::{
    ar_decrypt_share, generate_pio, sign_identity_object, validate_request, ArInfo,
    GlobalContext, ProofKind, RequestError,
};
use identity_crypto::pedersen::Value;
use identity_crypto::ps_sig;
use identity_crypto::unknown_message::SigRetrievalRandomness;
use identity_crypto::pedersen::CommitmentKey;
use identity_crypto::scalar::Scalar;
use identity_crypto::secret_sharing::reconstruct_in_group;
use rand::rngs::StdRng;
use rand::SeedableRng;

#[test]
fn request_validates_and_revokers_recover_id_cred_pub() {
    let mut csprng = StdRng::from_seed([1u8; 32]);
    let generator = G1Point::generate(&mut csprng);
    let ctx = GlobalContext {
        on_chain_commitment_key: CommitmentKey::generate(&mut csprng),
        generator,
    };
    let mut ar_secrets = Vec::new();
    let mut ars = Vec::new();
    for id in 1..=4u32 {
        let sk = elgamal::SecretKey::generate(&generator, &mut csprng);
        ars.push(ArInfo { ar_identity: id, ar_public_key: elgamal::PublicKey::from_secret(&sk) });
        ar_secrets.push(sk);
    }
    let ip_sk = ps_sig::SecretKey::generate(3, &mut csprng);
    let ip_pk = ps_sig::PublicKey::from_secret(&ip_sk);
    let id_cred_sec = Scalar::generate(&mut csprng);
    let (pio, randomness) = generate_pio(&ctx, &ip_pk, &ars, &id_cred_sec, 2, &mut csprng).unwrap();
    assert!(pio.id_cred_pub.equals(&generator.mul_by_scalar(&id_cred_sec)));
    assert_eq!(validate_request(&pio, &ctx, &ars, &ip_pk), Ok(()));
    assert!(pio.check_wf());
    let mut malformed = pio.clone();
    malformed.pok_sc.witness = Scalar { l0: u64::MAX, l1: u64::MAX, l2: u64::MAX, l3: u64::MAX };
    assert!(!malformed.check_wf());
    let mut malformed = pio.clone();
    malformed.cmm_sc.0.bytes[0] &= 0x7f;
    assert!(!malformed.check_wf());

    // The provider builds the message from the request and the attributes
    // (tag 0 = 55, tag 8 = 31) and signs it; the holder unblinds with the
    // blinding of cmm_id_ps and holds a signature on (id_cred_sec, 55, 31).
    let attributes = [Value { value: Scalar::from_u64(55) }, Value { value: Scalar::from_u64(31) }];
    let blinded =
        sign_identity_object(&pio, &ctx, &ars, &ip_pk, &ip_sk, &attributes, &mut csprng).unwrap();
    let retrieval = SigRetrievalRandomness { randomness: randomness.id_ps_rand };
    let signature = blinded.unblind(&retrieval);
    let signed = [Value { value: id_cred_sec }, attributes[0], attributes[1]];
    assert!(ip_pk.verify(&signature, &signed));
    let other = [Value { value: Scalar::from_u64(1) }, attributes[0], attributes[1]];
    assert!(!ip_pk.verify(&signature, &other));
    let mut flipped = signature;
    flipped.1 = signature.1.plus_point(&signature.0);
    assert!(!ip_pk.verify(&flipped, &signed));

    let mut bad = pio.clone();
    bad.proof_id_ps.witness.1 = Scalar::generate(&mut csprng);
    assert_eq!(
        validate_request(&bad, &ctx, &ars, &ip_pk),
        Err(RequestError::ProofInvalid(ProofKind::IdPs))
    );

    // Revokers 2 and 4 decrypt their shares and recover id_cred_pub.
    let shares = [
        ar_decrypt_share(&ar_secrets[1], &pio.ip_ar_data[1]),
        ar_decrypt_share(&ar_secrets[3], &pio.ip_ar_data[3]),
    ];
    assert_eq!(shares[0].0, 2);
    assert_eq!(shares[1].0, 4);
    assert!(reconstruct_in_group(&shares).unwrap().equals(&pio.id_cred_pub));
    // One share is below the threshold.
    assert!(!reconstruct_in_group(&shares[..1]).unwrap().equals(&pio.id_cred_pub));

    let mut bad = pio.clone();
    bad.pok_sc.witness = Scalar::generate(&mut csprng);
    assert_eq!(
        validate_request(&bad, &ctx, &ars, &ip_pk),
        Err(RequestError::ProofInvalid(ProofKind::PokSc))
    );
    assert_eq!(
        sign_identity_object(&bad, &ctx, &ars, &ip_pk, &ip_sk, &attributes, &mut csprng),
        Err(RequestError::ProofInvalid(ProofKind::PokSc))
    );

    let mut bad = pio.clone();
    bad.proof_com_eq_sc.witness.1 = Scalar::generate(&mut csprng);
    assert_eq!(
        validate_request(&bad, &ctx, &ars, &ip_pk),
        Err(RequestError::ProofInvalid(ProofKind::ComEqSc))
    );

    let mut bad = pio.clone();
    bad.proof_commitments_same.witness.0 = Scalar::generate(&mut csprng);
    assert_eq!(
        validate_request(&bad, &ctx, &ars, &ip_pk),
        Err(RequestError::ProofInvalid(ProofKind::CommitmentsSame))
    );

    let mut bad = pio.clone();
    bad.ip_ar_data.swap(0, 1);
    assert_eq!(validate_request(&bad, &ctx, &ars, &ip_pk), Err(RequestError::ArDataMismatch));

    let mut bad = pio.clone();
    let other = pio.ip_ar_data[0].enc_id_cred_pub_share;
    bad.ip_ar_data[1].enc_id_cred_pub_share = other;
    assert_eq!(
        validate_request(&bad, &ctx, &ars, &ip_pk),
        Err(RequestError::ProofInvalid(ProofKind::ComEncEq))
    );

    let mut bad = pio.clone();
    bad.choice_ar_parameters.threshold = 5;
    assert_eq!(validate_request(&bad, &ctx, &ars, &ip_pk), Err(RequestError::ThresholdOutOfRange));
    bad.choice_ar_parameters.threshold = 0;
    assert_eq!(validate_request(&bad, &ctx, &ars, &ip_pk), Err(RequestError::ThresholdOutOfRange));

    let mut bad = pio.clone();
    bad.choice_ar_parameters.ar_identities[1] = 1;
    assert_eq!(validate_request(&bad, &ctx, &ars, &ip_pk), Err(RequestError::InvalidArIdentities));

    assert_eq!(validate_request(&pio, &ctx, &ars[..3], &ip_pk), Err(RequestError::UnknownArIdentity));

    let mut bad = pio.clone();
    bad.cmm_sharing_coeff.pop();
    assert_eq!(validate_request(&bad, &ctx, &ars, &ip_pk), Err(RequestError::CoefficientCountMismatch));
}
