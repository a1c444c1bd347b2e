use identity_crypto::aggregate_sig::{verify_aggregate_sig_trusted_keys, PublicKey, SecretKey, Signature};
use rand::rngs::StdRng;
use rand::{Rng, SeedableRng};

#[test]
fn test_verify_aggregate_ffi() {
    let mut rng = StdRng::seed_from_u64(1);

    for _ in 0..30 {
        let m = rng.gen::<[u8; 32]>();
        let sk1 = SecretKey::generate(&mut rng);
        let sk2 = SecretKey::generate(&mut rng);
        let pk1 = PublicKey::from_secret(sk1);
        let pk2 = PublicKey::from_secret(sk2);
        let mut sig = sk1.sign(&m);
        sig = sig.aggregate(sk2.sign(&m));
        assert!(verify_aggregate_sig_trusted_keys(&m, &[pk1, pk2], sig));
    }
}

#[test]
fn test_eq() {
    for _i in 0..10 {
        let mut rng = StdRng::seed_from_u64(1);
        let sk1 = SecretKey::generate(&mut rng);
        let sk2 = SecretKey::generate(&mut rng);
        let comparison = u8::from(sk1.equals(&sk2));
        assert!(comparison == 0)
    }
}

#[test]
fn bls_aggregate_rejects_other_message() {
    let mut rng = StdRng::seed_from_u64(2);
    let m = b"message";
    let sk1 = SecretKey::generate(&mut rng);
    let sk2 = SecretKey::generate(&mut rng);
    let pks = [PublicKey::from_secret(sk1), PublicKey::from_secret(sk2)];
    let sig = sk1.sign(m).aggregate(sk2.sign(m));
    assert!(verify_aggregate_sig_trusted_keys(m, &pks, sig));
    assert!(!verify_aggregate_sig_trusted_keys(b"other message", &pks, sig));
    // One altered contributing signature, or one key left out.
    let altered = sk1.sign(b"other message").aggregate(sk2.sign(m));
    assert!(!verify_aggregate_sig_trusted_keys(m, &pks, altered));
    assert!(!verify_aggregate_sig_trusted_keys(m, &pks[..1], sig));
    assert!(!verify_aggregate_sig_trusted_keys(m, &[], sig));
    // The sum of no keys is the identity, which only the empty signature matches.
    assert!(verify_aggregate_sig_trusted_keys(m, &[], Signature::empty()));
    // Aggregation does not depend on the order.
    let s1 = sk1.sign(m);
    let s2 = sk2.sign(m);
    assert_eq!(s1.aggregate(s2).to_bytes(), s2.aggregate(s1).to_bytes());
    assert_eq!(s1.aggregate(Signature::empty()).to_bytes(), s1.to_bytes());
    let mut expected = vec![0xc0u8];
    expected.extend_from_slice(&[0u8; 47]);
    assert_eq!(Signature::empty().to_bytes(), expected);
}

#[test]
fn bls_single_signature_and_bytes() {
    let mut rng = StdRng::seed_from_u64(3);
    let sk = SecretKey::generate(&mut rng);
    let pk = PublicKey::from_secret(sk);
    let sig = sk.sign(b"m");
    assert!(pk.verify(b"m", sig));
    assert!(!pk.verify(b"m'", sig));
    assert!(sig.equals(&Signature::empty().aggregate(sig)));
    let sk_back = SecretKey::from_bytes(&sk.to_bytes()).unwrap();
    assert!(sk_back.equals(&sk));
    let pk_back = PublicKey::from_bytes(&pk.to_bytes()).unwrap();
    assert!(pk_back.equals(&pk));
    let sig_back = Signature::from_bytes(&sig.to_bytes()).unwrap();
    assert!(sig_back.equals(&sig));
    let mut flipped = sig.to_bytes();
    flipped[47] ^= 1;
    match Signature::from_bytes(&flipped) {
        Some(s) => assert!(!pk.verify(b"m", s)),
        None => {}
    }
}
