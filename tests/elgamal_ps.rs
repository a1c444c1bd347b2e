use identity_crypto::curve::{Curve, G1Point};
use identity_crypto::elgamal;
use identity_crypto::pedersen::Value;
use identity_crypto::ps_sig;
use identity_crypto::scalar::Scalar;
use identity_crypto::secret_sharing::{reconstruct_in_group, share, SharingError};
use identity_crypto::unknown_message::{SigRetrievalRandomness, UnknownMessage};
use rand::rngs::StdRng;
use rand::SeedableRng;

#[test]
fn elgamal_decrypts_to_exponent_point() {
    let mut csprng = StdRng::seed_from_u64(11);
    let g = G1Point::generate(&mut csprng);
    let h = G1Point::generate(&mut csprng);
    let sk = elgamal::SecretKey::generate(&g, &mut csprng);
    let pk = elgamal::PublicKey::from_secret(&sk);
    let m = Value { value: Scalar::from_u64(5) };
    let (c, _r) = pk.encrypt_exponent(&m, &h, &mut csprng);
    let d = sk.decrypt(&c);
    assert!(d.equals(&h.mul_by_scalar(&Scalar::from_u64(5))));
    let other = elgamal::SecretKey::generate(&g, &mut csprng);
    assert!(!other.decrypt(&c).equals(&d));
}

#[test]
fn revokers_recover_point_from_decrypted_shares() {
    let mut csprng = StdRng::seed_from_u64(12);
    let g = G1Point::generate(&mut csprng);
    let secret = Scalar::generate(&mut csprng);
    let target = g.mul_by_scalar(&secret);
    let data = share(&secret, &[1, 2, 3, 4], 2, &mut csprng).unwrap();
    let points: Vec<(u32, G1Point)> =
        data.shares.iter().map(|(i, y)| (*i, g.mul_by_scalar(y))).collect();
    let two_four = [points[1], points[3]];
    assert!(reconstruct_in_group(&two_four).unwrap().equals(&target));
    assert!(reconstruct_in_group(&points).unwrap().equals(&target));
    assert!(!reconstruct_in_group(&points[..1]).unwrap().equals(&target));
    assert_eq!(reconstruct_in_group::<G1Point>(&[]), Err(SharingError::NoShares));
    assert_eq!(reconstruct_in_group(&[points[0], points[0]]), Err(SharingError::DuplicateIndex));
}

#[test]
fn ps_unblinded_signature_verifies() {
    let mut csprng = StdRng::seed_from_u64(13);
    let sk = ps_sig::SecretKey::generate(2, &mut csprng);
    let pk = ps_sig::PublicKey::from_secret(&sk);
    let ms = [Value { value: Scalar::from_u64(55) }, Value { value: Scalar::from_u64(31) }];
    let r = SigRetrievalRandomness { randomness: Scalar::generate(&mut csprng) };
    let m = pk.commit_message(&ms, &r);
    let blinded = sk.sign_unknown_message(&m, &mut csprng);
    let sig = blinded.unblind(&r);
    assert!(pk.verify(&sig, &ms));
    assert!(!pk.verify(&blinded.sig, &ms));
    let other = [Value { value: Scalar::from_u64(55) }, Value { value: Scalar::from_u64(32) }];
    assert!(!pk.verify(&sig, &other));
    assert!(!pk.verify(&sig, &ms[..1]));
    let mut flipped = sig.1.curve_to_bytes();
    flipped[47] ^= 1;
    if let Some(p) = G1Point::bytes_to_curve(&flipped) {
        assert!(!pk.verify(&ps_sig::Signature(sig.0, p), &ms));
    }
}

#[test]
fn unknown_message_equality_and_conversion() {
    let mut csprng = StdRng::seed_from_u64(14);
    let x = UnknownMessage::arbitrary(&mut csprng);
    let y = UnknownMessage::from(identity_crypto::pedersen::Commitment(x.0));
    assert!(x == y);
    assert!(x.equals(&*y));
    let z = UnknownMessage::arbitrary(&mut csprng);
    assert!(x != z);
    let r = SigRetrievalRandomness { randomness: Scalar::from_u64(3) };
    assert_eq!(*r, Scalar::from_u64(3));
}
