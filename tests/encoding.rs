use identity_crypto::aggregate_sig::{hash_message, Signature};
use identity_crypto::dlog::{DecodeError, DlogProof};
use identity_crypto::versioned::{from_versioned, to_versioned, EnvelopeError};
use identity_crypto::curve::{Curve, G1Point, G2Point};
use identity_crypto::random_oracle::RandomOracle;
use identity_crypto::scalar::Scalar;
use rand::rngs::StdRng;
use rand::SeedableRng;

fn from_hex(s: &str) -> Vec<u8> {
    (0..s.len() / 2).map(|i| u8::from_str_radix(&s[2 * i..2 * i + 2], 16).unwrap()).collect()
}

#[test]
fn scalar_encoding_is_big_endian() {
    let s = Scalar::from_u64(0x0102);
    let b = s.to_bytes();
    assert_eq!(b.len(), 32);
    assert_eq!(b[30], 1);
    assert_eq!(b[31], 2);
    assert!(b[..30].iter().all(|x| *x == 0));
    let t = Scalar { l0: 5, l1: 6, l2: 7, l3: 8 };
    let tb = t.to_bytes();
    assert_eq!(tb[7], 8);
    assert_eq!(tb[15], 7);
    assert_eq!(tb[23], 6);
    assert_eq!(tb[31], 5);
    assert_eq!(Scalar::from_bytes(&tb), Some(t));
}

#[test]
fn scalar_decoding_rejects_non_canonical() {
    let modulus = from_hex("73eda753299d7d483339d80809a1d80553bda402fffe5bfeffffffff00000001");
    assert_eq!(Scalar::from_bytes(&modulus), None);
    let mut below = modulus.clone();
    below[31] = 0;
    let s = Scalar::from_bytes(&below).unwrap();
    assert_eq!(s.to_bytes(), below);
    assert_eq!(Scalar::from_bytes(&modulus[..31]), None);
}

#[test]
fn scalar_round_trip_random() {
    let mut csprng = StdRng::seed_from_u64(7);
    for _ in 0..100 {
        let s = Scalar::generate(&mut csprng);
        assert_eq!(Scalar::from_bytes(&s.to_bytes()), Some(s));
    }
}

#[test]
fn point_round_trip_and_rejection() {
    let mut csprng = StdRng::seed_from_u64(8);
    let p = G1Point::generate(&mut csprng);
    let q = G1Point::bytes_to_curve(&p.curve_to_bytes()).unwrap();
    assert!(p.equals(&q));
    assert_eq!(p, q);
    let g = G2Point::generate(&mut csprng);
    assert_eq!(G2Point::bytes_to_curve(&g.curve_to_bytes()), Some(g));
    // Without the compression flag the bytes encode no point.
    let mut bad = p.curve_to_bytes();
    bad[0] &= 0x7f;
    assert_eq!(G1Point::bytes_to_curve(&bad), None);
    assert_eq!(G1Point::bytes_to_curve(&p.curve_to_bytes()[..47]), None);
}

#[test]
fn group_operations_agree() {
    let mut csprng = StdRng::seed_from_u64(9);
    let p = G1Point::generate(&mut csprng);
    let two = Scalar::from_u64(2);
    let three = Scalar::from_u64(3);
    let five = Scalar::from_u64(5);
    let lhs = p.mul_by_scalar(&two).plus_point(&p.mul_by_scalar(&three));
    let rhs = p.mul_by_scalar(&five);
    assert!(lhs.equals(&rhs));
    assert!(!p.mul_by_scalar(&two).equals(&p));
}

#[test]
fn oracle_digest_of_transcript() {
    let d = RandomOracle::domain(b"ab").append_bytes(b"c").finish();
    assert_eq!(d, from_hex("ba7816bf8f01cfea414140de5dae2223b00361a396177a9cb410ff61f20015ad"));
    let s = RandomOracle::domain(b"abc").split().finish();
    assert_eq!(s, d);
}

#[test]
fn oracle_challenge_is_reduced_digest() {
    let identity = Signature::empty().0;
    assert_eq!(identity.curve_to_bytes()[0], 0xc0);
    let c = RandomOracle::domain(b"abc").finish_to_scalar(&identity);
    assert_eq!(
        c.to_bytes(),
        from_hex("4c41a7582ec1c2c6836702d0953796585bbe38d99a4ae1772f420136550dbad0")
    );
    let c2 = RandomOracle::domain(&[0x61, 0x62, 0x63, 0x03]).finish_to_scalar(&identity);
    assert_eq!(
        c2.to_bytes(),
        from_hex("1041d0a3f7a199aea6b67e94303728cdd05f49e43182949e2ce3ae1883005b06")
    );
}

#[test]
fn g2_subtraction_and_addition_agree() {
    let mut csprng = StdRng::seed_from_u64(10);
    let p = G2Point::generate(&mut csprng);
    let five = p.mul_by_scalar(&Scalar::from_u64(5));
    let two = p.mul_by_scalar(&Scalar::from_u64(2));
    let three = p.mul_by_scalar(&Scalar::from_u64(3));
    assert!(five.minus_point(&two).equals(&three));
    assert!(two.plus_point(&three).equals(&five));
    assert!(!five.minus_point(&two).equals(&five));
    let q = G1Point::generate(&mut csprng);
    assert!(q.mul_by_scalar(&Scalar::from_u64(4)).minus_point(&q).equals(&q.mul_by_scalar(&Scalar::from_u64(3))));
}

#[test]
fn hash_to_g1_is_deterministic() {
    let a = hash_message(b"message");
    let b = hash_message(b"message");
    let c = hash_message(b"messagf");
    assert!(a.equals(&b));
    assert!(!a.equals(&c));
    assert!(G1Point::bytes_to_curve(&a.curve_to_bytes()).is_some());
}

#[test]
fn dlog_proof_decoding_errors() {
    let mut csprng = StdRng::seed_from_u64(15);
    let proof = DlogProof {
        challenge: Scalar::generate(&mut csprng),
        randomised_point: G1Point::generate(&mut csprng),
        witness: Scalar::generate(&mut csprng),
    };
    let bytes = proof.to_bytes();
    assert_eq!(bytes.len(), 112);
    let mut bad_point = bytes.clone();
    bad_point[32] &= 0x7f;
    assert_eq!(DlogProof::<G1Point>::from_bytes(&bad_point), Err(DecodeError::InvalidPoint));
    let mut bad_scalar = bytes.clone();
    bad_scalar[80..112].copy_from_slice(&[0xff; 32]);
    assert_eq!(DlogProof::<G1Point>::from_bytes(&bad_scalar), Err(DecodeError::NonCanonicalScalar));
    assert_eq!(DlogProof::<G1Point>::from_bytes(&bytes[..111]), Err(DecodeError::TooShort));
    let mut longer = bytes.clone();
    longer.push(7);
    assert_eq!(DlogProof::<G1Point>::from_bytes(&longer), Ok(proof));
}

#[test]
fn versioned_envelope() {
    let v = to_versioned(&[9, 8, 7]);
    assert_eq!(v, vec![0, 0, 0, 0, 9, 8, 7]);
    assert_eq!(from_versioned(&v), Ok(vec![9, 8, 7]));
    assert_eq!(from_versioned(&[0, 0, 0, 1, 9]), Err(EnvelopeError::VersionUnsupported));
    assert_eq!(from_versioned(&[0, 0, 0]), Err(EnvelopeError::TooShort));
    assert_eq!(from_versioned(&[0, 0, 0, 0]), Ok(vec![]));
}
