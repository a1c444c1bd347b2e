use identity_crypto::scalar::Scalar;
use identity_crypto::secret_sharing::{
    evaluate_polynomial, reconstruct, share, share_with_coefficients, SharingError,
};
use rand::rngs::StdRng;
use rand::SeedableRng;

#[test]
fn polynomial_evaluation_exact() {
    let cs = [Scalar::from_u64(1), Scalar::from_u64(2), Scalar::from_u64(3)];
    assert_eq!(evaluate_polynomial(&cs, &Scalar::from_u64(2)), Scalar::from_u64(17));
    assert_eq!(evaluate_polynomial(&[], &Scalar::from_u64(2)), Scalar::zero());
}

#[test]
fn shares_on_fixed_polynomial() {
    let shares = share_with_coefficients(&Scalar::from_u64(5), &[Scalar::from_u64(3)], &[1, 2, 7]);
    assert_eq!(
        shares,
        vec![(1, Scalar::from_u64(8)), (2, Scalar::from_u64(11)), (7, Scalar::from_u64(26))]
    );
    assert_eq!(reconstruct(&shares[..2]), Ok(Scalar::from_u64(5)));
    assert_eq!(reconstruct(&[shares[2], shares[0]]), Ok(Scalar::from_u64(5)));
}

#[test]
fn reconstruction_errors() {
    let a = (0u32, Scalar::from_u64(1));
    let b = (2u32, Scalar::from_u64(3));
    assert_eq!(reconstruct(&[b, a]), Err(SharingError::ZeroIndex));
    assert_eq!(reconstruct(&[b, b]), Err(SharingError::DuplicateIndex));
    assert_eq!(reconstruct(&[]), Ok(Scalar::zero()));
}

#[test]
fn sharing_any_three_of_four_reconstruct() {
    let mut csprng = StdRng::from_seed([1u8; 32]);
    let secret = Scalar::from_u64(1);
    let data = share(&secret, &[1, 2, 3, 4], 3, &mut csprng).unwrap();
    assert_eq!(data.coefficients.len(), 2);
    assert!(data.coefficients.iter().all(|c| !c.is_zero()));
    let s = &data.shares;
    for (i, j, k) in [(0, 1, 2), (0, 1, 3), (0, 2, 3), (1, 2, 3)] {
        assert_eq!(reconstruct(&[s[i], s[j], s[k]]), Ok(secret));
    }
    for (i, j) in [(0, 1), (0, 2), (0, 3), (1, 2), (1, 3), (2, 3)] {
        assert_ne!(reconstruct(&[s[i], s[j]]), Ok(secret));
    }
    assert_eq!(reconstruct(s), Ok(secret));
}
