use identity_crypto::attributes::{AttributeError, AttributeList, YearMonth};
use identity_crypto::scalar::Scalar;

fn list(created_at: YearMonth, valid_to: YearMonth, max_accounts: u8, tags: &[u8]) -> AttributeList {
    AttributeList {
        valid_to,
        created_at,
        max_accounts,
        alist: tags.iter().map(|t| (*t, Scalar::from_u64(*t as u64 + 30))).collect(),
    }
}

#[test]
fn attribute_list_checks() {
    let jan = YearMonth { year: 2020, month: 1 };
    let dec = YearMonth { year: 2020, month: 12 };
    let next = YearMonth { year: 2021, month: 1 };
    assert_eq!(list(jan, dec, 200, &[0, 8]).check(), Ok(()));
    assert_eq!(list(jan, jan, 1, &[]).check(), Ok(()));
    assert_eq!(list(next, dec, 200, &[0, 8]).check(), Err(AttributeError::CreatedAfterExpiry));
    assert_eq!(list(jan, dec, 0, &[0, 8]).check(), Err(AttributeError::NoAccounts));
    assert_eq!(list(jan, dec, 1, &[0, 8, 0]).check(), Err(AttributeError::DuplicateTag));
    let bad = YearMonth { year: 2020, month: 13 };
    assert_eq!(list(jan, bad, 1, &[0]).check(), Err(AttributeError::InvalidMonth));
    assert!(jan.not_after(&dec));
    assert!(!next.not_after(&dec));
}
