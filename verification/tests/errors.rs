use multisig_tx::text::decimal_text;
use multisig_tx::{ErrorKind, TxError};

#[test]
fn decimal_text_of_small_and_large_numbers() {
    assert_eq!(decimal_text(0), "0");
    assert_eq!(decimal_text(7), "7");
    assert_eq!(decimal_text(10), "10");
    assert_eq!(decimal_text(1234567890), "1234567890");
    assert_eq!(decimal_text(1000), "1000");
    assert_eq!(decimal_text(u64::MAX), "18446744073709551615");
}

#[test]
fn messages_of_failures_without_a_spend() {
    assert_eq!(TxError::new(ErrorKind::InvalidThreshold).message(), "Threshold must be >= 1");
    assert_eq!(
        TxError::new(ErrorKind::ThresholdExceedsKeys).message(),
        "Threshold exceeds number of pubkeys"
    );
    assert_eq!(
        TxError::new(ErrorKind::DuplicatePublicKey).message(),
        "Duplicate public key in multisig set"
    );
    assert_eq!(
        TxError::new(ErrorKind::BalanceMismatch).message(),
        "Input value does not equal output value"
    );
    assert_eq!(TxError::new(ErrorKind::IndexOutOfBounds).message(), "Spend index out of bounds");
    assert_eq!(
        TxError::new(ErrorKind::UnauthorizedSigner).message(),
        "Public key not allowed for this spend"
    );
    assert_eq!(TxError::new(ErrorKind::InsufficientSignatures).message(), "Insufficient signatures");
    assert_eq!(TxError::new(ErrorKind::InvalidSigner).message(), "Invalid signer");
}

#[test]
fn messages_of_failures_in_a_spend() {
    assert_eq!(
        TxError::at_spend(ErrorKind::InsufficientSignatures, 0).message(),
        "Spend 0 has insufficient signatures"
    );
    assert_eq!(
        TxError::at_spend(ErrorKind::InvalidSigner, 12).message(),
        "Spend 12 has invalid signer"
    );
    assert_eq!(
        TxError::at_spend(ErrorKind::ThresholdExceedsKeys, 3).message(),
        "Spend 3: Threshold exceeds number of pubkeys"
    );
    assert_eq!(
        TxError::at_spend(ErrorKind::InvalidThreshold, 100).message(),
        "Spend 100: Threshold must be >= 1"
    );
}

#[test]
fn constructors_fill_the_fields() {
    assert_eq!(
        TxError::new(ErrorKind::BalanceMismatch),
        TxError { kind: ErrorKind::BalanceMismatch, spend_index: None }
    );
    assert_eq!(
        TxError::at_spend(ErrorKind::InvalidSigner, 4),
        TxError { kind: ErrorKind::InvalidSigner, spend_index: Some(4) }
    );
    assert_eq!(ErrorKind::InvalidSigner.text(), "Invalid signer");
}
