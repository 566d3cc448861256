use multisig_tx::{ErrorKind, PkhCondition, PublicKey, TxError};

fn condition_of(threshold: usize, keys: &[&str]) -> PkhCondition {
    PkhCondition { threshold, pubkeys: keys.iter().map(|k| PublicKey(k.to_string())).collect() }
}

#[test]
fn valid_condition_passes() {
    assert_eq!(condition_of(2, &["A", "B", "C"]).validate(), Ok(()));
}

#[test]
fn threshold_equal_to_key_count_passes() {
    assert_eq!(condition_of(3, &["A", "B", "C"]).validate(), Ok(()));
    assert_eq!(condition_of(1, &["A"]).validate(), Ok(()));
}

#[test]
fn zero_threshold_is_invalid() {
    assert_eq!(
        condition_of(0, &["A", "B"]).validate(),
        Err(TxError { kind: ErrorKind::InvalidThreshold, spend_index: None })
    );
}

#[test]
fn zero_threshold_is_reported_before_anything_else() {
    assert_eq!(
        condition_of(0, &[]).validate(),
        Err(TxError { kind: ErrorKind::InvalidThreshold, spend_index: None })
    );
    assert_eq!(
        condition_of(0, &["A", "A"]).validate(),
        Err(TxError { kind: ErrorKind::InvalidThreshold, spend_index: None })
    );
}

#[test]
fn threshold_above_key_count_is_rejected() {
    assert_eq!(
        condition_of(3, &["A", "B"]).validate(),
        Err(TxError { kind: ErrorKind::ThresholdExceedsKeys, spend_index: None })
    );
    assert_eq!(
        condition_of(1, &[]).validate(),
        Err(TxError { kind: ErrorKind::ThresholdExceedsKeys, spend_index: None })
    );
}

#[test]
fn threshold_above_key_count_is_reported_before_duplicates() {
    assert_eq!(
        condition_of(3, &["A", "A"]).validate(),
        Err(TxError { kind: ErrorKind::ThresholdExceedsKeys, spend_index: None })
    );
}

#[test]
fn duplicate_key_is_rejected() {
    assert_eq!(
        condition_of(2, &["A", "B", "A"]).validate(),
        Err(TxError { kind: ErrorKind::DuplicatePublicKey, spend_index: None })
    );
    assert_eq!(
        condition_of(1, &["A", "A"]).validate(),
        Err(TxError { kind: ErrorKind::DuplicatePublicKey, spend_index: None })
    );
}

#[test]
fn keys_that_differ_in_one_letter_are_distinct() {
    assert_eq!(condition_of(2, &["key", "keY", "ke"]).validate(), Ok(()));
}

#[test]
fn validation_leaves_the_keys_in_order() {
    let c: PkhCondition = condition_of(1, &["C", "A", "B"]);
    assert_eq!(c.validate(), Ok(()));
    let keys: Vec<&str> = c.pubkeys.iter().map(|k| k.0.as_str()).collect();
    assert_eq!(keys, vec!["C", "A", "B"]);
}

#[test]
fn a_cloned_condition_equals_its_source() {
    let c: PkhCondition = condition_of(2, &["A", "B"]);
    assert_eq!(c.clone(), c);
}
