use multisig_tx::{
    add_signature, build_transaction, compute_spend_hash, get_spend_hash,
    get_spend_signing_status, validate_transaction, ErrorKind, Lock, Note, NoteName, Output,
    PkhCondition, PublicKey, SigningStatus, Transaction, TxError,
};

fn a_lock(threshold: usize, keys: &[&str]) -> Lock {
    Lock {
        pkh: PkhCondition {
            threshold,
            pubkeys: keys.iter().map(|k| PublicKey(k.to_string())).collect(),
        },
    }
}

fn a_note(value: u64, threshold: usize, keys: &[&str]) -> Note {
    Note {
        name: NoteName { first: "first".to_string(), last: "last".to_string() },
        value,
        lock: a_lock(threshold, keys),
    }
}

fn a_output(value: u64) -> Output {
    Output { recipient: "bob".to_string(), value, lock: a_lock(1, &["B"]) }
}

fn a_names(keys: &[PublicKey]) -> Vec<&str> {
    keys.iter().map(|k| k.0.as_str()).collect()
}

fn a_built() -> Transaction {
    build_transaction(vec![a_note(100, 2, &["A", "B", "C"])], vec![a_output(100)]).unwrap()
}

fn a_out_of_bounds() -> TxError {
    TxError { kind: ErrorKind::IndexOutOfBounds, spend_index: None }
}

#[test]
fn two_of_three_scenario() {
    let tx: Transaction = a_built();
    assert_eq!(tx.spends.len(), 1);
    assert_eq!(tx.spends[0].note, a_note(100, 2, &["A", "B", "C"]));
    assert!(tx.spends[0].seeds.signatures.is_empty());
    assert_eq!(tx.outputs, vec![a_output(100)]);

    let tx: Transaction = add_signature(tx, 0, "A", "sigA").unwrap();
    let status: SigningStatus = get_spend_signing_status(&tx, 0).unwrap();
    assert_eq!(status.spend_index, 0);
    assert_eq!(status.threshold, 2);
    assert_eq!(a_names(&status.signed), vec!["A"]);
    assert_eq!(a_names(&status.pending), vec!["B", "C"]);
    assert!(!status.complete);
    assert_eq!(
        validate_transaction(&tx),
        Err(TxError { kind: ErrorKind::InsufficientSignatures, spend_index: Some(0) })
    );

    let kept: Transaction = add_signature(a_built(), 0, "A", "sigA").unwrap();
    assert_eq!(
        add_signature(kept, 0, "D", "sigD"),
        Err(TxError { kind: ErrorKind::UnauthorizedSigner, spend_index: None })
    );

    let tx: Transaction = add_signature(tx, 0, "B", "sigB").unwrap();
    let status: SigningStatus = get_spend_signing_status(&tx, 0).unwrap();
    assert_eq!(a_names(&status.signed), vec!["A", "B"]);
    assert_eq!(a_names(&status.pending), vec!["C"]);
    assert!(status.complete);
    assert_eq!(
        validate_transaction(&tx),
        Ok("Transaction is valid and ready for broadcast".to_string())
    );
}

#[test]
fn unbalanced_build_fails() {
    assert_eq!(
        build_transaction(vec![a_note(100, 2, &["A", "B", "C"])], vec![a_output(90)]),
        Err(TxError { kind: ErrorKind::BalanceMismatch, spend_index: None })
    );
}

#[test]
fn build_with_threshold_above_keys_fails() {
    assert_eq!(
        build_transaction(vec![a_note(100, 3, &["A", "B"])], vec![a_output(100)]),
        Err(TxError { kind: ErrorKind::ThresholdExceedsKeys, spend_index: None })
    );
}

#[test]
fn build_reports_an_invalid_lock_before_the_balance() {
    assert_eq!(
        build_transaction(vec![a_note(100, 0, &["A"])], vec![a_output(90)]),
        Err(TxError { kind: ErrorKind::InvalidThreshold, spend_index: None })
    );
    assert_eq!(
        build_transaction(vec![a_note(100, 1, &["A", "A"])], vec![a_output(90)]),
        Err(TxError { kind: ErrorKind::DuplicatePublicKey, spend_index: None })
    );
}

#[test]
fn build_reports_the_first_invalid_lock() {
    assert_eq!(
        build_transaction(
            vec![a_note(50, 1, &["A"]), a_note(25, 1, &["A", "A"]), a_note(25, 0, &["A"])],
            vec![a_output(100)]
        ),
        Err(TxError { kind: ErrorKind::DuplicatePublicKey, spend_index: None })
    );
}

#[test]
fn build_of_nothing_gives_the_empty_transaction() {
    assert_eq!(
        build_transaction(vec![], vec![]),
        Ok(Transaction { spends: vec![], outputs: vec![] })
    );
}

#[test]
fn build_does_not_check_the_locks_of_outputs() {
    let output: Output = Output { recipient: "bob".to_string(), value: 100, lock: a_lock(0, &[]) };
    assert!(build_transaction(vec![a_note(100, 1, &["A"])], vec![output]).is_ok());
}

#[test]
fn built_hashes_are_computed_from_the_outputs_alone() {
    let tx: Transaction =
        build_transaction(vec![a_note(60, 1, &["A"]), a_note(40, 2, &["B", "C"])], vec![a_output(100)])
            .unwrap();
    let outputs_only: Transaction = Transaction { spends: vec![], outputs: vec![a_output(100)] };
    assert_eq!(tx.spends[0].seeds.message_hash, compute_spend_hash(0, &outputs_only));
    assert_eq!(tx.spends[1].seeds.message_hash, compute_spend_hash(1, &outputs_only));
    assert_eq!(
        tx.spends[0].seeds.message_hash,
        "4d1ee7f20dd790b01c37f80951d8c205e0bfda1c96f246ec2367de37a36c4aa5"
    );
    assert_eq!(
        tx.spends[1].seeds.message_hash,
        "950e19df8be0ac8fc1780d72ba70d2d504f0f1a06fca4a797cec8e5f1b04b6cf"
    );
    assert_eq!(tx.spends[0].note, a_note(60, 1, &["A"]));
    assert_eq!(tx.spends[1].note, a_note(40, 2, &["B", "C"]));
}

#[test]
fn built_transaction_balances() {
    let tx: Transaction =
        build_transaction(vec![a_note(60, 1, &["A"]), a_note(40, 1, &["B"])], vec![a_output(30), a_output(70)])
            .unwrap();
    assert_eq!(tx.total_input(), tx.total_output());
    assert_eq!(tx.validate_balance(), Ok(()));
}

#[test]
fn changing_a_value_after_build_fails_validation() {
    let mut tx: Transaction = a_built();
    tx.outputs[0].value = 99;
    assert_eq!(
        validate_transaction(&tx),
        Err(TxError { kind: ErrorKind::BalanceMismatch, spend_index: None })
    );
}

#[test]
fn fetched_hash_is_the_one_built() {
    let tx: Transaction = a_built();
    assert_eq!(
        get_spend_hash(&tx, 0),
        Ok("4d1ee7f20dd790b01c37f80951d8c205e0bfda1c96f246ec2367de37a36c4aa5".to_string())
    );
}

#[test]
fn fetched_hash_is_the_same_before_and_after_signing() {
    let tx: Transaction = a_built();
    let before: String = get_spend_hash(&tx, 0).unwrap();
    let tx: Transaction = add_signature(tx, 0, "A", "s1").unwrap();
    assert_eq!(get_spend_hash(&tx, 0).unwrap(), before);
    let tx: Transaction = add_signature(tx, 0, "C", "s2").unwrap();
    let tx: Transaction = add_signature(tx, 0, "A", "s3").unwrap();
    assert_eq!(get_spend_hash(&tx, 0).unwrap(), before);
}

#[test]
fn out_of_bounds_index_fails() {
    let tx: Transaction = a_built();
    assert_eq!(get_spend_hash(&tx, 1), Err(a_out_of_bounds()));
    assert_eq!(get_spend_hash(&tx, usize::MAX), Err(a_out_of_bounds()));
    assert_eq!(get_spend_signing_status(&tx, 1), Err(a_out_of_bounds()));
    assert_eq!(get_spend_signing_status(&tx, usize::MAX), Err(a_out_of_bounds()));
    assert_eq!(add_signature(a_built(), 1, "A", "s"), Err(a_out_of_bounds()));
    assert_eq!(add_signature(a_built(), usize::MAX, "A", "s"), Err(a_out_of_bounds()));
}

#[test]
fn out_of_bounds_index_fails_on_an_empty_transaction() {
    let tx: Transaction = build_transaction(vec![], vec![]).unwrap();
    assert_eq!(get_spend_hash(&tx, 0), Err(a_out_of_bounds()));
    assert_eq!(get_spend_signing_status(&tx, 0), Err(a_out_of_bounds()));
    assert_eq!(add_signature(tx, 0, "A", "s"), Err(a_out_of_bounds()));
}

#[test]
fn out_of_bounds_is_reported_before_an_unauthorized_signer() {
    assert_eq!(add_signature(a_built(), 3, "D", "s"), Err(a_out_of_bounds()));
}

#[test]
fn second_signature_of_a_key_replaces_the_first() {
    let tx: Transaction = add_signature(a_built(), 0, "A", "first").unwrap();
    let tx: Transaction = add_signature(tx, 0, "A", "second").unwrap();
    let entries: Vec<(&str, &str)> =
        tx.spends[0].seeds.signatures.iter().map(|(k, s)| (k.0.as_str(), s.0.as_str())).collect();
    assert_eq!(entries, vec![("A", "second")]);
    assert_eq!(tx, add_signature(a_built(), 0, "A", "second").unwrap());
}

#[test]
fn a_signature_changes_its_spend_only() {
    let built: Transaction =
        build_transaction(vec![a_note(60, 1, &["A"]), a_note(40, 1, &["A"])], vec![a_output(100)])
            .unwrap();
    let tx: Transaction = add_signature(built, 1, "A", "s").unwrap();
    assert!(tx.spends[0].seeds.signatures.is_empty());
    assert_eq!(tx.spends[1].seeds.signatures.len(), 1);
    assert_eq!(tx.spends[0].note, a_note(60, 1, &["A"]));
    assert_eq!(tx.spends[1].note, a_note(40, 1, &["A"]));
    assert_eq!(tx.outputs, vec![a_output(100)]);
}

#[test]
fn validation_reports_the_balance_before_the_signatures() {
    let mut tx: Transaction = a_built();
    tx.spends[0].note.value = 1;
    assert_eq!(
        validate_transaction(&tx),
        Err(TxError { kind: ErrorKind::BalanceMismatch, spend_index: None })
    );
}

#[test]
fn validation_reports_a_signer_outside_the_lock() {
    let tx: Transaction = add_signature(a_built(), 0, "A", "sA").unwrap();
    let mut tx: Transaction = add_signature(tx, 0, "B", "sB").unwrap();
    tx.spends[0].note.lock.pkh.pubkeys[1] = PublicKey("E".to_string());
    assert_eq!(
        validate_transaction(&tx),
        Err(TxError { kind: ErrorKind::InvalidSigner, spend_index: Some(0) })
    );
}

#[test]
fn validation_of_the_empty_transaction_succeeds() {
    let tx: Transaction = build_transaction(vec![], vec![]).unwrap();
    assert_eq!(
        validate_transaction(&tx),
        Ok("Transaction is valid and ready for broadcast".to_string())
    );
}

#[test]
fn validation_counts_a_key_that_signed_twice_once() {
    let mut tx: Transaction = add_signature(a_built(), 0, "A", "s1").unwrap();
    let again = tx.spends[0].seeds.signatures[0].clone();
    tx.spends[0].seeds.signatures.push(again);
    assert_eq!(tx.spends[0].seeds.signatures.len(), 2);
    assert_eq!(
        validate_transaction(&tx),
        Err(TxError { kind: ErrorKind::InsufficientSignatures, spend_index: Some(0) })
    );
    let status: SigningStatus = get_spend_signing_status(&tx, 0).unwrap();
    assert_eq!(a_names(&status.signed), vec!["A"]);
    assert!(!status.complete);
}
