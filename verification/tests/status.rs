use multisig_tx::{
    signing_status, Lock, Note, NoteName, PkhCondition, PublicKey, Seeds, Signature, SigningStatus,
    Spend, Transaction,
};

fn st_tx(threshold: usize, keys: &[&str], signers: &[&str]) -> Transaction {
    let mut seeds: Seeds = Seeds::new("hash".to_string());
    for s in signers {
        seeds.add_signature(PublicKey(s.to_string()), Signature(format!("sig-{}", s)));
    }
    Transaction {
        spends: vec![Spend {
            note: Note {
                name: NoteName { first: "n".to_string(), last: "1".to_string() },
                value: 1,
                lock: Lock {
                    pkh: PkhCondition {
                        threshold,
                        pubkeys: keys.iter().map(|k| PublicKey(k.to_string())).collect(),
                    },
                },
            },
            seeds,
        }],
        outputs: vec![],
    }
}

fn st_names(keys: &[PublicKey]) -> Vec<&str> {
    keys.iter().map(|k| k.0.as_str()).collect()
}

#[test]
fn status_of_an_unsigned_spend() {
    let status: SigningStatus = signing_status(0, &st_tx(2, &["A", "B", "C"], &[]));
    assert_eq!(status.spend_index, 0);
    assert_eq!(status.threshold, 2);
    assert!(status.signed.is_empty());
    assert_eq!(st_names(&status.pending), vec!["A", "B", "C"]);
    assert!(!status.complete);
}

#[test]
fn status_parts_keep_the_order_of_the_lock() {
    let status: SigningStatus = signing_status(0, &st_tx(3, &["A", "B", "C", "D"], &["D", "B"]));
    assert_eq!(st_names(&status.signed), vec!["B", "D"]);
    assert_eq!(st_names(&status.pending), vec!["A", "C"]);
    assert!(!status.complete);
}

#[test]
fn status_is_complete_at_the_threshold() {
    let at: SigningStatus = signing_status(0, &st_tx(2, &["A", "B", "C"], &["C", "A"]));
    assert!(at.complete);
    assert_eq!(st_names(&at.signed), vec!["A", "C"]);
    assert_eq!(st_names(&at.pending), vec!["B"]);
    let above: SigningStatus = signing_status(0, &st_tx(2, &["A", "B", "C"], &["C", "A", "B"]));
    assert!(above.complete);
    assert!(above.pending.is_empty());
    let below: SigningStatus = signing_status(0, &st_tx(2, &["A", "B", "C"], &["C"]));
    assert!(!below.complete);
}

#[test]
fn status_counts_only_keys_of_the_lock() {
    let status: SigningStatus = signing_status(0, &st_tx(2, &["A", "B"], &["A", "X", "Y"]));
    assert_eq!(st_names(&status.signed), vec!["A"]);
    assert_eq!(st_names(&status.pending), vec!["B"]);
    assert!(!status.complete);
}

#[test]
fn status_with_a_zero_threshold_is_complete() {
    let status: SigningStatus = signing_status(0, &st_tx(0, &["A"], &[]));
    assert!(status.complete);
    assert_eq!(status.threshold, 0);
}

#[test]
fn signed_and_pending_part_the_keys() {
    let tx: Transaction = st_tx(2, &["A", "B", "C", "D", "E"], &["E", "B", "Z"]);
    let status: SigningStatus = signing_status(0, &tx);
    assert_eq!(status.signed.len() + status.pending.len(), 5);
    for k in &tx.spends[0].note.lock.pkh.pubkeys {
        assert_ne!(status.signed.contains(k), status.pending.contains(k));
    }
    for k in status.signed.iter().chain(status.pending.iter()) {
        assert!(tx.spends[0].note.lock.pkh.pubkeys.contains(k));
    }
    assert_eq!(status.complete, status.signed.len() >= status.threshold);
}

#[test]
fn status_leaves_the_transaction_as_it_was() {
    let tx: Transaction = st_tx(2, &["A", "B", "C"], &["A"]);
    let _status: SigningStatus = signing_status(0, &tx);
    assert_eq!(tx, st_tx(2, &["A", "B", "C"], &["A"]));
}
