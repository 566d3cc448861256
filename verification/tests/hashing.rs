use multisig_tx::{
    compute_spend_hash, Lock, Note, NoteName, Output, PkhCondition, PublicKey, Seeds, Signature,
    Spend, Transaction,
};
use multisig_tx::encoding::encode_payload;

fn h_literal(text: &str) -> String {
    PublicKey(text.to_string()).to_json()
}

fn h_lock(threshold: usize, keys: &[&str]) -> Lock {
    Lock {
        pkh: PkhCondition {
            threshold,
            pubkeys: keys.iter().map(|k| PublicKey(k.to_string())).collect(),
        },
    }
}

fn h_outputs() -> Vec<Output> {
    vec![Output { recipient: "bob".to_string(), value: 100, lock: h_lock(1, &["B"]) }]
}

fn h_note(value: u64) -> Note {
    Note {
        name: NoteName { first: "first".to_string(), last: "last".to_string() },
        value,
        lock: h_lock(2, &["A", "B", "C"]),
    }
}

fn h_full() -> Transaction {
    Transaction {
        spends: vec![Spend {
            note: h_note(100),
            seeds: Seeds {
                message_hash: "4d1ee7f20dd790b01c37f80951d8c205e0bfda1c96f246ec2367de37a36c4aa5"
                    .to_string(),
                signatures: vec![(PublicKey("A".to_string()), Signature("sigA".to_string()))],
            },
        }],
        outputs: h_outputs(),
    }
}

#[test]
fn payload_of_outputs_only_is_compact_json_in_field_order() {
    let tx: Transaction = Transaction { spends: vec![], outputs: h_outputs() };
    assert_eq!(
        encode_payload(0, &tx),
        "{\"spend_index\":0,\"transaction\":{\"spends\":[],\"outputs\":[{\"recipient\":\"bob\",\"value\":100,\"lock\":{\"pkh\":{\"threshold\":1,\"pubkeys\":[\"B\"]}}}]}}"
    );
}

#[test]
fn payload_of_an_empty_transaction() {
    let tx: Transaction = Transaction { spends: vec![], outputs: vec![] };
    assert_eq!(
        encode_payload(0, &tx),
        "{\"spend_index\":0,\"transaction\":{\"spends\":[],\"outputs\":[]}}"
    );
}

#[test]
fn payload_writes_signature_entries_as_pairs() {
    assert_eq!(
        encode_payload(0, &h_full()),
        "{\"spend_index\":0,\"transaction\":{\"spends\":[{\"note\":{\"name\":{\"first\":\"first\",\"last\":\"last\"},\"value\":100,\"lock\":{\"pkh\":{\"threshold\":2,\"pubkeys\":[\"A\",\"B\",\"C\"]}}},\"seeds\":{\"message_hash\":\"4d1ee7f20dd790b01c37f80951d8c205e0bfda1c96f246ec2367de37a36c4aa5\",\"signatures\":[[\"A\",\"sigA\"]]}}],\"outputs\":[{\"recipient\":\"bob\",\"value\":100,\"lock\":{\"pkh\":{\"threshold\":1,\"pubkeys\":[\"B\"]}}}]}}"
    );
}

#[test]
fn payload_escapes_strings_as_json_does() {
    let tx: Transaction = Transaction {
        spends: vec![],
        outputs: vec![Output {
            recipient: "a\"b\\c\n\t\u{1}\u{e9}".to_string(),
            value: 7,
            lock: h_lock(1, &["k\u{e9}y"]),
        }],
    };
    assert_eq!(
        encode_payload(3, &tx),
        "{\"spend_index\":3,\"transaction\":{\"spends\":[],\"outputs\":[{\"recipient\":\"a\\\"b\\\\c\\n\\t\\u0001\u{e9}\",\"value\":7,\"lock\":{\"pkh\":{\"threshold\":1,\"pubkeys\":[\"k\u{e9}y\"]}}}]}}"
    );
    assert_eq!(
        compute_spend_hash(3, &tx),
        "cb8fe5f3bfd289e2482619183caba6e984bf19186580ef2c2d9bdd6aee05cbce"
    );
}

#[test]
fn unsigned_copy_drops_signatures_and_keeps_hashes() {
    let copy: Transaction = h_full().unsigned();
    assert_eq!(copy.spends.len(), 1);
    assert!(copy.spends[0].seeds.signatures.is_empty());
    assert_eq!(copy.spends[0].seeds.message_hash, h_full().spends[0].seeds.message_hash);
    assert_eq!(copy.spends[0].note, h_full().spends[0].note);
    assert_eq!(copy.outputs, h_full().outputs);
}

#[test]
fn hash_of_outputs_only_has_the_known_value() {
    let tx: Transaction = Transaction { spends: vec![], outputs: h_outputs() };
    assert_eq!(
        compute_spend_hash(0, &tx),
        "4d1ee7f20dd790b01c37f80951d8c205e0bfda1c96f246ec2367de37a36c4aa5"
    );
    assert_eq!(
        compute_spend_hash(1, &tx),
        "950e19df8be0ac8fc1780d72ba70d2d504f0f1a06fca4a797cec8e5f1b04b6cf"
    );
}

#[test]
fn hash_of_an_empty_transaction_has_the_known_value() {
    let tx: Transaction = Transaction { spends: vec![], outputs: vec![] };
    assert_eq!(
        compute_spend_hash(0, &tx),
        "b398b4ab2fe37a4babe85225ca861fcdfacc7552ce6b2ce7e8a1492c7e7cbd00"
    );
}

#[test]
fn hash_of_a_signed_transaction_has_the_known_value() {
    assert_eq!(
        compute_spend_hash(0, &h_full()),
        "133a5b89a556aa55bfec2729e46feafc2895d1003c0060556bf4a8064b99a513"
    );
}

#[test]
fn hash_takes_the_largest_value() {
    let tx: Transaction = Transaction {
        spends: vec![],
        outputs: vec![Output { recipient: "r".to_string(), value: u64::MAX, lock: h_lock(1, &["K"]) }],
    };
    assert_eq!(
        compute_spend_hash(0, &tx),
        "035b2ffa5208d76d0a7517e322065efd040aac934ad34500b67437201e45b78e"
    );
}

#[test]
fn hash_is_sixty_four_lower_case_hex_digits() {
    let hash: String = compute_spend_hash(0, &h_full());
    assert_eq!(hash.len(), 64);
    assert!(hash.chars().all(|c| c.is_ascii_digit() || ('a'..='f').contains(&c)));
}

#[test]
fn hash_is_the_same_on_every_call() {
    assert_eq!(compute_spend_hash(0, &h_full()), compute_spend_hash(0, &h_full()));
}

#[test]
fn hash_does_not_depend_on_signatures() {
    let mut tx: Transaction = h_full();
    let before: String = compute_spend_hash(0, &tx);
    tx.spends[0].seeds.add_signature(PublicKey("B".to_string()), Signature("sigB".to_string()));
    assert_eq!(compute_spend_hash(0, &tx), before);
    tx.spends[0].seeds.add_signature(PublicKey("A".to_string()), Signature("other".to_string()));
    assert_eq!(compute_spend_hash(0, &tx), before);
    tx.spends[0].seeds.signatures.clear();
    assert_eq!(compute_spend_hash(0, &tx), before);
}

#[test]
fn hash_depends_on_the_spend_index() {
    assert_ne!(compute_spend_hash(0, &h_full()), compute_spend_hash(1, &h_full()));
}

#[test]
fn hash_changes_with_a_note() {
    let mut tx: Transaction = h_full();
    let before: String = compute_spend_hash(0, &tx);
    tx.spends[0].note.value = 101;
    assert_ne!(compute_spend_hash(0, &tx), before);
    let mut named: Transaction = h_full();
    named.spends[0].note.name.last = "other".to_string();
    assert_ne!(compute_spend_hash(0, &named), before);
    let mut locked: Transaction = h_full();
    locked.spends[0].note.lock.pkh.threshold = 3;
    assert_ne!(compute_spend_hash(0, &locked), before);
    let mut reordered: Transaction = h_full();
    reordered.spends[0].note.lock.pkh.pubkeys.swap(0, 1);
    assert_ne!(compute_spend_hash(0, &reordered), before);
}

#[test]
fn hash_changes_with_an_output() {
    let mut tx: Transaction = h_full();
    let before: String = compute_spend_hash(0, &tx);
    tx.outputs[0].value = 99;
    assert_ne!(compute_spend_hash(0, &tx), before);
    let mut renamed: Transaction = h_full();
    renamed.outputs[0].recipient = "carol".to_string();
    assert_ne!(compute_spend_hash(0, &renamed), before);
    let mut more: Transaction = h_full();
    more.outputs.push(Output { recipient: "bob".to_string(), value: 0, lock: h_lock(1, &["B"]) });
    assert_ne!(compute_spend_hash(0, &more), before);
}

#[test]
fn hash_changes_with_the_number_of_spends() {
    let mut tx: Transaction = h_full();
    let before: String = compute_spend_hash(0, &tx);
    tx.spends.push(Spend { note: h_note(100), seeds: Seeds::new("x".to_string()) });
    assert_ne!(compute_spend_hash(0, &tx), before);
    tx.spends.clear();
    assert_ne!(compute_spend_hash(0, &tx), before);
}

#[test]
fn hash_changes_with_the_hash_a_spend_holds() {
    let mut tx: Transaction = h_full();
    let before: String = compute_spend_hash(0, &tx);
    tx.spends[0].seeds.message_hash = "00".to_string();
    assert_ne!(compute_spend_hash(0, &tx), before);
}

#[test]
fn string_literal_escapes_quote_and_backslash() {
    assert_eq!(h_literal(""), "\"\"");
    assert_eq!(h_literal("abc"), "\"abc\"");
    assert_eq!(h_literal("\""), "\"\\\"\"");
    assert_eq!(h_literal("\\"), "\"\\\\\"");
}

#[test]
fn string_literal_escapes_five_control_characters_by_letter() {
    assert_eq!(h_literal("\u{8}"), "\"\\b\"");
    assert_eq!(h_literal("\t"), "\"\\t\"");
    assert_eq!(h_literal("\n"), "\"\\n\"");
    assert_eq!(h_literal("\u{c}"), "\"\\f\"");
    assert_eq!(h_literal("\r"), "\"\\r\"");
}

#[test]
fn string_literal_escapes_other_control_characters_by_number() {
    assert_eq!(h_literal("\u{0}"), "\"\\u0000\"");
    assert_eq!(h_literal("\u{1}"), "\"\\u0001\"");
    assert_eq!(h_literal("\u{7}"), "\"\\u0007\"");
    assert_eq!(h_literal("\u{b}"), "\"\\u000b\"");
    assert_eq!(h_literal("\u{e}"), "\"\\u000e\"");
    assert_eq!(h_literal("\u{10}"), "\"\\u0010\"");
    assert_eq!(h_literal("\u{1a}"), "\"\\u001a\"");
    assert_eq!(h_literal("\u{1f}"), "\"\\u001f\"");
}

#[test]
fn string_literal_leaves_every_other_character() {
    assert_eq!(h_literal(" "), "\" \"");
    assert_eq!(h_literal("/"), "\"/\"");
    assert_eq!(h_literal("'"), "\"'\"");
    assert_eq!(h_literal("\u{7f}"), "\"\u{7f}\"");
    assert_eq!(h_literal("\u{80}"), "\"\u{80}\"");
    assert_eq!(h_literal("\u{e9}"), "\"\u{e9}\"");
    assert_eq!(h_literal("\u{2028}"), "\"\u{2028}\"");
    assert_eq!(h_literal("\u{10ffff}"), "\"\u{10ffff}\"");
    assert_eq!(h_literal("a\"b\u{1}c\\d"), "\"a\\\"b\\u0001c\\\\d\"");
}
