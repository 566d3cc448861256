use multisig_tx::{PublicKey, Seeds, Signature};

fn key(k: &str) -> PublicKey {
    PublicKey(k.to_string())
}

fn sig(s: &str) -> Signature {
    Signature(s.to_string())
}

fn entries(seeds: &Seeds) -> Vec<(&str, &str)> {
    seeds.signatures.iter().map(|(k, s)| (k.0.as_str(), s.0.as_str())).collect()
}

#[test]
fn new_record_holds_the_hash_and_no_signature() {
    let seeds: Seeds = Seeds::new("abc".to_string());
    assert_eq!(seeds.message_hash, "abc");
    assert_eq!(seeds.signature_count(), 0);
    assert!(!seeds.has_signature(&key("A")));
}

#[test]
fn signatures_are_kept_in_order_of_submission() {
    let mut seeds: Seeds = Seeds::new("h".to_string());
    seeds.add_signature(key("B"), sig("s1"));
    seeds.add_signature(key("A"), sig("s2"));
    seeds.add_signature(key("C"), sig("s3"));
    assert_eq!(entries(&seeds), vec![("B", "s1"), ("A", "s2"), ("C", "s3")]);
    assert_eq!(seeds.signature_count(), 3);
}

#[test]
fn resubmitting_replaces_and_moves_the_key_to_the_end() {
    let mut seeds: Seeds = Seeds::new("h".to_string());
    seeds.add_signature(key("A"), sig("old"));
    seeds.add_signature(key("B"), sig("sb"));
    seeds.add_signature(key("C"), sig("sc"));
    seeds.add_signature(key("A"), sig("new"));
    assert_eq!(entries(&seeds), vec![("B", "sb"), ("C", "sc"), ("A", "new")]);
    assert_eq!(seeds.signature_count(), 3);
}

#[test]
fn two_signatures_for_one_key_leave_the_second_only() {
    let mut seeds: Seeds = Seeds::new("h".to_string());
    seeds.add_signature(key("A"), sig("first"));
    seeds.add_signature(key("A"), sig("second"));
    assert_eq!(entries(&seeds), vec![("A", "second")]);
    assert_eq!(seeds.signature_count(), 1);
}

#[test]
fn adding_a_signature_removes_every_earlier_entry_of_the_key() {
    let mut seeds: Seeds = Seeds {
        message_hash: "h".to_string(),
        signatures: vec![(key("A"), sig("1")), (key("B"), sig("2")), (key("A"), sig("3"))],
    };
    seeds.add_signature(key("A"), sig("4"));
    assert_eq!(entries(&seeds), vec![("B", "2"), ("A", "4")]);
}

#[test]
fn adding_a_signature_keeps_the_hash() {
    let mut seeds: Seeds = Seeds::new("the-hash".to_string());
    seeds.add_signature(key("A"), sig("s"));
    assert_eq!(seeds.message_hash, "the-hash");
}

#[test]
fn has_signature_tells_signers_from_others() {
    let mut seeds: Seeds = Seeds::new("h".to_string());
    seeds.add_signature(key("A"), sig("s"));
    assert!(seeds.has_signature(&key("A")));
    assert!(!seeds.has_signature(&key("B")));
    assert!(!seeds.has_signature(&key("a")));
    assert!(!seeds.has_signature(&key("")));
}

#[test]
fn count_is_the_number_of_distinct_keys() {
    let seeds: Seeds = Seeds {
        message_hash: "h".to_string(),
        signatures: vec![
            (key("A"), sig("1")),
            (key("B"), sig("2")),
            (key("A"), sig("3")),
            (key("C"), sig("4")),
            (key("B"), sig("5")),
            (key("A"), sig("6")),
        ],
    };
    assert_eq!(seeds.signature_count(), 3);
    let one: Seeds =
        Seeds { message_hash: "h".to_string(), signatures: vec![(key("A"), sig("1")), (key("A"), sig("2"))] };
    assert_eq!(one.signature_count(), 1);
}
