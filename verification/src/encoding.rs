//! The canonical text of a transaction.
//!
//! A value is written as compact JSON: an object's members in the order in
//! which the type declares its fields, a list's items in their order, nothing
//! between the tokens. A key or a signature is written as the string it
//! wraps, a signature entry as the two-item list of key and signature. The
//! same value always gives the same text.

use vstd::prelude::*;
use crate::condition::{Lock, LockView, PkhCondition, PkhConditionView};
use crate::keys::{PublicKey, Signature};
use crate::note::{Note, NoteView, Output, OutputView};
use crate::seeds::{Seeds, SeedsView};
use crate::text::{decimal_digits, decimal_text, hex_digit_char};
use crate::transaction::{Spend, SpendView, Transaction, TransactionView};

verus! {

/// How a character stands inside a JSON string literal. The double quote
/// and the backslash get a backslash in front; backspace, tab, line feed,
/// form feed and carriage return are written as a backslash and a letter;
/// every other character below the space as `\u00` and its two hexadecimal
/// digits; every other character as itself.
pub open spec fn escaped_char(c: char) -> Seq<char> {
    let code = c as u32;
    if c == '"' {
        seq!['\\', '"']
    } else if c == '\\' {
        seq!['\\', '\\']
    } else if code == 0x08 {
        seq!['\\', 'b']
    } else if code == 0x09 {
        seq!['\\', 't']
    } else if code == 0x0a {
        seq!['\\', 'n']
    } else if code == 0x0c {
        seq!['\\', 'f']
    } else if code == 0x0d {
        seq!['\\', 'r']
    } else if code < 0x20 {
        seq![
            '\\',
            'u',
            '0',
            '0',
            hex_digit_char((code / 16) as nat),
            hex_digit_char((code % 16) as nat),
        ]
    } else {
        seq![c]
    }
}

/// The characters of `text`, each as it stands inside a JSON string literal.
pub open spec fn escaped_text(text: Seq<char>) -> Seq<char>
    decreases text.len(),
{
    if text.len() == 0 {
        Seq::empty()
    } else {
        escaped_char(text[0]) + escaped_text(text.drop_first())
    }
}

/// The JSON string literal for `text`: an opening double quote, the escaped
/// characters of `text`, and a closing double quote.
#[verifier::opaque]
pub open spec fn json_string_text(text: Seq<char>) -> Seq<char> {
    seq!['"'] + escaped_text(text) + seq!['"']
}

/// Calls `serde_json::to_string` on a string slice.
///
/// Trusted: the result is the JSON string literal for `text`, with exactly
/// the escapes that `escaped_char` lists. The call cannot fail on a string
/// slice: it writes into a byte vector, and a string is neither a map nor a
/// type whose serialization decides to fail.
#[verifier::external_body]
fn json_string(text: &str) -> (literal: String)
    ensures
        literal@ == json_string_text(text@),
{
    serde_json::to_string(text).unwrap_or_default()
}

/// What follows the first item of a JSON list: each further item with a
/// comma in front, then the closing bracket.
pub open spec fn array_tail(items: Seq<Seq<char>>) -> Seq<char>
    decreases items.len(),
{
    if items.len() == 0 {
        "]"@
    } else {
        ","@ + items[0] + array_tail(items.drop_first())
    }
}

/// The JSON list of items that are JSON texts already: the items between
/// brackets, with a comma between each two.
#[verifier::opaque]
pub open spec fn json_array(items: Seq<Seq<char>>) -> Seq<char> {
    if items.len() == 0 {
        "["@ + "]"@
    } else {
        "["@ + items[0] + array_tail(items.drop_first())
    }
}

/// The string literals of a list of keys.
pub open spec fn key_texts(keys: Seq<Seq<char>>) -> Seq<Seq<char>> {
    Seq::new(keys.len(), |i: int| json_string_text(keys[i]))
}

/// The text of a threshold rule.
#[verifier::opaque]
pub open spec fn condition_json(c: PkhConditionView) -> Seq<char> {
    "{\"threshold\":"@ + decimal_digits(c.threshold) + ",\"pubkeys\":"@ + json_array(
        key_texts(c.pubkeys),
    ) + "}"@
}

/// The text of a lock.
#[verifier::opaque]
pub open spec fn lock_json(lock: LockView) -> Seq<char> {
    "{\"pkh\":"@ + condition_json(lock.pkh) + "}"@
}

/// The text of a note.
#[verifier::opaque]
pub open spec fn note_json(note: NoteView) -> Seq<char> {
    "{\"name\":{\"first\":"@ + json_string_text(note.name.first) + ",\"last\":"@ + json_string_text(
        note.name.last,
    ) + "},\"value\":"@ + decimal_digits(note.value) + ",\"lock\":"@ + lock_json(note.lock) + "}"@
}

/// The text of an output.
#[verifier::opaque]
pub open spec fn output_json(output: OutputView) -> Seq<char> {
    "{\"recipient\":"@ + json_string_text(output.recipient) + ",\"value\":"@ + decimal_digits(
        output.value,
    ) + ",\"lock\":"@ + lock_json(output.lock) + "}"@
}

/// The text of a signature entry.
#[verifier::opaque]
pub open spec fn entry_json(entry: (Seq<char>, Seq<char>)) -> Seq<char> {
    "["@ + json_string_text(entry.0) + ","@ + json_string_text(entry.1) + "]"@
}

/// The texts of a list of signature entries.
pub open spec fn entry_texts(entries: Seq<(Seq<char>, Seq<char>)>) -> Seq<Seq<char>> {
    Seq::new(entries.len(), |i: int| entry_json(entries[i]))
}

/// The text of a signing record.
#[verifier::opaque]
pub open spec fn seeds_json(seeds: SeedsView) -> Seq<char> {
    "{\"message_hash\":"@ + json_string_text(seeds.message_hash) + ",\"signatures\":"@ + json_array(
        entry_texts(seeds.signatures),
    ) + "}"@
}

/// The text of a spend.
#[verifier::opaque]
pub open spec fn spend_json(spend: SpendView) -> Seq<char> {
    "{\"note\":"@ + note_json(spend.note) + ",\"seeds\":"@ + seeds_json(spend.seeds) + "}"@
}

/// The texts of a list of spends.
pub open spec fn spend_texts(spends: Seq<SpendView>) -> Seq<Seq<char>> {
    Seq::new(spends.len(), |i: int| spend_json(spends[i]))
}

/// The texts of a list of outputs.
pub open spec fn output_texts(outputs: Seq<OutputView>) -> Seq<Seq<char>> {
    Seq::new(outputs.len(), |i: int| output_json(outputs[i]))
}

/// The text of a transaction.
#[verifier::opaque]
pub open spec fn transaction_json(tx: TransactionView) -> Seq<char> {
    "{\"spends\":"@ + json_array(spend_texts(tx.spends)) + ",\"outputs\":"@ + json_array(
        output_texts(tx.outputs),
    ) + "}"@
}

/// The text of a spend index together with a transaction.
#[verifier::opaque]
pub open spec fn payload_json(spend_index: nat, tx: TransactionView) -> Seq<char> {
    "{\"spend_index\":"@ + decimal_digits(spend_index) + ",\"transaction\":"@ + transaction_json(tx)
        + "}"@
}

/// The texts of a list of strings.
pub open spec fn texts_view(texts: Seq<String>) -> Seq<Seq<char>> {
    Seq::new(texts.len(), |i: int| texts[i]@)
}

fn encode_array(items: &Vec<String>) -> (text: String)
    ensures
        text@ == json_array(texts_view(items@)),
{
    proof {
        reveal(json_array);
    }
    let ghost texts = texts_view(items@);
    let n: usize = items.len();
    let mut text: String = "[".to_owned();
    if n > 0 {
        text.append(items[0].as_str());
        let mut i: usize = 1;
        assert(texts.skip(1) =~= texts.drop_first());
        while i < n
            invariant
                n == items.len(),
                1 <= i <= n,
                texts == texts_view(items@),
                text@ + array_tail(texts.skip(i as int)) == json_array(texts),
            decreases n - i,
        {
            let ghost before = text@;
            let ghost rest = texts.skip(i as int);
            assert(rest.drop_first() =~= texts.skip(i + 1));
            assert(rest[0] == items@[i as int]@);
            text.append(",");
            text.append(items[i].as_str());
            assert(text@ + array_tail(texts.skip(i + 1)) =~= before + array_tail(rest));
            i += 1;
        }
        assert(texts.skip(n as int) =~= Seq::empty());
    }
    text.append("]");
    assert(text@ =~= json_array(texts));
    text
}

impl PublicKey {
    /// The key as a JSON string literal.
    pub fn to_json(&self) -> (text: String)
        ensures
            text@ == json_string_text(self@),
    {
        json_string(self.0.as_str())
    }
}

impl Signature {
    /// The signature as a JSON string literal.
    pub fn to_json(&self) -> (text: String)
        ensures
            text@ == json_string_text(self@),
    {
        json_string(self.0.as_str())
    }
}

impl PkhCondition {
    /// The canonical text of this rule.
    pub fn to_json(&self) -> (text: String)
        ensures
            text@ == condition_json(self@),
    {
        proof {
            reveal(condition_json);
        }
        let n: usize = self.pubkeys.len();
        let mut keys: Vec<String> = Vec::new();
        let mut i: usize = 0;
        while i < n
            invariant
                n == self.pubkeys.len(),
                i <= n,
                keys@.len() == i,
                forall|j: int| 0 <= j < i ==> keys@[j]@ == json_string_text(self.pubkeys@[j]@),
            decreases n - i,
        {
            keys.push(self.pubkeys[i].to_json());
            i += 1;
        }
        assert(texts_view(keys@) =~= key_texts(self@.pubkeys));
        let mut text: String = "{\"threshold\":".to_owned();
        text.append(decimal_text(self.threshold as u64).as_str());
        text.append(",\"pubkeys\":");
        text.append(encode_array(&keys).as_str());
        text.append("}");
        text
    }
}

impl Lock {
    /// The canonical text of this lock.
    pub fn to_json(&self) -> (text: String)
        ensures
            text@ == lock_json(self@),
    {
        proof {
            reveal(lock_json);
        }
        let mut text: String = "{\"pkh\":".to_owned();
        text.append(self.pkh.to_json().as_str());
        text.append("}");
        text
    }
}

impl Note {
    /// The canonical text of this note.
    pub fn to_json(&self) -> (text: String)
        ensures
            text@ == note_json(self@),
    {
        proof {
            reveal(note_json);
        }
        let mut text: String = "{\"name\":{\"first\":".to_owned();
        text.append(json_string(self.name.first.as_str()).as_str());
        text.append(",\"last\":");
        text.append(json_string(self.name.last.as_str()).as_str());
        text.append("},\"value\":");
        text.append(decimal_text(self.value).as_str());
        text.append(",\"lock\":");
        text.append(self.lock.to_json().as_str());
        text.append("}");
        text
    }
}

impl Output {
    /// The canonical text of this output.
    pub fn to_json(&self) -> (text: String)
        ensures
            text@ == output_json(self@),
    {
        proof {
            reveal(output_json);
        }
        let mut text: String = "{\"recipient\":".to_owned();
        text.append(json_string(self.recipient.as_str()).as_str());
        text.append(",\"value\":");
        text.append(decimal_text(self.value).as_str());
        text.append(",\"lock\":");
        text.append(self.lock.to_json().as_str());
        text.append("}");
        text
    }
}

impl Seeds {
    /// The canonical text of this signing record.
    pub fn to_json(&self) -> (text: String)
        ensures
            text@ == seeds_json(self@),
    {
        proof {
            reveal(seeds_json);
        }
        let n: usize = self.signatures.len();
        let mut entries: Vec<String> = Vec::new();
        let mut i: usize = 0;
        while i < n
            invariant
                n == self.signatures.len(),
                i <= n,
                entries@.len() == i,
                forall|j: int| 0 <= j < i ==> entries@[j]@ == entry_json(self@.signatures[j]),
            decreases n - i,
        {
            proof {
                reveal(entry_json);
            }
            let mut entry: String = "[".to_owned();
            entry.append(self.signatures[i].0.to_json().as_str());
            entry.append(",");
            entry.append(self.signatures[i].1.to_json().as_str());
            entry.append("]");
            entries.push(entry);
            i += 1;
        }
        assert(texts_view(entries@) =~= entry_texts(self@.signatures));
        let mut text: String = "{\"message_hash\":".to_owned();
        text.append(json_string(self.message_hash.as_str()).as_str());
        text.append(",\"signatures\":");
        text.append(encode_array(&entries).as_str());
        text.append("}");
        text
    }
}

impl Spend {
    /// The canonical text of this spend.
    pub fn to_json(&self) -> (text: String)
        ensures
            text@ == spend_json(self@),
    {
        proof {
            reveal(spend_json);
        }
        let mut text: String = "{\"note\":".to_owned();
        text.append(self.note.to_json().as_str());
        text.append(",\"seeds\":");
        text.append(self.seeds.to_json().as_str());
        text.append("}");
        text
    }
}

impl Transaction {
    /// The canonical text of this transaction.
    pub fn to_json(&self) -> (text: String)
        ensures
            text@ == transaction_json(self@),
    {
        proof {
            reveal(transaction_json);
        }
        let n: usize = self.spends.len();
        let mut spends: Vec<String> = Vec::new();
        let mut i: usize = 0;
        while i < n
            invariant
                n == self.spends.len(),
                i <= n,
                spends@.len() == i,
                forall|j: int| 0 <= j < i ==> spends@[j]@ == spend_json(self@.spends[j]),
            decreases n - i,
        {
            spends.push(self.spends[i].to_json());
            i += 1;
        }
        assert(texts_view(spends@) =~= spend_texts(self@.spends));
        let m: usize = self.outputs.len();
        let mut outputs: Vec<String> = Vec::new();
        let mut k: usize = 0;
        while k < m
            invariant
                m == self.outputs.len(),
                k <= m,
                outputs@.len() == k,
                forall|j: int| 0 <= j < k ==> outputs@[j]@ == output_json(self@.outputs[j]),
            decreases m - k,
        {
            outputs.push(self.outputs[k].to_json());
            k += 1;
        }
        assert(texts_view(outputs@) =~= output_texts(self@.outputs));
        let mut text: String = "{\"spends\":".to_owned();
        text.append(encode_array(&spends).as_str());
        text.append(",\"outputs\":");
        text.append(encode_array(&outputs).as_str());
        text.append("}");
        text
    }
}

/// The canonical text of `spend_index` together with `tx`.
pub fn encode_payload(spend_index: usize, tx: &Transaction) -> (text: String)
    ensures
        text@ == payload_json(spend_index as nat, tx@),
{
    proof {
        reveal(payload_json);
    }
    let mut text: String = "{\"spend_index\":".to_owned();
    text.append(decimal_text(spend_index as u64).as_str());
    text.append(",\"transaction\":");
    text.append(tx.to_json().as_str());
    text.append("}");
    text
}

} // verus!
