//! The signing hash: the digest of a transaction without its signatures,
//! which is what the signers of a spend sign.

use sha2::Digest;
use vstd::prelude::*;
use vstd::utf8::{encode_utf8, encode_utf8_decode_utf8};
use crate::encoding::{encode_payload, payload_json};
use crate::injective::lemma_payload_json_injective;
use crate::note::clone_outputs;
use crate::seeds::Seeds;
use crate::text::{hex_digit_char, lemma_hex_digit_char_injective};
use crate::transaction::{Spend, Transaction, TransactionView};

verus! {

/// The SHA-256 digest of a message.
pub uninterp spec fn sha256_digest(data: Seq<u8>) -> Seq<u8>;

/// Calls `sha2::Sha256::digest`.
///
/// Trusted: the result is the SHA-256 digest of `data`, a function of the
/// bytes of `data` alone, and it is 32 bytes long.
#[verifier::external_body]
fn sha256(data: &[u8]) -> (digest: Vec<u8>)
    ensures
        digest@ == sha256_digest(data@),
        digest@.len() == 32,
{
    sha2::Sha256::digest(data).to_vec()
}

/// Bytes in lower-case hexadecimal: two digits for each byte, the high half
/// of the byte first.
pub open spec fn hex_lower(data: Seq<u8>) -> Seq<char> {
    Seq::new(
        2 * data.len(),
        |i: int|
            if i % 2 == 0 {
                hex_digit_char((data[i / 2] / 16) as nat)
            } else {
                hex_digit_char((data[i / 2] % 16) as nat)
            },
    )
}

/// Calls `hex::encode`.
///
/// Trusted: the result holds two lower-case hexadecimal digits for each byte
/// of `data`, in the order of the bytes, the high half of a byte first.
#[verifier::external_body]
fn hex_encode(data: &[u8]) -> (text: String)
    ensures
        text@ == hex_lower(data@),
{
    hex::encode(data)
}

/// The message that the signers of the spend at `spend_index` sign: the
/// canonical text of the index together with the transaction stripped of
/// every signature.
pub open spec fn signing_payload(spend_index: nat, tx: TransactionView) -> Seq<char> {
    payload_json(spend_index, tx.unsigned())
}

/// The signing hash of the spend at `spend_index`: the SHA-256 digest of the
/// signing payload's bytes, in lower-case hexadecimal.
pub open spec fn signing_hash(spend_index: nat, tx: TransactionView) -> Seq<char> {
    hex_lower(sha256_digest(encode_utf8(signing_payload(spend_index, tx))))
}

/// Different bytes have different hexadecimal texts.
pub proof fn lemma_hex_lower_injective(a: Seq<u8>, b: Seq<u8>)
    requires
        hex_lower(a) == hex_lower(b),
    ensures
        a == b,
{
    assert(hex_lower(a).len() == 2 * a.len());
    assert(hex_lower(b).len() == 2 * b.len());
    assert forall|k: int| 0 <= k < a.len() implies a[k] == b[k] by {
        let high = 2 * k;
        let low = 2 * k + 1;
        assert(hex_lower(a)[high] == hex_digit_char((a[k] / 16) as nat));
        assert(hex_lower(b)[high] == hex_digit_char((b[k] / 16) as nat));
        assert(hex_lower(a)[low] == hex_digit_char((a[k] % 16) as nat));
        assert(hex_lower(b)[low] == hex_digit_char((b[k] % 16) as nat));
        lemma_hex_digit_char_injective((a[k] / 16) as nat, (b[k] / 16) as nat);
        lemma_hex_digit_char_injective((a[k] % 16) as nat, (b[k] % 16) as nat);
    }
    assert(a =~= b);
}

/// The hexadecimal rendering and the step from text to bytes lose nothing:
/// two signing hashes are the same exactly if the SHA-256 digests of the two
/// payloads are, and two payloads have the same bytes exactly if they are the
/// same text.
pub proof fn lemma_signing_hash_equal_iff_digest_equal(
    i: nat,
    a: TransactionView,
    j: nat,
    b: TransactionView,
)
    ensures
        signing_hash(i, a) == signing_hash(j, b) <==> sha256_digest(
            encode_utf8(signing_payload(i, a)),
        ) == sha256_digest(encode_utf8(signing_payload(j, b))),
        encode_utf8(signing_payload(i, a)) == encode_utf8(signing_payload(j, b))
            <==> signing_payload(i, a) == signing_payload(j, b),
{
    let da = sha256_digest(encode_utf8(signing_payload(i, a)));
    let db = sha256_digest(encode_utf8(signing_payload(j, b)));
    if hex_lower(da) == hex_lower(db) {
        lemma_hex_lower_injective(da, db);
    }
    encode_utf8_decode_utf8(signing_payload(i, a));
    encode_utf8_decode_utf8(signing_payload(j, b));
}

/// SHA-256 gives the two different messages `x` and `y` the same digest.
pub open spec fn sha256_collision(x: Seq<u8>, y: Seq<u8>) -> bool {
    x != y && sha256_digest(x) == sha256_digest(y)
}

/// What two transactions without their signatures have in common exactly if
/// they are the same: the outputs, the number of spends, and of each spend
/// the note and the hash it holds.
pub proof fn lemma_unsigned_equal(a: TransactionView, b: TransactionView)
    ensures
        a.unsigned() == b.unsigned() <==> {
            &&& a.outputs == b.outputs
            &&& a.spends.len() == b.spends.len()
            &&& forall|k: int|
                0 <= k < a.spends.len() ==> (#[trigger] a.spends[k]).note == b.spends[k].note
                    && a.spends[k].seeds.message_hash == b.spends[k].seeds.message_hash
        },
{
    if a.unsigned() == b.unsigned() {
        assert(a.unsigned().spends.len() == b.unsigned().spends.len());
        assert forall|k: int| 0 <= k < a.spends.len() implies (#[trigger] a.spends[k]).note
            == b.spends[k].note && a.spends[k].seeds.message_hash
            == b.spends[k].seeds.message_hash by {
            assert(a.unsigned().spends[k] == b.unsigned().spends[k]);
        }
    }
    if a.outputs == b.outputs && a.spends.len() == b.spends.len() && (forall|k: int|
        0 <= k < a.spends.len() ==> (#[trigger] a.spends[k]).note == b.spends[k].note
            && a.spends[k].seeds.message_hash == b.spends[k].seeds.message_hash) {
        assert(a.unsigned().spends =~= b.unsigned().spends);
    }
}

/// The signing payload tells the spend index and the transaction without
/// its signatures, and nothing else: two payloads are the same text exactly
/// if the indices are the same and the transactions differ in their
/// signatures at most.
pub proof fn lemma_signing_payload_injective(
    i: nat,
    a: TransactionView,
    j: nat,
    b: TransactionView,
)
    ensures
        signing_payload(i, a) == signing_payload(j, b) <==> i == j && a.unsigned() == b.unsigned(),
{
    if signing_payload(i, a) == signing_payload(j, b) {
        lemma_payload_json_injective(i, a.unsigned(), j, b.unsigned());
    }
}

/// The signing hash changes with the spend index and with anything in the
/// transaction but its signatures: a note, an output, the number of spends or
/// of outputs, their order, a hash that a spend holds. Two signing hashes can
/// only agree where index and unsigned transaction agree, or where SHA-256
/// gives the two payloads, different messages, the same digest.
pub proof fn lemma_signing_hash_changes_with_skeleton(
    i: nat,
    a: TransactionView,
    j: nat,
    b: TransactionView,
)
    ensures
        signing_hash(i, a) == signing_hash(j, b) ==> (i == j && a.unsigned() == b.unsigned())
            || sha256_collision(
            encode_utf8(signing_payload(i, a)),
            encode_utf8(signing_payload(j, b)),
        ),
        i == j && a.unsigned() == b.unsigned() ==> signing_hash(i, a) == signing_hash(j, b),
{
    lemma_signing_hash_equal_iff_digest_equal(i, a, j, b);
    lemma_signing_payload_injective(i, a, j, b);
}

/// The signing hash depends on the transaction only through what is left of
/// it once every signature is taken out.
pub proof fn lemma_signing_hash_ignores_signatures(i: nat, a: TransactionView, b: TransactionView)
    requires
        a.unsigned() == b.unsigned(),
    ensures
        signing_hash(i, a) == signing_hash(i, b),
{
}

impl Transaction {
    /// A copy of this transaction without any signature. The hash that each
    /// spend holds stays.
    pub fn unsigned(&self) -> (copy: Transaction)
        ensures
            copy@ == self@.unsigned(),
    {
        let n: usize = self.spends.len();
        let mut spends: Vec<Spend> = Vec::new();
        let mut i: usize = 0;
        while i < n
            invariant
                n == self.spends.len(),
                i <= n,
                spends@.len() == i,
                forall|j: int| 0 <= j < i ==> spends@[j]@ == self@.spends[j].unsigned(),
            decreases n - i,
        {
            let spend = &self.spends[i];
            spends.push(
                Spend { note: spend.note.clone(), seeds: Seeds::new(spend.seeds.message_hash.clone()) },
            );
            i += 1;
        }
        let copy = Transaction { spends, outputs: clone_outputs(&self.outputs) };
        assert(copy@.spends =~= self@.unsigned().spends);
        copy
    }
}

/// Computes the signing hash of the spend at `spend_index` of `tx`.
///
/// The hash depends on the index and on the whole transaction but for its
/// signatures. The index need not be that of a spend of `tx`.
pub fn compute_spend_hash(spend_index: usize, tx: &Transaction) -> (hash: String)
    ensures
        hash@ == signing_hash(spend_index as nat, tx@),
        hash@.len() == 64,
{
    let skeleton = tx.unsigned();
    let payload = encode_payload(spend_index, &skeleton);
    let digest = sha256(payload.as_str().as_bytes());
    hex_encode(digest.as_slice())
}

} // verus!
