//! The five operations that a wallet drives a transaction with: build it,
//! fetch the hash to sign, submit a signature, fetch the signing status, and
//! validate it for broadcast.
//!
//! Every operation is a function of its arguments alone. One that changes a
//! transaction takes it by value and hands the changed one back.

use vstd::prelude::*;
use crate::error::{ErrorKind, TxError};
use crate::hashing::{compute_spend_hash, signing_hash};
use crate::keys::{contains_key, PublicKey, Signature};
use crate::note::{notes_view, outputs_view, Note, NoteView, Output, OutputView};
use crate::seeds::{Seeds, SeedsView};
use crate::status::{signing_status, status_of, SigningStatus, SigningStatusView};
use crate::transaction::{Spend, SpendView, Transaction, TransactionView};

verus! {

/// The spend that building makes of `note` at position `index`: no signature
/// yet, and as its hash the signing hash, for `index`, of the transaction
/// that holds `outputs` and no spend.
pub open spec fn built_spend(index: nat, note: NoteView, outputs: Seq<OutputView>) -> SpendView {
    SpendView {
        note,
        seeds: SeedsView {
            message_hash: signing_hash(index, TransactionView { spends: Seq::empty(), outputs }),
            signatures: Seq::empty(),
        },
    }
}

/// The transaction that building makes of `notes` and `outputs`.
pub open spec fn built_transaction(notes: Seq<NoteView>, outputs: Seq<OutputView>) -> TransactionView {
    TransactionView {
        spends: Seq::new(notes.len(), |i: int| built_spend(i as nat, notes[i], outputs)),
        outputs,
    }
}

/// Every note's lock is valid.
pub open spec fn locks_valid(notes: Seq<NoteView>) -> bool {
    forall|i: int| 0 <= i < notes.len() ==> (#[trigger] notes[i]).lock.pkh.valid()
}

/// The lock of the note at `i` is not valid, and that of every note before
/// it is.
pub open spec fn first_invalid_lock(notes: Seq<NoteView>, i: int) -> bool {
    &&& 0 <= i < notes.len()
    &&& !notes[i].lock.pkh.valid()
    &&& forall|j: int| 0 <= j < i ==> (#[trigger] notes[j]).lock.pkh.valid()
}

/// What building answers: the defect of the first lock that is not valid;
/// else a balance mismatch if the notes and the outputs differ in total
/// value; else the built transaction.
pub open spec fn build_result(notes: Seq<NoteView>, outputs: Seq<OutputView>) -> Result<
    TransactionView,
    TxError,
> {
    if !locks_valid(notes) {
        let i = choose|i: int| first_invalid_lock(notes, i);
        Err(notes[i].lock.pkh.check()->Err_0)
    } else if !built_transaction(notes, outputs).balanced() {
        Err(TxError { kind: ErrorKind::BalanceMismatch, spend_index: None })
    } else {
        Ok(built_transaction(notes, outputs))
    }
}

/// What fetching the hash answers: the hash that the spend holds.
pub open spec fn spend_hash_result(tx: TransactionView, spend_index: nat) -> Result<
    Seq<char>,
    TxError,
> {
    if spend_index >= tx.spends.len() {
        Err(TxError { kind: ErrorKind::IndexOutOfBounds, spend_index: None })
    } else {
        Ok(tx.spends[spend_index as int].seeds.message_hash)
    }
}

/// What submitting a signature answers: the transaction in which the spend
/// at `spend_index` has recorded `signature` for `key`, and nothing else has
/// changed; a failure if there is no such spend or its lock does not name
/// `key`.
pub open spec fn add_signature_result(
    tx: TransactionView,
    spend_index: nat,
    key: Seq<char>,
    signature: Seq<char>,
) -> Result<TransactionView, TxError> {
    if spend_index >= tx.spends.len() {
        Err(TxError { kind: ErrorKind::IndexOutOfBounds, spend_index: None })
    } else if !tx.spends[spend_index as int].note.lock.pkh.permits(key) {
        Err(TxError { kind: ErrorKind::UnauthorizedSigner, spend_index: None })
    } else {
        let spend = tx.spends[spend_index as int];
        Ok(
            TransactionView {
                spends: tx.spends.update(
                    spend_index as int,
                    SpendView { note: spend.note, seeds: spend.seeds.add_signature(key, signature) },
                ),
                outputs: tx.outputs,
            },
        )
    }
}

/// What fetching the status answers.
pub open spec fn signing_status_result(tx: TransactionView, spend_index: nat) -> Result<
    SigningStatusView,
    TxError,
> {
    if spend_index >= tx.spends.len() {
        Err(TxError { kind: ErrorKind::IndexOutOfBounds, spend_index: None })
    } else {
        Ok(status_of(tx, spend_index))
    }
}

/// The transaction balances and every spend is authorized.
pub open spec fn ready_for_broadcast(tx: TransactionView) -> bool {
    tx.balanced() && tx.fully_signed()
}

/// The confirmation that validation answers with.
pub open spec fn ready_text() -> Seq<char> {
    "Transaction is valid and ready for broadcast"@
}

/// What validation answers: the balance check's failure, else the signature
/// check's failure, else the confirmation.
pub open spec fn validation_result(tx: TransactionView) -> Result<Seq<char>, TxError> {
    match tx.balance_check() {
        Err(e) => Err(e),
        Ok(()) => match tx.signatures_check() {
            Err(e) => Err(e),
            Ok(()) => Ok(ready_text()),
        },
    }
}

/// At most one note is the first whose lock is not valid.
pub proof fn lemma_first_invalid_lock_unique(notes: Seq<NoteView>, i: int, j: int)
    requires
        first_invalid_lock(notes, i),
        first_invalid_lock(notes, j),
    ensures
        i == j,
{
    if i < j {
        assert(notes[i].lock.pkh.valid());
    } else if j < i {
        assert(notes[j].lock.pkh.valid());
    }
}

/// Builds the transaction that spends `notes` and creates `outputs`.
///
/// Each note becomes a spend without signatures. The hash that a spend gets
/// is computed from its index and the outputs alone, before any spend is in
/// place. Fails if a lock is not valid or the values do not balance.
pub fn build_transaction(notes: Vec<Note>, outputs: Vec<Output>) -> (r: Result<Transaction, TxError>)
    ensures
        r matches Ok(tx) ==> build_result(notes_view(notes@), outputs_view(outputs@)) == Ok::<
            TransactionView,
            TxError,
        >(tx@),
        r matches Err(e) ==> build_result(notes_view(notes@), outputs_view(outputs@)) == Err::<
            TransactionView,
            TxError,
        >(e),
        r matches Ok(tx) ==> tx@.balanced(),
{
    let ghost given = notes_view(notes@);
    let ghost created = outputs_view(outputs@);
    let mut tx = Transaction { spends: Vec::new(), outputs };
    let mut spends: Vec<Spend> = Vec::new();
    assert(tx@.spends =~= Seq::empty());
    for note in it: notes
        invariant
            notes_view(it.seq()) == given,
            tx@ == (TransactionView { spends: Seq::empty(), outputs: created }),
            spends@.len() == it.index(),
            forall|j: int| 0 <= j < it.index() ==> (#[trigger] given[j]).lock.pkh.valid(),
            forall|j: int|
                0 <= j < it.index() ==> (#[trigger] spends@[j])@ == built_spend(
                    j as nat,
                    given[j],
                    created,
                ),
    {
        let i: usize = spends.len();
        assert(given[i as int] == note@);
        match note.lock.pkh.validate() {
            Err(e) => {
                proof {
                    assert(first_invalid_lock(given, i as int));
                    let k = choose|k: int| first_invalid_lock(given, k);
                    lemma_first_invalid_lock_unique(given, i as int, k);
                }
                return Err(e);
            },
            Ok(()) => {},
        }
        let hash = compute_spend_hash(i, &tx);
        spends.push(Spend { note, seeds: Seeds::new(hash) });
    }
    tx.spends = spends;
    assert(tx@ =~= built_transaction(given, created)) by {
        assert(tx@.spends =~= built_transaction(given, created).spends);
    }
    assert(locks_valid(given));
    match tx.validate_balance() {
        Err(e) => Err(e),
        Ok(()) => Ok(tx),
    }
}

/// Fetches the hash that the signers of the spend at `spend_index` sign: the
/// one the spend has held since it was built.
pub fn get_spend_hash(tx: &Transaction, spend_index: usize) -> (r: Result<String, TxError>)
    ensures
        r matches Ok(hash) ==> spend_hash_result(tx@, spend_index as nat) == Ok::<
            Seq<char>,
            TxError,
        >(hash@),
        r matches Err(e) ==> spend_hash_result(tx@, spend_index as nat) == Err::<Seq<char>, TxError>(
            e,
        ),
        spend_index >= tx.spends.len() <==> r is Err,
        r matches Err(e) ==> e == (TxError { kind: ErrorKind::IndexOutOfBounds, spend_index: None }),
{
    if spend_index >= tx.spends.len() {
        return Err(TxError::new(ErrorKind::IndexOutOfBounds));
    }
    Ok(tx.spends[spend_index].seeds.message_hash.clone())
}

/// Submits `signature` by `pubkey` for the spend at `spend_index`. A later
/// signature by the same key takes the place of an earlier one.
pub fn add_signature(tx: Transaction, spend_index: usize, pubkey: &str, signature: &str) -> (r:
    Result<Transaction, TxError>)
    ensures
        r matches Ok(signed) ==> add_signature_result(
            tx@,
            spend_index as nat,
            pubkey@,
            signature@,
        ) == Ok::<TransactionView, TxError>(signed@),
        r matches Err(e) ==> add_signature_result(tx@, spend_index as nat, pubkey@, signature@)
            == Err::<TransactionView, TxError>(e),
        spend_index >= tx.spends.len() ==> r == Err::<Transaction, TxError>(
            TxError { kind: ErrorKind::IndexOutOfBounds, spend_index: None },
        ),
{
    let mut tx = tx;
    let ghost before = tx@;
    if spend_index >= tx.spends.len() {
        return Err(TxError::new(ErrorKind::IndexOutOfBounds));
    }
    let key = PublicKey(pubkey.to_owned());
    if !contains_key(&tx.spends[spend_index].note.lock.pkh.pubkeys, &key) {
        return Err(TxError::new(ErrorKind::UnauthorizedSigner));
    }
    tx.spends[spend_index].seeds.add_signature(key, Signature(signature.to_owned()));
    assert(tx@.spends =~= add_signature_result(
        before,
        spend_index as nat,
        pubkey@,
        signature@,
    )->Ok_0.spends);
    Ok(tx)
}

/// Fetches the signing status of the spend at `spend_index`.
pub fn get_spend_signing_status(tx: &Transaction, spend_index: usize) -> (r: Result<
    SigningStatus,
    TxError,
>)
    ensures
        r matches Ok(status) ==> signing_status_result(tx@, spend_index as nat) == Ok::<
            SigningStatusView,
            TxError,
        >(status@),
        r matches Err(e) ==> signing_status_result(tx@, spend_index as nat) == Err::<
            SigningStatusView,
            TxError,
        >(e),
        spend_index >= tx.spends.len() <==> r is Err,
        r matches Err(e) ==> e == (TxError { kind: ErrorKind::IndexOutOfBounds, spend_index: None }),
{
    if spend_index >= tx.spends.len() {
        return Err(TxError::new(ErrorKind::IndexOutOfBounds));
    }
    Ok(signing_status(spend_index, tx))
}

/// Validates `tx` for broadcast: first the balance, then the signatures of
/// each spend in order. Answers with a confirmation, or with the first
/// failure met.
pub fn validate_transaction(tx: &Transaction) -> (r: Result<String, TxError>)
    ensures
        r matches Ok(text) ==> validation_result(tx@) == Ok::<Seq<char>, TxError>(text@),
        r matches Err(e) ==> validation_result(tx@) == Err::<Seq<char>, TxError>(e),
        r is Ok <==> ready_for_broadcast(tx@),
{
    match tx.validate_balance() {
        Err(e) => {
            return Err(e);
        },
        Ok(()) => {},
    }
    match tx.validate_signatures() {
        Err(e) => {
            return Err(e);
        },
        Ok(()) => {},
    }
    Ok("Transaction is valid and ready for broadcast".to_owned())
}

} // verus!
