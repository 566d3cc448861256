//! What holds of the operations taken together.

use vstd::prelude::*;
use crate::api::{
    add_signature_result, build_result, built_transaction, spend_hash_result, validation_result,
};
use crate::condition::PkhConditionView;
use crate::error::{ErrorKind, TxError};
use crate::hashing::signing_hash;
use crate::note::{NoteView, OutputView};
use crate::seeds::{
    entry_keys, lemma_filter_keeps_keys_unique, lemma_submission_keeps_signers_unique,
    signed_by_other, SeedsView,
};
use crate::sequences::{
    lemma_filter_keeps_distinct, lemma_filter_members, lemma_filter_parts, lemma_filter_twice,
};
use crate::status::{has_not_signed, has_signed, status_of};
use crate::transaction::{lemma_sum_update, SpendView, TransactionView};

verus! {

/// Validation of a lock succeeds exactly if the threshold is at least one and
/// at most the number of keys and no key is named twice. A zero threshold
/// fails as an invalid threshold; a threshold above the number of keys as
/// exceeding the keys; and a repeated key, where the threshold is in range, as
/// a duplicate key.
pub proof fn lemma_lock_validation(c: PkhConditionView)
    ensures
        c.check() is Ok <==> 1 <= c.threshold <= c.pubkeys.len() && c.pubkeys.no_duplicates(),
        c.threshold == 0 ==> c.check() == Err::<(), TxError>(
            TxError { kind: ErrorKind::InvalidThreshold, spend_index: None },
        ),
        c.threshold > c.pubkeys.len() ==> c.check() == Err::<(), TxError>(
            TxError { kind: ErrorKind::ThresholdExceedsKeys, spend_index: None },
        ),
        1 <= c.threshold <= c.pubkeys.len() && !c.pubkeys.no_duplicates() ==> c.check() == Err::<
            (),
            TxError,
        >(TxError { kind: ErrorKind::DuplicatePublicKey, spend_index: None }),
{
}

/// A transaction that building accepts balances, holds one spend for each
/// note, in the notes' order and without signatures, and holds the outputs
/// as given.
pub proof fn lemma_built_transaction_balances(notes: Seq<NoteView>, outputs: Seq<OutputView>)
    requires
        build_result(notes, outputs) is Ok,
    ensures
        build_result(notes, outputs)->Ok_0.balanced(),
        build_result(notes, outputs)->Ok_0 == built_transaction(notes, outputs),
        built_transaction(notes, outputs).spends.len() == notes.len(),
        built_transaction(notes, outputs).outputs == outputs,
        forall|i: int|
            0 <= i < notes.len() ==> {
                &&& (#[trigger] built_transaction(notes, outputs).spends[i]).note == notes[i]
                &&& built_transaction(notes, outputs).spends[i].seeds.signatures.len() == 0
            },
{
}

/// The transaction `tx` with the value of the note of the spend at `i` set
/// to `value`.
pub open spec fn with_spend_value(tx: TransactionView, i: int, value: nat) -> TransactionView
    recommends
        0 <= i < tx.spends.len(),
{
    let spend = tx.spends[i];
    TransactionView {
        spends: tx.spends.update(
            i,
            SpendView {
                note: NoteView { name: spend.note.name, value, lock: spend.note.lock },
                seeds: spend.seeds,
            },
        ),
        outputs: tx.outputs,
    }
}

/// The transaction `tx` with the value of the output at `i` set to `value`.
pub open spec fn with_output_value(tx: TransactionView, i: int, value: nat) -> TransactionView
    recommends
        0 <= i < tx.outputs.len(),
{
    let output = tx.outputs[i];
    TransactionView {
        spends: tx.spends,
        outputs: tx.outputs.update(
            i,
            OutputView { recipient: output.recipient, value, lock: output.lock },
        ),
    }
}

/// In a transaction that balances, giving one spent note another value makes
/// the balance check fail.
pub proof fn lemma_changed_spend_value_unbalances(tx: TransactionView, i: int, value: nat)
    requires
        tx.balanced(),
        0 <= i < tx.spends.len(),
        value != tx.spends[i].note.value,
    ensures
        with_spend_value(tx, i, value).balance_check() == Err::<(), TxError>(
            TxError { kind: ErrorKind::BalanceMismatch, spend_index: None },
        ),
{
    let changed = with_spend_value(tx, i, value);
    assert(changed.spend_values() =~= tx.spend_values().update(i, value));
    lemma_sum_update(tx.spend_values(), i, value);
}

/// In a transaction that balances, giving one output another value makes the
/// balance check fail.
pub proof fn lemma_changed_output_value_unbalances(tx: TransactionView, i: int, value: nat)
    requires
        tx.balanced(),
        0 <= i < tx.outputs.len(),
        value != tx.outputs[i].value,
    ensures
        with_output_value(tx, i, value).balance_check() == Err::<(), TxError>(
            TxError { kind: ErrorKind::BalanceMismatch, spend_index: None },
        ),
{
    let changed = with_output_value(tx, i, value);
    assert(changed.output_values() =~= tx.output_values().update(i, value));
    lemma_sum_update(tx.output_values(), i, value);
}

/// A signature that a caller submits: for which spend, by which key, and the
/// signature itself.
pub struct Submission {
    pub spend_index: nat,
    pub key: Seq<char>,
    pub signature: Seq<char>,
}

/// The transaction that a caller holds after one submission: the changed
/// transaction where the submission succeeds, the same as before where it
/// fails.
pub open spec fn after_submission(tx: TransactionView, s: Submission) -> TransactionView {
    match add_signature_result(tx, s.spend_index, s.key, s.signature) {
        Ok(next) => next,
        Err(_) => tx,
    }
}

/// The transaction that a caller holds after a series of submissions.
pub open spec fn after_submissions(tx: TransactionView, series: Seq<Submission>) -> TransactionView
    decreases series.len(),
{
    if series.len() == 0 {
        tx
    } else {
        after_submission(after_submissions(tx, series.drop_last()), series.last())
    }
}

/// A submission changes nothing but the signatures of one spend: the
/// transaction without its signatures stays what it was.
pub proof fn lemma_submission_keeps_skeleton(tx: TransactionView, s: Submission)
    ensures
        after_submission(tx, s).unsigned() == tx.unsigned(),
        after_submission(tx, s).spends.len() == tx.spends.len(),
{
    let next = after_submission(tx, s);
    assert(next.unsigned().spends =~= tx.unsigned().spends);
}

/// Whatever signatures are submitted, in whatever order, the hash fetched
/// for a spend is the one fetched before, an index out of bounds stays out
/// of bounds, and the signing hash computed from the transaction is the one
/// computed before.
pub proof fn lemma_signing_keeps_hashes(tx: TransactionView, series: Seq<Submission>, j: nat)
    ensures
        spend_hash_result(after_submissions(tx, series), j) == spend_hash_result(tx, j),
        signing_hash(j, after_submissions(tx, series)) == signing_hash(j, tx),
        after_submissions(tx, series).unsigned() == tx.unsigned(),
    decreases series.len(),
{
    if series.len() > 0 {
        let earlier = after_submissions(tx, series.drop_last());
        lemma_signing_keeps_hashes(tx, series.drop_last(), j);
        lemma_submission_keeps_skeleton(earlier, series.last());
        let here = after_submission(earlier, series.last());
        if j < tx.spends.len() {
            assert(earlier.unsigned().spends[j as int] == tx.unsigned().spends[j as int]);
            assert(here.unsigned().spends[j as int] == earlier.unsigned().spends[j as int]);
        }
    }
}

/// After a key has submitted a signature, the record holds exactly one entry
/// of that key: the last one, with the signature just submitted. Every other
/// entry is an earlier entry of another key.
pub proof fn lemma_submission_leaves_one_entry(seeds: SeedsView, key: Seq<char>, signature: Seq<char>)
    ensures
        seeds.add_signature(key, signature).signatures.last() == (key, signature),
        forall|i: int|
            0 <= i < seeds.add_signature(key, signature).signatures.len() ==> (
            #[trigger] seeds.add_signature(key, signature).signatures[i].0 == key <==> i
                == seeds.add_signature(key, signature).signatures.len() - 1),
        seeds.add_signature(key, signature).has_signature(key),
        seeds.add_signature(key, signature).message_hash == seeds.message_hash,
{
    let kept = seeds.signatures.filter(signed_by_other(key));
    let after = seeds.add_signature(key, signature);
    assert forall|i: int| 0 <= i < after.signatures.len() implies (#[trigger] after.signatures[i].0
        == key <==> i == after.signatures.len() - 1) by {
        if i < kept.len() {
            seeds.signatures.lemma_filter_pred(signed_by_other(key), i);
            assert(after.signatures[i] == kept[i]);
        }
    }
    assert(after.signers()[after.signatures.len() - 1] == key);
}

/// Two signatures submitted for the same key, one after the other, leave
/// what the second alone would have left: one entry for the key, holding the
/// second signature.
pub proof fn lemma_resubmission_replaces(
    seeds: SeedsView,
    key: Seq<char>,
    first: Seq<char>,
    second: Seq<char>,
)
    ensures
        seeds.add_signature(key, first).add_signature(key, second) == seeds.add_signature(
            key,
            second,
        ),
{
    let keep = signed_by_other(key);
    let kept = seeds.signatures.filter(keep);
    kept.lemma_filter_push((key, first), keep);
    lemma_filter_twice(seeds.signatures, keep);
}

/// The same of the operation on a transaction: where a key submits two
/// signatures for a spend in a row, the transaction is the one that the
/// second submission alone would have given.
pub proof fn lemma_resubmission_replaces_in_transaction(
    tx: TransactionView,
    spend_index: nat,
    key: Seq<char>,
    first: Seq<char>,
    second: Seq<char>,
)
    requires
        add_signature_result(tx, spend_index, key, first) is Ok,
    ensures
        add_signature_result(
            add_signature_result(tx, spend_index, key, first)->Ok_0,
            spend_index,
            key,
            second,
        ) == add_signature_result(tx, spend_index, key, second),
{
    let once = add_signature_result(tx, spend_index, key, first)->Ok_0;
    let twice = add_signature_result(once, spend_index, key, second)->Ok_0;
    let direct = add_signature_result(tx, spend_index, key, second)->Ok_0;
    lemma_resubmission_replaces(tx.spends[spend_index as int].seeds, key, first, second);
    assert(twice.spends =~= direct.spends);
}

/// In every spend, no key has two entries, and every key that has signed is
/// a key of the spend's lock.
pub open spec fn signatures_orderly(tx: TransactionView) -> bool {
    forall|i: int|
        0 <= i < tx.spends.len() ==> {
            &&& (#[trigger] tx.spends[i]).seeds.unique_signers()
            &&& tx.spends[i].signers_permitted()
        }
}

/// A submission keeps the signatures orderly: it lets no key sign that the
/// lock does not name, and it leaves no key with two entries.
pub proof fn lemma_submission_keeps_signatures_orderly(tx: TransactionView, s: Submission)
    requires
        signatures_orderly(tx),
    ensures
        signatures_orderly(after_submission(tx, s)),
{
    let next = after_submission(tx, s);
    if add_signature_result(tx, s.spend_index, s.key, s.signature) is Ok {
        let at = s.spend_index as int;
        let before = tx.spends[at];
        let after = next.spends[at];
        let keep = signed_by_other(s.key);
        let kept = before.seeds.signatures.filter(keep);
        assert(before.seeds.unique_signers());
        assert(before.signers_permitted());
        lemma_submission_keeps_signers_unique(before.seeds, s.key, s.signature);
        lemma_filter_keeps_keys_unique(before.seeds.signatures, keep);
        assert forall|k: int| 0 <= k < after.seeds.signers().len() implies after.note.lock.pkh.permits(
            #[trigger] after.seeds.signers()[k],
        ) by {
            if k < kept.len() {
                assert(entry_keys(before.seeds.signatures).contains(kept[k].0));
                let m = choose|m: int|
                    0 <= m < entry_keys(before.seeds.signatures).len() && entry_keys(
                        before.seeds.signatures,
                    )[m] == kept[k].0;
                assert(before.seeds.signers()[m] == kept[k].0);
            }
        }
        assert forall|i: int| 0 <= i < next.spends.len() implies {
            &&& (#[trigger] next.spends[i]).seeds.unique_signers()
            &&& next.spends[i].signers_permitted()
        } by {
            if i != at {
                assert(next.spends[i] == tx.spends[i]);
            }
        }
    }
}

/// Where a spend's lock is valid and only keys of the lock have signed, the
/// status counts as signed exactly the keys that have signed, and the
/// spend's status is complete exactly if the spend is authorized.
pub proof fn lemma_complete_iff_authorized(tx: TransactionView, spend_index: nat)
    requires
        spend_index < tx.spends.len(),
        tx.spends[spend_index as int].note.lock.pkh.valid(),
        tx.spends[spend_index as int].signers_permitted(),
    ensures
        status_of(tx, spend_index).signed.len() == tx.spends[spend_index as int].seeds.signer_count(),
        status_of(tx, spend_index).complete <==> tx.spends[spend_index as int].authorized(),
{
    let spend = tx.spends[spend_index as int];
    let keys = spend.note.lock.pkh.pubkeys;
    let signers = spend.seeds.signers();
    let signed = keys.filter(has_signed(spend.seeds));
    lemma_filter_members(keys, has_signed(spend.seeds));
    lemma_filter_keeps_distinct(keys, has_signed(spend.seeds));
    assert(signed.to_set() =~= signers.to_set()) by {
        assert forall|key: Seq<char>| signers.contains(key) implies signed.contains(key) by {
            let k = choose|k: int| 0 <= k < signers.len() && signers[k] == key;
            assert(spend.note.lock.pkh.permits(signers[k]));
        }
    }
    signed.unique_seq_to_set();
}

/// A series of submissions leaves the notes, the outputs and the number of
/// spends as they were, and keeps orderly signatures orderly.
pub proof fn lemma_signing_keeps_notes_and_outputs(tx: TransactionView, series: Seq<Submission>)
    ensures
        after_submissions(tx, series).outputs == tx.outputs,
        after_submissions(tx, series).spends.len() == tx.spends.len(),
        forall|i: int|
            0 <= i < tx.spends.len() ==> (#[trigger] after_submissions(tx, series).spends[i]).note
                == tx.spends[i].note,
        signatures_orderly(tx) ==> signatures_orderly(after_submissions(tx, series)),
    decreases series.len(),
{
    if series.len() > 0 {
        let earlier = after_submissions(tx, series.drop_last());
        lemma_signing_keeps_notes_and_outputs(tx, series.drop_last());
        if signatures_orderly(tx) {
            lemma_submission_keeps_signatures_orderly(earlier, series.last());
        }
    }
}

/// Of a transaction that was built and has since only received signatures:
/// it is ready for broadcast exactly if the status of every spend is
/// complete, and where it is not ready, validation fails for want of
/// signatures, at the first spend whose status is not complete.
pub proof fn lemma_built_and_signed_is_ready_iff_complete(
    notes: Seq<NoteView>,
    outputs: Seq<OutputView>,
    series: Seq<Submission>,
)
    requires
        notes.len() <= usize::MAX,
        build_result(notes, outputs) is Ok,
    ensures
        ({
            let tx = after_submissions(build_result(notes, outputs)->Ok_0, series);
            &&& validation_result(tx) is Ok <==> forall|i: int|
                0 <= i < tx.spends.len() ==> #[trigger] status_of(tx, i as nat).complete
            &&& validation_result(tx) matches Err(e) ==> {
                &&& e.kind == ErrorKind::InsufficientSignatures
                &&& e.spend_index matches Some(at)
                &&& at < tx.spends.len()
                &&& !status_of(tx, at as nat).complete
                &&& forall|i: int| 0 <= i < at ==> #[trigger] status_of(tx, i as nat).complete
            }
        }),
{
    let built = build_result(notes, outputs)->Ok_0;
    let tx = after_submissions(built, series);
    assert(signatures_orderly(built)) by {
        assert forall|i: int| 0 <= i < built.spends.len() implies {
            &&& (#[trigger] built.spends[i]).seeds.unique_signers()
            &&& built.spends[i].signers_permitted()
        } by {
            assert(built.spends[i].seeds.signers().len() == 0);
        }
    }
    lemma_signing_keeps_notes_and_outputs(built, series);
    assert(tx.spend_values() =~= built.spend_values());
    assert(tx.output_values() =~= built.output_values());
    assert(tx.balanced());
    assert forall|i: int| 0 <= i < tx.spends.len() implies (#[trigger] status_of(
        tx,
        i as nat,
    ).complete <==> tx.spends[i].authorized()) && tx.spends[i].note.lock.pkh.valid()
        && tx.spends[i].signers_permitted() by {
        assert(tx.spends[i].note == built.spends[i].note);
        assert(notes[i].lock.pkh.valid());
        lemma_complete_iff_authorized(tx, i as nat);
    }
    if tx.fully_signed() {
        assert forall|i: int| 0 <= i < tx.spends.len() implies #[trigger] status_of(
            tx,
            i as nat,
        ).complete by {
            assert(tx.spends[i].authorized());
        }
    } else {
        let at = choose|i: int| 0 <= i < tx.spends.len() && !(#[trigger] tx.spends[i]).authorized();
        lemma_least_unauthorized(tx, at);
        let first = choose|i: int| tx.first_unauthorized(i);
        assert(!status_of(tx, first as nat).complete);
        assert forall|i: int| 0 <= i < first implies #[trigger] status_of(tx, i as nat).complete by {
            assert(tx.spends[i].authorized());
        }
        let spend = tx.spends[first];
        assert(spend.note.lock.pkh.valid() && spend.signers_permitted());
        assert(spend.seeds.signer_count() < spend.note.lock.pkh.threshold);
        assert(tx.signatures_check() == spend.check(first as usize));
        assert(spend.check(first as usize) == Err::<(), TxError>(
            TxError { kind: ErrorKind::InsufficientSignatures, spend_index: Some(first as usize) },
        ));
    }
}

/// Where some spend is not authorized, there is a first such spend.
pub proof fn lemma_least_unauthorized(tx: TransactionView, at: int)
    requires
        0 <= at < tx.spends.len(),
        !tx.spends[at].authorized(),
    ensures
        exists|i: int| tx.first_unauthorized(i),
    decreases at,
{
    if forall|j: int| 0 <= j < at ==> (#[trigger] tx.spends[j]).authorized() {
        assert(tx.first_unauthorized(at));
    } else {
        let j = choose|j: int| 0 <= j < at && !(#[trigger] tx.spends[j]).authorized();
        lemma_least_unauthorized(tx, j);
    }
}

/// The signed and the pending keys of a status part the keys of the lock:
/// a key of the lock is in exactly one of the two, each of the two holds keys
/// of the lock only, and together they hold as many keys as the lock. The
/// spend is complete exactly if as many keys have signed as the threshold
/// asks for.
pub proof fn lemma_status_parts_keys(tx: TransactionView, spend_index: nat)
    requires
        spend_index < tx.spends.len(),
    ensures
        status_of(tx, spend_index).complete <==> status_of(tx, spend_index).signed.len()
            >= status_of(tx, spend_index).threshold,
        status_of(tx, spend_index).threshold == tx.spends[spend_index as int].note.lock.pkh.threshold,
        status_of(tx, spend_index).signed.to_set().union(
            status_of(tx, spend_index).pending.to_set(),
        ) == tx.spends[spend_index as int].note.lock.pkh.pubkeys.to_set(),
        status_of(tx, spend_index).signed.to_set().disjoint(
            status_of(tx, spend_index).pending.to_set(),
        ),
        status_of(tx, spend_index).signed.len() + status_of(tx, spend_index).pending.len()
            == tx.spends[spend_index as int].note.lock.pkh.pubkeys.len(),
        forall|key: Seq<char>| #[trigger]
            status_of(tx, spend_index).signed.contains(key) <==> tx.spends[spend_index as int].note.lock.pkh.permits(
                key,
            ) && tx.spends[spend_index as int].seeds.has_signature(key),
        forall|key: Seq<char>| #[trigger]
            status_of(tx, spend_index).pending.contains(key) <==> tx.spends[spend_index as int].note.lock.pkh.permits(
                key,
            ) && !tx.spends[spend_index as int].seeds.has_signature(key),
{
    let spend = tx.spends[spend_index as int];
    let keys = spend.note.lock.pkh.pubkeys;
    let yes = has_signed(spend.seeds);
    let no = has_not_signed(spend.seeds);
    let signed = keys.filter(yes);
    let pending = keys.filter(no);
    lemma_filter_members(keys, yes);
    lemma_filter_members(keys, no);
    lemma_filter_parts(keys, yes, no);
    assert(signed.to_set().union(pending.to_set()) =~= keys.to_set());
    assert(signed.to_set().disjoint(pending.to_set()));
}

} // verus!
