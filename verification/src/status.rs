//! How far the signing of a spend has come.

use vstd::prelude::*;
use crate::keys::{keys_view, PublicKey};
use crate::seeds::SeedsView;
use crate::transaction::{Transaction, TransactionView};

verus! {

/// The keys of a spend's lock, parted into those that have signed and those
/// that have not; each part in the order of the lock.
#[derive(Debug, PartialEq, Eq)]
pub struct SigningStatus {
    pub spend_index: usize,
    pub threshold: usize,
    pub signed: Vec<PublicKey>,
    pub pending: Vec<PublicKey>,
    pub complete: bool,
}

/// A signing status as mathematics.
pub struct SigningStatusView {
    pub spend_index: nat,
    pub threshold: nat,
    pub signed: Seq<Seq<char>>,
    pub pending: Seq<Seq<char>>,
    pub complete: bool,
}

impl View for SigningStatus {
    type V = SigningStatusView;

    open spec fn view(&self) -> SigningStatusView {
        SigningStatusView {
            spend_index: self.spend_index as nat,
            threshold: self.threshold as nat,
            signed: keys_view(self.signed@),
            pending: keys_view(self.pending@),
            complete: self.complete,
        }
    }
}

/// The test that a key has an entry in `seeds`.
pub open spec fn has_signed(seeds: SeedsView) -> spec_fn(Seq<char>) -> bool {
    |key: Seq<char>| seeds.has_signature(key)
}

/// The test that a key has no entry in `seeds`.
pub open spec fn has_not_signed(seeds: SeedsView) -> spec_fn(Seq<char>) -> bool {
    |key: Seq<char>| !seeds.has_signature(key)
}

/// The status of the spend at `spend_index` of `tx`. The spend is complete
/// once as many of its lock's keys have signed as the threshold asks for.
pub open spec fn status_of(tx: TransactionView, spend_index: nat) -> SigningStatusView
    recommends
        spend_index < tx.spends.len(),
{
    let spend = tx.spends[spend_index as int];
    let pkh = spend.note.lock.pkh;
    let signed = pkh.pubkeys.filter(has_signed(spend.seeds));
    SigningStatusView {
        spend_index,
        threshold: pkh.threshold,
        signed,
        pending: pkh.pubkeys.filter(has_not_signed(spend.seeds)),
        complete: signed.len() >= pkh.threshold,
    }
}

/// Derives the status of the spend at `spend_index`. Nothing is changed.
pub fn signing_status(spend_index: usize, tx: &Transaction) -> (status: SigningStatus)
    requires
        spend_index < tx.spends.len(),
    ensures
        status@ == status_of(tx@, spend_index as nat),
{
    let spend = &tx.spends[spend_index];
    let pkh = &spend.note.lock.pkh;
    let ghost keys = keys_view(pkh.pubkeys@);
    let ghost seeds = spend.seeds@;
    let n: usize = pkh.pubkeys.len();
    let mut signed: Vec<PublicKey> = Vec::new();
    let mut pending: Vec<PublicKey> = Vec::new();
    let mut i: usize = 0;
    proof {
        reveal(Seq::filter);
        assert(keys.take(0) =~= Seq::empty());
        assert(keys_view(signed@) =~= keys.take(0).filter(has_signed(seeds)));
        assert(keys_view(pending@) =~= keys.take(0).filter(has_not_signed(seeds)));
    }
    while i < n
        invariant
            n == pkh.pubkeys.len(),
            i <= n,
            keys == keys_view(pkh.pubkeys@),
            seeds == spend.seeds@,
            keys_view(signed@) == keys.take(i as int).filter(has_signed(seeds)),
            keys_view(pending@) == keys.take(i as int).filter(has_not_signed(seeds)),
        decreases n - i,
    {
        let key = &pkh.pubkeys[i];
        let ghost signed_before = keys_view(signed@);
        let ghost pending_before = keys_view(pending@);
        proof {
            assert(keys.take(i + 1) =~= keys.take(i as int).push(keys[i as int]));
            keys.take(i as int).lemma_filter_push(keys[i as int], has_signed(seeds));
            keys.take(i as int).lemma_filter_push(keys[i as int], has_not_signed(seeds));
        }
        if spend.seeds.has_signature(key) {
            signed.push(key.clone());
            assert(keys_view(signed@) =~= signed_before.push(keys[i as int]));
        } else {
            pending.push(key.clone());
            assert(keys_view(pending@) =~= pending_before.push(keys[i as int]));
        }
        i += 1;
    }
    assert(keys.take(n as int) =~= keys);
    let complete = signed.len() >= pkh.threshold;
    SigningStatus { spend_index, threshold: pkh.threshold, signed, pending, complete }
}

} // verus!
