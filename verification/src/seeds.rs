//! The signatures that a spend has collected so far.

use vstd::prelude::*;
use crate::keys::{PublicKey, Signature};

verus! {

/// The hash that signers of a spend sign, and the signatures collected for
/// it, in the order in which the keys last signed.
///
/// A record made by `new` and changed by `add_signature` holds one entry for
/// each key. One that a caller puts together may hold a key more than once;
/// such a key counts as one signer.
#[derive(Debug, PartialEq, Eq)]
pub struct Seeds {
    pub message_hash: String,
    pub signatures: Vec<(PublicKey, Signature)>,
}

/// A signing record as mathematics. A signature entry is the pair of the
/// signer's key and the signature.
pub struct SeedsView {
    pub message_hash: Seq<char>,
    pub signatures: Seq<(Seq<char>, Seq<char>)>,
}

/// The entries of a list, each as a pair of strings.
pub open spec fn entries_view(entries: Seq<(PublicKey, Signature)>) -> Seq<(Seq<char>, Seq<char>)> {
    Seq::new(entries.len(), |i: int| (entries[i].0@, entries[i].1@))
}

/// The test that an entry was signed by another key than `key`.
pub open spec fn signed_by_other(key: Seq<char>) -> spec_fn((Seq<char>, Seq<char>)) -> bool {
    |entry: (Seq<char>, Seq<char>)| entry.0 != key
}

impl SeedsView {
    /// The keys that have signed, in the order of their entries.
    pub open spec fn signers(self) -> Seq<Seq<char>> {
        Seq::new(self.signatures.len(), |i: int| self.signatures[i].0)
    }

    /// Whether `key` has an entry.
    pub open spec fn has_signature(self, key: Seq<char>) -> bool {
        self.signers().contains(key)
    }

    /// The number of keys that have signed. A key with several entries
    /// counts once.
    pub open spec fn signer_count(self) -> nat {
        self.signers().to_set().len()
    }

    /// No key has two entries.
    pub open spec fn unique_signers(self) -> bool {
        self.signers().no_duplicates()
    }

    /// The record after `key` has submitted `signature`: every earlier entry
    /// of `key` is gone, the other entries keep their order, and the new entry
    /// stands last.
    pub open spec fn add_signature(self, key: Seq<char>, signature: Seq<char>) -> SeedsView {
        SeedsView {
            message_hash: self.message_hash,
            signatures: self.signatures.filter(signed_by_other(key)).push((key, signature)),
        }
    }

    /// The record without its signatures.
    pub open spec fn unsigned(self) -> SeedsView {
        SeedsView { message_hash: self.message_hash, signatures: Seq::empty() }
    }
}

/// A record in which no key has two entries stays so when a signature is
/// submitted.
pub proof fn lemma_submission_keeps_signers_unique(
    seeds: SeedsView,
    key: Seq<char>,
    signature: Seq<char>,
)
    requires
        seeds.unique_signers(),
    ensures
        seeds.add_signature(key, signature).unique_signers(),
{
    let keep = signed_by_other(key);
    let kept = seeds.signatures.filter(keep);
    let after = seeds.add_signature(key, signature);
    lemma_filter_keeps_keys_unique(seeds.signatures, keep);
    assert forall|a: int, b: int|
        0 <= a < after.signers().len() && 0 <= b < after.signers().len() && a != b implies after.signers()[a]
        != after.signers()[b] by {
        let last = after.signatures.len() - 1;
        if a < last {
            seeds.signatures.lemma_filter_pred(keep, a);
        }
        if b < last {
            seeds.signatures.lemma_filter_pred(keep, b);
        }
        if a < last && b < last {
            assert(entry_keys(kept)[a] != entry_keys(kept)[b]);
        }
    }
}

/// The keys of a sequence of entries.
pub open spec fn entry_keys(entries: Seq<(Seq<char>, Seq<char>)>) -> Seq<Seq<char>> {
    Seq::new(entries.len(), |i: int| entries[i].0)
}

/// Filtering entries whose keys are distinct leaves entries whose keys are
/// distinct.
pub proof fn lemma_filter_keeps_keys_unique(
    entries: Seq<(Seq<char>, Seq<char>)>,
    keep: spec_fn((Seq<char>, Seq<char>)) -> bool,
)
    requires
        entry_keys(entries).no_duplicates(),
    ensures
        entry_keys(entries.filter(keep)).no_duplicates(),
        forall|i: int|
            0 <= i < entries.filter(keep).len() ==> entry_keys(entries).contains(
                #[trigger] entries.filter(keep)[i].0,
            ),
    decreases entries.len(),
{
    reveal(Seq::filter);
    if entries.len() > 0 {
        let rest = entries.drop_last();
        let last = entries.last();
        assert(entry_keys(rest) =~= entry_keys(entries).drop_last());
        assert(entry_keys(rest).no_duplicates()) by {
            assert forall|a: int, b: int|
                0 <= a < entry_keys(rest).len() && 0 <= b < entry_keys(rest).len() && a
                    != b implies entry_keys(rest)[a] != entry_keys(rest)[b] by {
                assert(entry_keys(entries)[a] != entry_keys(entries)[b]);
            }
        }
        lemma_filter_keeps_keys_unique(rest, keep);
        let kept = rest.filter(keep);
        assert forall|i: int| 0 <= i < entries.filter(keep).len() implies entry_keys(
            entries,
        ).contains(#[trigger] entries.filter(keep)[i].0) by {
            if i < kept.len() {
                let k = choose|k: int|
                    0 <= k < entry_keys(rest).len() && entry_keys(rest)[k] == kept[i].0;
                assert(entry_keys(entries)[k] == kept[i].0);
            } else {
                assert(entry_keys(entries)[entries.len() - 1] == last.0);
            }
        }
        if keep(last) {
            let all = kept.push(last);
            assert forall|a: int, b: int|
                0 <= a < entry_keys(all).len() && 0 <= b < entry_keys(all).len() && a
                    != b implies entry_keys(all)[a] != entry_keys(all)[b] by {
                if a < kept.len() && b < kept.len() {
                    assert(entry_keys(kept)[a] != entry_keys(kept)[b]);
                } else {
                    let inner = if a < kept.len() {
                        a
                    } else {
                        b
                    };
                    let k = choose|k: int|
                        0 <= k < entry_keys(rest).len() && entry_keys(rest)[k] == kept[inner].0;
                    assert(entry_keys(entries)[k] != entry_keys(entries)[entries.len() - 1]);
                }
            }
        }
    }
}

/// One more entry adds one to the number of keys if its key has no earlier
/// entry, and nothing if it has.
pub proof fn lemma_signer_count_next(signers: Seq<Seq<char>>, i: int)
    requires
        0 <= i < signers.len(),
    ensures
        signers.take(i + 1).to_set().len() == signers.take(i).to_set().len() + (if signers.take(
            i,
        ).contains(signers[i]) {
            0nat
        } else {
            1nat
        }),
{
    let earlier = signers.take(i);
    let now = signers.take(i + 1);
    vstd::seq_lib::seq_to_set_is_finite(earlier);
    assert(now.to_set() =~= earlier.to_set().insert(signers[i])) by {
        assert forall|key: Seq<char>| now.to_set().contains(key) implies earlier.to_set().insert(
            signers[i],
        ).contains(key) by {
            let k = choose|k: int| 0 <= k < now.len() && now[k] == key;
            if k < i {
                assert(earlier[k] == key);
            }
        }
        assert forall|key: Seq<char>| earlier.to_set().insert(signers[i]).contains(
            key,
        ) implies now.to_set().contains(key) by {
            if key == signers[i] {
                assert(now[i] == key);
            } else {
                let k = choose|k: int| 0 <= k < earlier.len() && earlier[k] == key;
                assert(now[k] == key);
            }
        }
    }
}

/// In a record in which no key has two entries, there are as many entries as
/// keys that have signed.
pub proof fn lemma_count_is_number_of_signers(seeds: SeedsView)
    requires
        seeds.unique_signers(),
    ensures
        seeds.signatures.len() == seeds.signers().to_set().len(),
{
    seeds.signers().unique_seq_to_set();
}

impl View for Seeds {
    type V = SeedsView;

    open spec fn view(&self) -> SeedsView {
        SeedsView { message_hash: self.message_hash@, signatures: entries_view(self.signatures@) }
    }
}

impl Clone for Seeds {
    fn clone(&self) -> (copy: Self)
        ensures
            copy@ == self@,
    {
        let n: usize = self.signatures.len();
        let mut signatures: Vec<(PublicKey, Signature)> = Vec::new();
        let mut i: usize = 0;
        while i < n
            invariant
                n == self.signatures.len(),
                i <= n,
                signatures@.len() == i,
                forall|j: int|
                    0 <= j < i ==> signatures@[j].0@ == self.signatures@[j].0@ && signatures@[j].1@
                        == self.signatures@[j].1@,
            decreases n - i,
        {
            signatures.push((self.signatures[i].0.clone(), self.signatures[i].1.clone()));
            i += 1;
        }
        let copy = Seeds { message_hash: self.message_hash.clone(), signatures };
        assert(copy@.signatures =~= self@.signatures);
        copy
    }
}

impl Seeds {
    /// A record for `message_hash` that holds no signature yet.
    pub fn new(message_hash: String) -> (seeds: Seeds)
        ensures
            seeds@ == (SeedsView { message_hash: message_hash@, signatures: Seq::empty() }),
            seeds@.unique_signers(),
    {
        let seeds = Seeds { message_hash, signatures: Vec::new() };
        assert(seeds@.signatures =~= Seq::empty());
        seeds
    }

    /// Records `signature` for `pubkey`, in place of any signature that the
    /// key submitted before.
    pub fn add_signature(&mut self, pubkey: PublicKey, signature: Signature)
        ensures
            final(self)@ == old(self)@.add_signature(pubkey@, signature@),
            old(self)@.unique_signers() ==> final(self)@.unique_signers(),
    {
        let mut earlier: Vec<(PublicKey, Signature)> = Vec::new();
        std::mem::swap(&mut self.signatures, &mut earlier);
        let ghost before = entries_view(earlier@);
        let ghost keep = signed_by_other(pubkey@);
        let mut kept: Vec<(PublicKey, Signature)> = Vec::new();
        assert(before.take(0) =~= Seq::empty());
        assert(entries_view(kept@) =~= before.take(0).filter(keep)) by {
            reveal(Seq::filter);
        }
        for entry in it: earlier
            invariant
                entries_view(it.seq()) == before,
                keep == signed_by_other(pubkey@),
                entries_view(kept@) == before.take(it.index() as int).filter(keep),
        {
            let ghost done = it.index() as int;
            let ghost held = entries_view(kept@);
            assert(before.take(done + 1) =~= before.take(done).push(before[done]));
            proof {
                before.take(done).lemma_filter_push(before[done], keep);
            }
            assert(before[done] == (entry.0@, entry.1@)) by {
                assert(entries_view(it.seq())[done] == (it.seq()[done].0@, it.seq()[done].1@));
            }
            assert(keep(before[done]) == (entry.0@ != pubkey@));
            if !entry.0.same_as(&pubkey) {
                kept.push(entry);
                assert(entries_view(kept@) =~= held.push(before[done]));
            }
        }
        assert(before.take(before.len() as int) =~= before);
        kept.push((pubkey, signature));
        assert(entries_view(kept@) =~= before.filter(keep).push((pubkey@, signature@)));
        self.signatures = kept;
        proof {
            if old(self)@.unique_signers() {
                lemma_submission_keeps_signers_unique(old(self)@, pubkey@, signature@);
            }
        }
    }

    /// The number of keys that have signed. A key counts once, however many
    /// entries it has; where no key has two entries, this is the number of
    /// entries.
    pub fn signature_count(&self) -> (count: usize)
        ensures
            count == self@.signer_count(),
            self@.unique_signers() ==> count == self@.signatures.len(),
    {
        let ghost signers = self@.signers();
        let n: usize = self.signatures.len();
        let mut count: usize = 0;
        let mut i: usize = 0;
        assert(signers.take(0).to_set() =~= Set::empty());
        while i < n
            invariant
                n == self.signatures.len(),
                i <= n,
                signers == self@.signers(),
                count <= i,
                count == signers.take(i as int).to_set().len(),
            decreases n - i,
        {
            let mut seen: bool = false;
            let mut j: usize = 0;
            while j < i
                invariant
                    n == self.signatures.len(),
                    i < n,
                    j <= i,
                    signers == self@.signers(),
                    seen == signers.take(j as int).contains(signers[i as int]),
                decreases i - j,
            {
                if self.signatures[j].0.same_as(&self.signatures[i].0) {
                    seen = true;
                }
                proof {
                    let before = signers.take(j as int);
                    let after = signers.take(j + 1);
                    assert(after =~= before.push(signers[j as int]));
                    if before.contains(signers[i as int]) {
                        let k = choose|k: int| 0 <= k < before.len() && before[k] == signers[i as int];
                        assert(after[k] == signers[i as int]);
                    }
                    if signers[j as int] == signers[i as int] {
                        assert(after[j as int] == signers[i as int]);
                    }
                }
                j += 1;
            }
            proof {
                lemma_signer_count_next(signers, i as int);
            }
            if !seen {
                count += 1;
            }
            i += 1;
        }
        proof {
            assert(signers.take(n as int) =~= signers);
            if self@.unique_signers() {
                lemma_count_is_number_of_signers(self@);
            }
        }
        count
    }

    /// Whether `pubkey` has signed.
    pub fn has_signature(&self, pubkey: &PublicKey) -> (found: bool)
        ensures
            found == self@.has_signature(pubkey@),
    {
        let n: usize = self.signatures.len();
        let mut i: usize = 0;
        while i < n
            invariant
                n == self.signatures.len(),
                i <= n,
                forall|j: int| 0 <= j < i ==> self@.signers()[j] != pubkey@,
            decreases n - i,
        {
            if self.signatures[i].0.same_as(pubkey) {
                assert(self@.signers()[i as int] == pubkey@);
                return true;
            }
            i += 1;
        }
        false
    }
}

} // verus!
