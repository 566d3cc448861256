//! Transactions: the notes spent, the outputs created, and the two checks
//! that a transaction must pass before it may be broadcast.

use vstd::prelude::*;
use crate::error::{ErrorKind, TxError};
use crate::keys::contains_key;
use crate::note::{clone_outputs, outputs_view, Note, NoteView, Output, OutputView};
use crate::seeds::{Seeds, SeedsView};

verus! {

/// A note being spent, with the signatures collected for spending it.
#[derive(Debug, PartialEq, Eq)]
pub struct Spend {
    pub note: Note,
    pub seeds: Seeds,
}

/// Spends and outputs, each in a fixed order.
#[derive(Debug, PartialEq, Eq)]
pub struct Transaction {
    pub spends: Vec<Spend>,
    pub outputs: Vec<Output>,
}

/// A spend as mathematics.
pub struct SpendView {
    pub note: NoteView,
    pub seeds: SeedsView,
}

/// A transaction as mathematics.
pub struct TransactionView {
    pub spends: Seq<SpendView>,
    pub outputs: Seq<OutputView>,
}

/// The sum of a sequence of values.
pub open spec fn sum(values: Seq<nat>) -> nat
    decreases values.len(),
{
    if values.len() == 0 {
        0
    } else {
        sum(values.drop_last()) + values.last()
    }
}

/// Adding one more value to a prefix adds that value to the prefix's sum.
pub proof fn lemma_sum_take_next(values: Seq<nat>, i: int)
    requires
        0 <= i < values.len(),
    ensures
        sum(values.take(i + 1)) == sum(values.take(i)) + values[i],
{
    assert(values.take(i + 1).drop_last() =~= values.take(i));
}

/// Replacing one value moves the sum by the difference.
pub proof fn lemma_sum_update(values: Seq<nat>, i: int, value: nat)
    requires
        0 <= i < values.len(),
    ensures
        sum(values.update(i, value)) + values[i] == sum(values) + value,
    decreases values.len(),
{
    let changed = values.update(i, value);
    if i == values.len() - 1 {
        assert(changed.drop_last() =~= values.drop_last());
    } else {
        assert(changed.drop_last() =~= values.drop_last().update(i, value));
        lemma_sum_update(values.drop_last(), i, value);
    }
}

impl SpendView {
    /// Every key that has signed is one that the lock names.
    pub open spec fn signers_permitted(self) -> bool {
        forall|i: int|
            0 <= i < self.seeds.signers().len() ==> self.note.lock.pkh.permits(
                #[trigger] self.seeds.signers()[i],
            )
    }

    /// The lock is valid, as many keys have signed as the threshold asks
    /// for, and only keys of the lock have signed. A key that has signed
    /// twice counts once.
    pub open spec fn authorized(self) -> bool {
        &&& self.note.lock.pkh.valid()
        &&& self.seeds.signer_count() >= self.note.lock.pkh.threshold
        &&& self.signers_permitted()
    }

    /// What the check of this spend answers, as the spend at `index`: the
    /// lock's own defect first, then fewer keys that have signed than the
    /// threshold, then a signer that the lock does not name. Each failure
    /// carries `index`.
    pub open spec fn check(self, index: usize) -> Result<(), TxError> {
        match self.note.lock.pkh.check() {
            Err(e) => Err(TxError { kind: e.kind, spend_index: Some(index) }),
            Ok(()) => {
                if self.seeds.signer_count() < self.note.lock.pkh.threshold {
                    Err(TxError { kind: ErrorKind::InsufficientSignatures, spend_index: Some(index) })
                } else if !self.signers_permitted() {
                    Err(TxError { kind: ErrorKind::InvalidSigner, spend_index: Some(index) })
                } else {
                    Ok(())
                }
            },
        }
    }

    /// The spend without its signatures.
    pub open spec fn unsigned(self) -> SpendView {
        SpendView { note: self.note, seeds: self.seeds.unsigned() }
    }
}

impl TransactionView {
    /// The values of the notes spent, in order.
    pub open spec fn spend_values(self) -> Seq<nat> {
        Seq::new(self.spends.len(), |i: int| self.spends[i].note.value)
    }

    /// The values of the outputs, in order.
    pub open spec fn output_values(self) -> Seq<nat> {
        Seq::new(self.outputs.len(), |i: int| self.outputs[i].value)
    }

    /// The total value of the notes spent.
    pub open spec fn total_input(self) -> nat {
        sum(self.spend_values())
    }

    /// The total value of the outputs.
    pub open spec fn total_output(self) -> nat {
        sum(self.output_values())
    }

    /// As much value is created as is spent.
    pub open spec fn balanced(self) -> bool {
        self.total_input() == self.total_output()
    }

    /// What the balance check answers.
    pub open spec fn balance_check(self) -> Result<(), TxError> {
        if self.balanced() {
            Ok(())
        } else {
            Err(TxError { kind: ErrorKind::BalanceMismatch, spend_index: None })
        }
    }

    /// Every spend is authorized.
    pub open spec fn fully_signed(self) -> bool {
        forall|i: int| 0 <= i < self.spends.len() ==> (#[trigger] self.spends[i]).authorized()
    }

    /// The spend at `i` is not authorized, and every spend before it is.
    pub open spec fn first_unauthorized(self, i: int) -> bool {
        &&& 0 <= i < self.spends.len()
        &&& !self.spends[i].authorized()
        &&& forall|j: int| 0 <= j < i ==> (#[trigger] self.spends[j]).authorized()
    }

    /// What the signature check answers: success if every spend is
    /// authorized, else the failure of the first spend that is not.
    pub open spec fn signatures_check(self) -> Result<(), TxError> {
        if self.fully_signed() {
            Ok(())
        } else {
            let i = choose|i: int| self.first_unauthorized(i);
            self.spends[i].check(i as usize)
        }
    }

    /// The transaction without any signature: what signers sign.
    pub open spec fn unsigned(self) -> TransactionView {
        TransactionView {
            spends: Seq::new(self.spends.len(), |i: int| self.spends[i].unsigned()),
            outputs: self.outputs,
        }
    }
}

/// A spend passes its check exactly if it is authorized.
pub proof fn lemma_check_ok_iff_authorized(spend: SpendView, index: usize)
    ensures
        spend.check(index) is Ok <==> spend.authorized(),
{
}

/// At most one spend is the first that is not authorized.
pub proof fn lemma_first_unauthorized_unique(tx: TransactionView, i: int, j: int)
    requires
        tx.first_unauthorized(i),
        tx.first_unauthorized(j),
    ensures
        i == j,
{
    if i < j {
        assert(tx.spends[i].authorized());
    } else if j < i {
        assert(tx.spends[j].authorized());
    }
}

impl View for Spend {
    type V = SpendView;

    open spec fn view(&self) -> SpendView {
        SpendView { note: self.note@, seeds: self.seeds@ }
    }
}

/// The spends of a list, each as mathematics.
pub open spec fn spends_view(spends: Seq<Spend>) -> Seq<SpendView> {
    Seq::new(spends.len(), |i: int| spends[i]@)
}

impl View for Transaction {
    type V = TransactionView;

    open spec fn view(&self) -> TransactionView {
        TransactionView { spends: spends_view(self.spends@), outputs: outputs_view(self.outputs@) }
    }
}

impl Clone for Spend {
    fn clone(&self) -> (copy: Self)
        ensures
            copy@ == self@,
    {
        Spend { note: self.note.clone(), seeds: self.seeds.clone() }
    }
}

impl Clone for Transaction {
    fn clone(&self) -> (copy: Self)
        ensures
            copy@ == self@,
    {
        let n: usize = self.spends.len();
        let mut spends: Vec<Spend> = Vec::new();
        let mut i: usize = 0;
        while i < n
            invariant
                n == self.spends.len(),
                i <= n,
                spends@.len() == i,
                forall|j: int| 0 <= j < i ==> spends@[j]@ == self.spends@[j]@,
            decreases n - i,
        {
            spends.push(self.spends[i].clone());
            i += 1;
        }
        let copy = Transaction { spends, outputs: clone_outputs(&self.outputs) };
        assert(copy@.spends =~= self@.spends);
        copy
    }
}

/// Something that carries a value: a spend, by its note, and an output.
pub trait Valued {
    /// The value carried, as mathematics.
    spec fn value_spec(&self) -> nat;

    /// The value carried.
    fn value(&self) -> (value: u64)
        ensures
            value == self.value_spec(),
    ;
}

impl Valued for Spend {
    open spec fn value_spec(&self) -> nat {
        self.note.value as nat
    }

    fn value(&self) -> (value: u64) {
        self.note.value
    }
}

impl Valued for Output {
    open spec fn value_spec(&self) -> nat {
        self.value as nat
    }

    fn value(&self) -> (value: u64) {
        self.value
    }
}

/// The values that the items of a list carry, in order.
pub open spec fn values_of<T: Valued>(items: Seq<T>) -> Seq<nat> {
    Seq::new(items.len(), |i: int| items[i].value_spec())
}

/// Adds up the values of `items`. The total of as many values as a list can
/// hold fits the result, whatever the values are.
pub fn total_value<T: Valued>(items: &Vec<T>) -> (total: u128)
    ensures
        total == sum(values_of(items@)),
{
    let n: usize = items.len();
    let ghost values = values_of(items@);
    let mut total: u128 = 0;
    let mut i: usize = 0;
    assert(values.take(0) =~= Seq::empty());
    while i < n
        invariant
            n == items.len(),
            i <= n,
            values == values_of(items@),
            total == sum(values.take(i as int)),
            total <= i * u64::MAX,
        decreases n - i,
    {
        proof {
            lemma_sum_take_next(values, i as int);
            assert((i + 1) * u64::MAX <= u128::MAX) by (nonlinear_arith)
                requires
                    i < u64::MAX,
            ;
            assert(i * u64::MAX + u64::MAX == (i + 1) * u64::MAX) by (nonlinear_arith);
        }
        total = total + items[i].value() as u128;
        i += 1;
    }
    assert(values.take(n as int) =~= values);
    total
}

impl Spend {
    /// Checks this spend as the spend at `spend_index` of its transaction.
    pub fn check(&self, spend_index: usize) -> (r: Result<(), TxError>)
        ensures
            r == self@.check(spend_index),
    {
        let pkh = &self.note.lock.pkh;
        match pkh.validate() {
            Err(e) => {
                return Err(TxError::at_spend(e.kind, spend_index));
            },
            Ok(()) => {},
        }
        if self.seeds.signature_count() < pkh.threshold {
            return Err(TxError::at_spend(ErrorKind::InsufficientSignatures, spend_index));
        }
        let n: usize = self.seeds.signatures.len();
        let mut i: usize = 0;
        while i < n
            invariant
                n == self.seeds.signatures.len(),
                i <= n,
                pkh == &self.note.lock.pkh,
                self@.note.lock.pkh.check() is Ok,
                self@.seeds.signer_count() >= self@.note.lock.pkh.threshold,
                forall|j: int|
                    0 <= j < i ==> self@.note.lock.pkh.permits(#[trigger] self@.seeds.signers()[j]),
            decreases n - i,
        {
            if !contains_key(&pkh.pubkeys, &self.seeds.signatures[i].0) {
                assert(!self@.note.lock.pkh.permits(self@.seeds.signers()[i as int]));
                return Err(TxError::at_spend(ErrorKind::InvalidSigner, spend_index));
            }
            i += 1;
        }
        Ok(())
    }
}

impl Transaction {
    fn input_sum(&self) -> (total: u128)
        ensures
            total == self@.total_input(),
    {
        assert(values_of(self.spends@) =~= self@.spend_values());
        total_value(&self.spends)
    }

    fn output_sum(&self) -> (total: u128)
        ensures
            total == self@.total_output(),
    {
        assert(values_of(self.outputs@) =~= self@.output_values());
        total_value(&self.outputs)
    }

    /// The total value of the notes spent.
    pub fn total_input(&self) -> (total: u64)
        requires
            self@.total_input() <= u64::MAX,
        ensures
            total == self@.total_input(),
    {
        self.input_sum() as u64
    }

    /// The total value of the outputs.
    pub fn total_output(&self) -> (total: u64)
        requires
            self@.total_output() <= u64::MAX,
        ensures
            total == self@.total_output(),
    {
        self.output_sum() as u64
    }

    /// Checks that as much value is created as is spent. The totals are
    /// compared as they are, however large.
    pub fn validate_balance(&self) -> (r: Result<(), TxError>)
        ensures
            r == self@.balance_check(),
            r is Ok <==> self@.balanced(),
    {
        if self.input_sum() != self.output_sum() {
            return Err(TxError::new(ErrorKind::BalanceMismatch));
        }
        Ok(())
    }

    /// Checks the spends in order and stops at the first that is not
    /// authorized.
    pub fn validate_signatures(&self) -> (r: Result<(), TxError>)
        ensures
            r == self@.signatures_check(),
            r is Ok <==> self@.fully_signed(),
    {
        let n: usize = self.spends.len();
        let mut i: usize = 0;
        while i < n
            invariant
                n == self.spends.len(),
                i <= n,
                forall|j: int| 0 <= j < i ==> (#[trigger] self@.spends[j]).authorized(),
            decreases n - i,
        {
            match self.spends[i].check(i) {
                Err(e) => {
                    proof {
                        let tx = self@;
                        lemma_check_ok_iff_authorized(tx.spends[i as int], i);
                        assert(tx.first_unauthorized(i as int));
                        let k = choose|k: int| tx.first_unauthorized(k);
                        lemma_first_unauthorized_unique(tx, i as int, k);
                    }
                    return Err(e);
                },
                Ok(()) => {
                    proof {
                        lemma_check_ok_iff_authorized(self@.spends[i as int], i);
                    }
                },
            }
            i += 1;
        }
        Ok(())
    }
}

} // verus!
