//! Threshold locks: which keys may sign, and how many of them must.

use vstd::prelude::*;
use crate::error::{ErrorKind, TxError};
use crate::keys::{clone_keys, keys_view, PublicKey};

verus! {

/// An M-of-N rule: `threshold` of the keys in `pubkeys` must sign.
///
/// The keys stay in the order they were given in; nothing sorts them or
/// removes a repeated one.
#[derive(Debug, PartialEq, Eq)]
pub struct PkhCondition {
    pub threshold: usize,
    pub pubkeys: Vec<PublicKey>,
}

/// What guards a note. There is one kind of lock.
#[derive(Debug, PartialEq, Eq)]
pub struct Lock {
    pub pkh: PkhCondition,
}

/// A threshold rule as mathematics.
pub struct PkhConditionView {
    pub threshold: nat,
    pub pubkeys: Seq<Seq<char>>,
}

/// A lock as mathematics.
pub struct LockView {
    pub pkh: PkhConditionView,
}

impl PkhConditionView {
    /// The rule can be met and names no key twice.
    pub open spec fn valid(self) -> bool {
        &&& 1 <= self.threshold <= self.pubkeys.len()
        &&& self.pubkeys.no_duplicates()
    }

    /// What validation answers: the first of the three defects, in the order
    /// zero threshold, threshold above the number of keys, repeated key.
    pub open spec fn check(self) -> Result<(), TxError> {
        if self.threshold == 0 {
            Err(TxError { kind: ErrorKind::InvalidThreshold, spend_index: None })
        } else if self.threshold > self.pubkeys.len() {
            Err(TxError { kind: ErrorKind::ThresholdExceedsKeys, spend_index: None })
        } else if !self.pubkeys.no_duplicates() {
            Err(TxError { kind: ErrorKind::DuplicatePublicKey, spend_index: None })
        } else {
            Ok(())
        }
    }

    /// Whether the rule names `key`.
    pub open spec fn permits(self, key: Seq<char>) -> bool {
        self.pubkeys.contains(key)
    }
}

impl View for PkhCondition {
    type V = PkhConditionView;

    open spec fn view(&self) -> PkhConditionView {
        PkhConditionView {
            threshold: self.threshold as nat,
            pubkeys: keys_view(self.pubkeys@),
        }
    }
}

impl View for Lock {
    type V = LockView;

    open spec fn view(&self) -> LockView {
        LockView { pkh: self.pkh@ }
    }
}

impl Clone for PkhCondition {
    fn clone(&self) -> (copy: Self)
        ensures
            copy@ == self@,
    {
        PkhCondition { threshold: self.threshold, pubkeys: clone_keys(&self.pubkeys) }
    }
}

impl Clone for Lock {
    fn clone(&self) -> (copy: Self)
        ensures
            copy@ == self@,
    {
        Lock { pkh: self.pkh.clone() }
    }
}

impl PkhCondition {
    /// Checks the rule's structure. Succeeds exactly on a valid rule, and
    /// otherwise names the first defect.
    pub fn validate(&self) -> (r: Result<(), TxError>)
        ensures
            r == self@.check(),
            r is Ok <==> self@.valid(),
    {
        if self.threshold == 0 {
            return Err(TxError::new(ErrorKind::InvalidThreshold));
        }
        let n: usize = self.pubkeys.len();
        if self.threshold > n {
            return Err(TxError::new(ErrorKind::ThresholdExceedsKeys));
        }
        let ghost keys = keys_view(self.pubkeys@);
        let mut i: usize = 0;
        while i < n
            invariant
                n == self.pubkeys.len(),
                1 <= self.threshold <= n,
                i <= n,
                keys == keys_view(self.pubkeys@),
                forall|a: int, b: int| 0 <= a < b < i ==> keys[a] != keys[b],
            decreases n - i,
        {
            let mut j: usize = 0;
            while j < i
                invariant
                    n == self.pubkeys.len(),
                    1 <= self.threshold <= n,
                    i < n,
                    j <= i,
                    keys == keys_view(self.pubkeys@),
                    forall|a: int| 0 <= a < j ==> keys[a] != keys[i as int],
                decreases i - j,
            {
                if self.pubkeys[j].same_as(&self.pubkeys[i]) {
                    assert(keys[j as int] == keys[i as int]);
                    return Err(TxError::new(ErrorKind::DuplicatePublicKey));
                }
                j += 1;
            }
            i += 1;
        }
        assert(keys.no_duplicates()) by {
            assert forall|a: int, b: int|
                0 <= a < keys.len() && 0 <= b < keys.len() && a != b implies keys[a] != keys[b] by {
                if a < b {
                    assert(keys[a] != keys[b]);
                } else {
                    assert(keys[b] != keys[a]);
                }
            }
        }
        Ok(())
    }
}

} // verus!
