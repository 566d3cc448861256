//! Signer keys and signatures: opaque strings, compared letter by letter.

use vstd::prelude::*;

verus! {

/// The identifier of a signer.
#[derive(Debug, PartialEq, Eq, Hash)]
pub struct PublicKey(pub String);

/// A signature. Nothing here interprets it.
#[derive(Debug, PartialEq, Eq)]
pub struct Signature(pub String);

impl View for PublicKey {
    type V = Seq<char>;

    open spec fn view(&self) -> Seq<char> {
        self.0@
    }
}

impl View for Signature {
    type V = Seq<char>;

    open spec fn view(&self) -> Seq<char> {
        self.0@
    }
}

impl Clone for PublicKey {
    fn clone(&self) -> (copy: Self)
        ensures
            copy@ == self@,
    {
        PublicKey(self.0.clone())
    }
}

impl Clone for Signature {
    fn clone(&self) -> (copy: Self)
        ensures
            copy@ == self@,
    {
        Signature(self.0.clone())
    }
}

impl PublicKey {
    /// Whether two keys are the same string.
    pub fn same_as(&self, other: &PublicKey) -> (same: bool)
        ensures
            same == (self@ == other@),
    {
        self.0 == other.0
    }
}

/// The keys of a list, each as its string.
pub open spec fn keys_view(keys: Seq<PublicKey>) -> Seq<Seq<char>> {
    Seq::new(keys.len(), |i: int| keys[i]@)
}

/// Whether `key` occurs in `keys`.
pub fn contains_key(keys: &Vec<PublicKey>, key: &PublicKey) -> (found: bool)
    ensures
        found == keys_view(keys@).contains(key@),
{
    let n: usize = keys.len();
    let mut i: usize = 0;
    while i < n
        invariant
            n == keys.len(),
            i <= n,
            forall|j: int| 0 <= j < i ==> keys_view(keys@)[j] != key@,
        decreases n - i,
    {
        if keys[i].same_as(key) {
            assert(keys_view(keys@)[i as int] == key@);
            return true;
        }
        i += 1;
    }
    false
}

/// A copy of a list of keys.
pub fn clone_keys(keys: &Vec<PublicKey>) -> (copy: Vec<PublicKey>)
    ensures
        keys_view(copy@) == keys_view(keys@),
{
    let n: usize = keys.len();
    let mut copy: Vec<PublicKey> = Vec::new();
    let mut i: usize = 0;
    while i < n
        invariant
            n == keys.len(),
            i <= n,
            copy@.len() == i,
            forall|j: int| 0 <= j < i ==> copy@[j]@ == keys@[j]@,
        decreases n - i,
    {
        copy.push(keys[i].clone());
        i += 1;
    }
    assert(keys_view(copy@) =~= keys_view(keys@));
    copy
}

} // verus!
