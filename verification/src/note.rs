//! Notes, which a transaction spends, and outputs, which it creates.

use vstd::prelude::*;
use crate::condition::{Lock, LockView};

verus! {

/// The two-part name by which an application addresses a note.
#[derive(Debug, PartialEq, Eq)]
pub struct NoteName {
    pub first: String,
    pub last: String,
}

/// A unit of value under a lock.
#[derive(Debug, PartialEq, Eq)]
pub struct Note {
    pub name: NoteName,
    pub value: u64,
    pub lock: Lock,
}

/// A unit of value that a transaction creates.
#[derive(Debug, PartialEq, Eq)]
pub struct Output {
    pub recipient: String,
    pub value: u64,
    pub lock: Lock,
}

/// A note's name as mathematics.
pub struct NoteNameView {
    pub first: Seq<char>,
    pub last: Seq<char>,
}

/// A note as mathematics.
pub struct NoteView {
    pub name: NoteNameView,
    pub value: nat,
    pub lock: LockView,
}

/// An output as mathematics.
pub struct OutputView {
    pub recipient: Seq<char>,
    pub value: nat,
    pub lock: LockView,
}

impl View for NoteName {
    type V = NoteNameView;

    open spec fn view(&self) -> NoteNameView {
        NoteNameView { first: self.first@, last: self.last@ }
    }
}

impl View for Note {
    type V = NoteView;

    open spec fn view(&self) -> NoteView {
        NoteView { name: self.name@, value: self.value as nat, lock: self.lock@ }
    }
}

impl View for Output {
    type V = OutputView;

    open spec fn view(&self) -> OutputView {
        OutputView { recipient: self.recipient@, value: self.value as nat, lock: self.lock@ }
    }
}

impl Clone for NoteName {
    fn clone(&self) -> (copy: Self)
        ensures
            copy@ == self@,
    {
        NoteName { first: self.first.clone(), last: self.last.clone() }
    }
}

impl Clone for Note {
    fn clone(&self) -> (copy: Self)
        ensures
            copy@ == self@,
    {
        Note { name: self.name.clone(), value: self.value, lock: self.lock.clone() }
    }
}

impl Clone for Output {
    fn clone(&self) -> (copy: Self)
        ensures
            copy@ == self@,
    {
        Output { recipient: self.recipient.clone(), value: self.value, lock: self.lock.clone() }
    }
}

/// The notes of a list, each as mathematics.
pub open spec fn notes_view(notes: Seq<Note>) -> Seq<NoteView> {
    Seq::new(notes.len(), |i: int| notes[i]@)
}

/// The outputs of a list, each as mathematics.
pub open spec fn outputs_view(outputs: Seq<Output>) -> Seq<OutputView> {
    Seq::new(outputs.len(), |i: int| outputs[i]@)
}

/// A copy of a list of outputs.
pub fn clone_outputs(outputs: &Vec<Output>) -> (copy: Vec<Output>)
    ensures
        outputs_view(copy@) == outputs_view(outputs@),
{
    let n: usize = outputs.len();
    let mut copy: Vec<Output> = Vec::new();
    let mut i: usize = 0;
    while i < n
        invariant
            n == outputs.len(),
            i <= n,
            copy@.len() == i,
            forall|j: int| 0 <= j < i ==> copy@[j]@ == outputs@[j]@,
        decreases n - i,
    {
        copy.push(outputs[i].clone());
        i += 1;
    }
    assert(outputs_view(copy@) =~= outputs_view(outputs@));
    copy
}

} // verus!
