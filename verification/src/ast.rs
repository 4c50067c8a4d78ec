//! The compiled form of a filter script: a tree of instructions over message
//! predicates, and the delivery actions an evaluation produces.

use vstd::prelude::*;

verus! {

/// The part of the envelope an `envelope` predicate inspects.
#[derive(Debug, Clone, Copy, PartialEq, Eq, Structural)]
pub enum EnvelopePart {
    Sender,
    Recipient,
}

/// A message predicate, evaluated by the interpreter against one message.
#[derive(Debug, PartialEq, Eq)]
pub enum Test {
    /// Always true.
    True,
    /// Always false.
    False,
    /// Some header with the given name (compared up to ASCII case) has
    /// exactly the given value.
    Header(Vec<u8>, Vec<u8>),
    /// The envelope sender equals the given address, or some envelope
    /// recipient does.
    Envelope(EnvelopePart, Vec<u8>),
    /// The message's fingerprint has a live entry in the duplicate
    /// suppression cache; checking writes a fresh entry when there is none.
    Duplicate,
}

/// One instruction of a compiled script.
#[derive(Debug, PartialEq, Eq)]
pub enum Instr {
    /// Conditional branching; `elsif` chains are compiled into the else arm.
    If(Test, Vec<Instr>, Vec<Instr>),
    FileInto(Vec<u8>),
    AddKeyword(Vec<u8>),
    Keep,
    Discard,
    Reject(Vec<u8>),
    Redirect(Vec<u8>),
    Notify(Vec<u8>, Vec<u8>),
    /// Splices in another script of the same account, found by name.
    Include(Vec<u8>),
    Stop,
}

/// A validated, executable script: the compiler's output.
#[derive(Debug, PartialEq, Eq)]
pub struct CompiledScript {
    pub instrs: Vec<Instr>,
}

/// A delivery action produced by evaluating a script against a message.
#[derive(Debug, PartialEq, Eq)]
pub enum Action {
    FileInto(Vec<u8>),
    AddKeyword(Vec<u8>),
    Keep,
    Discard,
    Reject(Vec<u8>),
    Redirect(Vec<u8>),
    Notify(Vec<u8>, Vec<u8>),
    Stop,
}

/// The mathematical value of an [`Action`]: the same variants over `Seq<u8>`.
pub enum ActionV {
    FileInto(Seq<u8>),
    AddKeyword(Seq<u8>),
    Keep,
    Discard,
    Reject(Seq<u8>),
    Redirect(Seq<u8>),
    Notify(Seq<u8>, Seq<u8>),
    Stop,
}

impl View for Action {
    type V = ActionV;

    open spec fn view(&self) -> ActionV {
        match self {
            Action::FileInto(p) => ActionV::FileInto(p@),
            Action::AddKeyword(k) => ActionV::AddKeyword(k@),
            Action::Keep => ActionV::Keep,
            Action::Discard => ActionV::Discard,
            Action::Reject(r) => ActionV::Reject(r@),
            Action::Redirect(a) => ActionV::Redirect(a@),
            Action::Notify(t, m) => ActionV::Notify(t@, m@),
            Action::Stop => ActionV::Stop,
        }
    }
}

/// The mathematical value of a list of actions.
pub open spec fn actions_view(a: Seq<Action>) -> Seq<ActionV> {
    a.map_values(|x: Action| x@)
}

} // verus!
