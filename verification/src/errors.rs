//! Error taxonomy of the engine: structural errors returned by the script
//! store, compile-time faults, and delivery-time faults.

use vstd::prelude::*;

verus! {

/// What the compiler found wrong with a script source.
#[derive(Debug, Clone, Copy, PartialEq, Eq, Structural)]
pub enum CompileFault {
    /// A byte that can start no token.
    BadCharacter,
    /// A string literal with no closing quote.
    UnterminatedString,
    /// The source ended where more was expected.
    UnexpectedEnd,
    /// A token other than the one the grammar expects here.
    UnexpectedToken,
    /// A command name the language does not have.
    UnknownCommand,
    /// A `require` naming a capability the engine does not support.
    UnsupportedCapability,
    /// A `fileinto` path that is empty or has an empty segment.
    BadMailboxPath,
    /// An `include` naming a script the account cannot see.
    UnknownIncludeTarget,
}

/// A structural error returned by a script-store operation.
#[derive(Debug, PartialEq, Eq)]
pub enum StoreError {
    /// The source failed to compile; nothing was persisted.
    InvalidScript(CompileFault),
    /// `destroy` was attempted on the account's active script.
    ScriptIsActive,
    /// The given id names no script of the account.
    ScriptNotFound,
    /// `create` was given a name the account already uses.
    ScriptNameInUse,
}

/// A fault that makes a delivery fail closed: nothing is stored.
#[derive(Debug, Clone, Copy, PartialEq, Eq, Structural)]
pub enum DeliverError {
    /// An `include` reached at evaluation time names no script of the
    /// account (for instance because it was destroyed after compilation).
    IncludeNotFound,
    /// The chain of `include`s is deeper than the number of scripts the
    /// account has, which can only happen on a cycle of `include`s.
    IncludeLoop,
}

} // verus!
