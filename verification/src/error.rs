//! Error kinds shared by the compiler and the simulation core.

use vstd::prelude::*;

verus! {

/// What went wrong, without the text that goes with it.
#[derive(Clone, Copy, Debug, PartialEq, Eq, Structural)]
pub enum ErrorKind {
    /// An unrecognised character or an identifier of mixed case.
    LexInvalid,
    /// A token that the grammar does not allow at its place.
    ParseUnexpected,
    /// Parentheses that do not balance at the end of an expression.
    ParseUnmatchedParen,
    /// An ant id outside `0..=255`.
    ParseAntId,
    /// An imported file without the `ant` extension.
    LinkExtension,
    /// An imported file whose stem is no lower-case identifier.
    LinkName,
    /// An import that names no known file.
    LinkMissingFile,
    /// A file that imports itself, directly or not.
    LinkCycle,
    /// A call of a function that no earlier declaration defines.
    CompUnknownFn,
    /// A call whose arity matches no overload of the function.
    CompOverload,
    /// One name assigned by two statements.
    CompDupeAssignee,
    /// A second declaration with the name and arity of an earlier one.
    CompDupeOverload,
    /// An `or` or a plain value assigned to more or fewer than one assignee.
    CompOrAssignees,
    /// A signature that repeats a name or uses an upper-case one.
    ParseSignature,
    /// An upper-case name that is no peripheral.
    AsmPeriphUnknown,
    /// A bit index that is missing, not allowed or out of range.
    AsmBitRange,
    /// A peripheral written though it is input-only, or read though output-only.
    AsmPeriphDir,
    /// A peripheral that the kind of ant may not use.
    AsmForbidden,
    /// More than 8 inputs or more than 32 outputs.
    AsmCapacity,
    /// A variable read before any statement assigned it.
    AsmUnknownVariable,
    /// A setting key that does not exist.
    SettingUnknown,
    /// A setting value of the wrong kind or outside the allowed words.
    SettingValue,
    /// Two ants bound to one id.
    WorldDupeId,
    /// No ant bound to id 1.
    WorldNoEntry,
    /// A truth table whose counts and entries do not fit together.
    TableShape,
    /// A peripheral listed twice in a behavior.
    BehaviorDupe,
}

/// An error as the library hands it out: its kind, and what it is about
/// (empty where there is nothing to name): the word that does not lex, the
/// function, ant, variable, peripheral, setting or file that is wrong.
#[derive(Clone, Debug)]
pub struct CompileError {
    pub kind: ErrorKind,
    pub subject: String,
}

/// An error as plain values.
pub struct ErrorView {
    pub kind: ErrorKind,
    pub subject: Seq<char>,
}

impl View for CompileError {
    type V = ErrorView;

    open spec fn view(&self) -> ErrorView {
        ErrorView { kind: self.kind, subject: self.subject@ }
    }
}

/// The error of the given kind about `subject`.
pub open spec fn at(kind: ErrorKind, subject: Seq<char>) -> ErrorView {
    ErrorView { kind, subject }
}

/// The error of the given kind about nothing in particular.
pub open spec fn bare(kind: ErrorKind) -> ErrorView {
    ErrorView { kind, subject: Seq::empty() }
}

impl CompileError {
    /// An error of the given kind about nothing in particular.
    pub fn new(kind: ErrorKind) -> (e: CompileError)
        ensures
            e@ == bare(kind),
    {
        CompileError { kind, subject: String::new() }
    }

    /// An error of the given kind about `subject`.
    pub fn about(kind: ErrorKind, subject: &str) -> (e: CompileError)
        ensures
            e@ == at(kind, subject@),
    {
        CompileError { kind, subject: subject.to_owned() }
    }
}

} // verus!
