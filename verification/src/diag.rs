//! Structured diagnostics: the violation kinds the engine can report and
//! the report returned to the caller.

use vstd::prelude::*;

verus! {

/// Every rule the engine enforces; all kinds are hard errors.
#[derive(Debug, Clone, Copy, PartialEq, Eq, Structural)]
pub enum ErrorKind {
    /// A binding whose value was moved out is used again.
    UseAfterMove,
    /// A whole aggregate is consumed or used while one of its fields has
    /// been moved out.
    PartialMove,
    /// An access is still open when its target value is dropped.
    DanglingOnDrop,
    /// Two accesses to one value overlap and at least one is exclusive.
    ExclusivityViolation,
    /// A reference or slice is returned out of the scope that owns its
    /// backing value.
    DanglingReturn,
    /// A slice range lies outside its buffer.
    SliceOutOfBounds,
    /// A statement refers to a name or field with no visible binding.
    UnknownBinding,
}

/// One rule violation: its kind, the statement where it was detected, and,
/// where one exists, a related statement (the move that invalidated a
/// binding, or the start of the older of two conflicting accesses).
#[derive(Debug, Clone, Copy, PartialEq, Eq, Structural)]
pub struct Violation {
    pub kind: ErrorKind,
    pub stmt: usize,
    pub related: Option<usize>,
}

/// The result of one analysis run: `success` holds exactly when the
/// ordered, deduplicated violation list is empty.
#[derive(Debug, Clone)]
pub struct VerificationReport {
    pub success: bool,
    pub violations: Vec<Violation>,
}

impl Violation {
    /// A short human-readable description of the violation kind.
    pub fn message(&self) -> (r: &'static str)
        ensures
            self.kind is UseAfterMove
                ==> r@ == "binding used after its value was moved"@,
            self.kind is PartialMove
                ==> r@ == "aggregate used after a field was moved out"@,
            self.kind is DanglingOnDrop
                ==> r@ == "access outlives the value it targets"@,
            self.kind is ExclusivityViolation
                ==> r@ == "conflicting accesses overlap"@,
            self.kind is DanglingReturn
                ==> r@ == "reference returned out of its owning scope"@,
            self.kind is SliceOutOfBounds
                ==> r@ == "slice range lies outside its buffer"@,
            self.kind is UnknownBinding
                ==> r@ == "no visible binding for this name"@,
    {
        match self.kind {
            ErrorKind::UseAfterMove => "binding used after its value was moved",
            ErrorKind::PartialMove => "aggregate used after a field was moved out",
            ErrorKind::DanglingOnDrop => "access outlives the value it targets",
            ErrorKind::ExclusivityViolation => "conflicting accesses overlap",
            ErrorKind::DanglingReturn => "reference returned out of its owning scope",
            ErrorKind::SliceOutOfBounds => "slice range lies outside its buffer",
            ErrorKind::UnknownBinding => "no visible binding for this name",
        }
    }
}

} // verus!
