use vstd::prelude::*;

verus! {

/// The ways an execution can fail.
///
/// The first two kinds are the classic ones: `MismatchedBraces` is detected
/// statically, before any instruction runs, and `Segfault` dynamically, the
/// instant an instruction would move the pointer below zero or past the
/// machine's addressable range. `EndOfInput` reports a read instruction for
/// which no input byte remains. `StepLimit` reports that the step budget of
/// a fuel-bounded run was spent before the program halted.
#[derive(Clone, Copy, Debug, PartialEq, Eq, Structural)]
pub enum BfError {
    /// The program's loop delimiters are unbalanced or improperly nested.
    MismatchedBraces,
    /// An instruction would move the data pointer out of range.
    Segfault,
    /// A read instruction found the input stream exhausted.
    EndOfInput,
    /// The step budget ran out before the program halted.
    StepLimit,
}

/// The result of an operation on the execution state.
pub type BfStateResult = Result<(), BfError>;

} // verus!
