use vstd::prelude::*;
use vstd::string::*;

verus! {

/// Why an instruction could not run.
#[derive(Debug, Clone, Copy, PartialEq, Eq, Structural)]
pub enum ExecError {
    EmptyStack,
    ClosingOutsideBlock,
    NotExecutable,
    NonCommandInBlock,
    CannotAdd,
    NotMultiplicative,
    CountNotInteger,
    CountNotNumber,
    NotCollection,
    SplitNeedsText,
    JoinNeedsText,
    JoinNeedsStack,
    TextNotInteger,
    CannotConvert,
    RangeNeedsInteger,
    EmptySideStack,
    UnboundVariable,
    Overflow,
    NestingTooDeep,
}

/// The description of each error.
pub open spec fn error_text(e: ExecError) -> Seq<char> {
    match e {
        ExecError::EmptyStack => "Pop from an empty stack"@,
        ExecError::ClosingOutsideBlock => "Closing outside a block"@,
        ExecError::NotExecutable => "Can't execute"@,
        ExecError::NonCommandInBlock => "Executed stack has non-command values"@,
        ExecError::CannotAdd => "Can't add these values"@,
        ExecError::NotMultiplicative => "Not a multiplicative type"@,
        ExecError::CountNotInteger => "Not an integer"@,
        ExecError::CountNotNumber => "Not a number"@,
        ExecError::NotCollection => "Map parameter isn't a stack or a string"@,
        ExecError::SplitNeedsText => "Split parameter isn't a string"@,
        ExecError::JoinNeedsText => "Join parameter isn't a string"@,
        ExecError::JoinNeedsStack => "Join parameter isn't a stack"@,
        ExecError::TextNotInteger => "String doesn't represent an integer"@,
        ExecError::CannotConvert => "Can't convert value to integer"@,
        ExecError::RangeNeedsInteger => "Range requires integer parameters"@,
        ExecError::EmptySideStack => "Pop from empty side stack"@,
        ExecError::UnboundVariable => "Variable is not bound"@,
        ExecError::Overflow => "Integer overflow"@,
        ExecError::NestingTooDeep => "Execution nested too deeply"@,
    }
}

impl ExecError {
    /// A human-readable description.
    pub fn message(&self) -> (r: String)
        ensures
            r@ == error_text(*self),
    {
        let s = match self {
            ExecError::EmptyStack => "Pop from an empty stack",
            ExecError::ClosingOutsideBlock => "Closing outside a block",
            ExecError::NotExecutable => "Can't execute",
            ExecError::NonCommandInBlock => "Executed stack has non-command values",
            ExecError::CannotAdd => "Can't add these values",
            ExecError::NotMultiplicative => "Not a multiplicative type",
            ExecError::CountNotInteger => "Not an integer",
            ExecError::CountNotNumber => "Not a number",
            ExecError::NotCollection => "Map parameter isn't a stack or a string",
            ExecError::SplitNeedsText => "Split parameter isn't a string",
            ExecError::JoinNeedsText => "Join parameter isn't a string",
            ExecError::JoinNeedsStack => "Join parameter isn't a stack",
            ExecError::TextNotInteger => "String doesn't represent an integer",
            ExecError::CannotConvert => "Can't convert value to integer",
            ExecError::RangeNeedsInteger => "Range requires integer parameters",
            ExecError::EmptySideStack => "Pop from empty side stack",
            ExecError::UnboundVariable => "Variable is not bound",
            ExecError::Overflow => "Integer overflow",
            ExecError::NestingTooDeep => "Execution nested too deeply",
        };
        String::from_str(s)
    }
}

} // verus!
