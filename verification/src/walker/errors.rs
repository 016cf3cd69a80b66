//! What can go wrong while a program runs.
use crate::shared::text::push_decimal;
use crate::shared::text::decimal;
use crate::walker::values::Value;
use vstd::prelude::*;

verus! {

/// Why the evaluation of a program stopped.
#[derive(Clone, Debug)]
pub enum RuntimeError<'a> {
    /// An operator or a literal that the evaluator has no rule for.
    Unimplemented { msg: String },
    /// The host could not write a printed line.
    PrintFailed,
    /// A name that the frame it was resolved to does not hold.
    UndefinedVariable { name: String },
    /// A call of a value that is no function and no class.
    NotCallable { typ: String },
    /// A call with a number of arguments other than the callee takes.
    WrongNumberOfArgs { arity: usize, got: usize },
    /// A property read from or written to a value that is no instance.
    OnlyInstancesHaveAttributes,
    /// A `return` that no function call encloses.
    Return { value: Value<'a> },
    /// A `break` that no loop encloses.
    Break,
    /// The interpreter's own state does not fit together: a depth that leads
    /// past the global frame, a handle that nothing stands behind, a reply of
    /// the host that was not asked for.
    Internal { msg: String },
}

/// A `RuntimeError` with its texts as sequences of characters.
pub enum Failure<'a> {
    Unimplemented { msg: Seq<char> },
    PrintFailed,
    UndefinedVariable { name: Seq<char> },
    NotCallable { typ: Seq<char> },
    WrongNumberOfArgs { arity: usize, got: usize },
    OnlyInstancesHaveAttributes,
    Return { value: Value<'a> },
    Break,
    Internal { msg: Seq<char> },
}

impl<'a> View for RuntimeError<'a> {
    type V = Failure<'a>;

    open spec fn view(&self) -> Failure<'a> {
        match *self {
            RuntimeError::Unimplemented { msg } => Failure::Unimplemented { msg: msg@ },
            RuntimeError::PrintFailed => Failure::PrintFailed,
            RuntimeError::UndefinedVariable { name } => Failure::UndefinedVariable { name: name@ },
            RuntimeError::NotCallable { typ } => Failure::NotCallable { typ: typ@ },
            RuntimeError::WrongNumberOfArgs { arity, got } => Failure::WrongNumberOfArgs {
                arity,
                got,
            },
            RuntimeError::OnlyInstancesHaveAttributes => Failure::OnlyInstancesHaveAttributes,
            RuntimeError::Return { value } => Failure::Return { value },
            RuntimeError::Break => Failure::Break,
            RuntimeError::Internal { msg } => Failure::Internal { msg: msg@ },
        }
    }
}

impl<'a> Failure<'a> {
    /// The message that reports the failure.
    pub open spec fn text(self) -> Seq<char> {
        match self {
            Failure::Unimplemented { msg } => msg,
            Failure::PrintFailed => "Print failed"@,
            Failure::UndefinedVariable { name } => "Undefined variable "@ + name,
            Failure::NotCallable { typ } => "Value of type "@ + typ + " is not callable"@,
            Failure::WrongNumberOfArgs { arity, got } => "Wrong number of arguments: expected "@
                + decimal(arity as nat) + ", got "@ + decimal(got as nat),
            Failure::OnlyInstancesHaveAttributes => "Only instances have attributes"@,
            Failure::Return { .. } => "Returning"@,
            Failure::Break => "Breaking loop"@,
            Failure::Internal { msg } => msg,
        }
    }
}

impl<'a> RuntimeError<'a> {
    /// The message that reports the error.
    pub fn to_string(&self) -> (r: String)
        ensures
            r@ == self@.text(),
    {
        match self {
            RuntimeError::Unimplemented { msg } => msg.clone(),
            RuntimeError::PrintFailed => String::from_str("Print failed"),
            RuntimeError::UndefinedVariable { name } => {
                let mut out = String::from_str("Undefined variable ");
                out.append(name.as_str());
                out
            },
            RuntimeError::NotCallable { typ } => {
                let mut out = String::from_str("Value of type ");
                out.append(typ.as_str());
                out.append(" is not callable");
                out
            },
            RuntimeError::WrongNumberOfArgs { arity, got } => {
                let mut out = String::from_str("Wrong number of arguments: expected ");
                push_decimal(&mut out, *arity);
                out.append(", got ");
                push_decimal(&mut out, *got);
                out
            },
            RuntimeError::OnlyInstancesHaveAttributes => String::from_str(
                "Only instances have attributes",
            ),
            RuntimeError::Return { .. } => String::from_str("Returning"),
            RuntimeError::Break => String::from_str("Breaking loop"),
            RuntimeError::Internal { msg } => msg.clone(),
        }
    }
}

} // verus!
