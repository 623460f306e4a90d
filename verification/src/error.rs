//! The diagnostics the resolver and the evaluator can report.
//!
//! Resolution errors are collected across the whole pass; runtime errors
//! are fail-fast, the first one aborting the interpretation.

use crate::numfmt::{spec_nat_str, usize_to_string};
use crate::runtime_value::Value;
use crate::token::Token;
use vstd::prelude::*;
use vstd::string::StringExecFns;

verus! {

/// The kind of a diagnostic.
#[derive(Clone, Copy, Debug, PartialEq, Eq, Structural)]
pub enum ErrorType {
    WrongType,
    UndefinedVariable,
    NotAllowedOutsideLoop,
    ValueNotCallable,
    InvalidNumberOfArguments,
    CantUseVariableInItsInitializer,
    ValueNotInstance,
    PropertyDoesntExist,
    CantInheritFromItself,
    CanOnlyInheritFromClass,
    MethodNotFound,
    CantUseSuper,
    CantUseThis,
    DivisionByZero,
    ExecutionLimitReached,
    InternalFault,
}

impl ErrorType {
    /// A fixed description of the kind.
    pub fn message(&self) -> (s: String)
        ensures
            s@ == spec_error_message(*self),
    {
        let text: &str = match self {
            ErrorType::WrongType => "Unexpected type mismatch",
            ErrorType::UndefinedVariable => "Variable is undefined",
            ErrorType::NotAllowedOutsideLoop => "Cannot be used outside loops",
            ErrorType::ValueNotCallable => "This value is not callable",
            ErrorType::InvalidNumberOfArguments => "Invalid number of arguments",
            ErrorType::CantUseVariableInItsInitializer => "Can't use variable in it's own initializer",
            ErrorType::ValueNotInstance => "Value is not an instance, therefore you can't access its properties",
            ErrorType::PropertyDoesntExist => "This instance doesn't have this property",
            ErrorType::CantInheritFromItself => "Class can't inherit from itself",
            ErrorType::CanOnlyInheritFromClass => "Can only inherit from class",
            ErrorType::MethodNotFound => "Method not found in the superclass instance",
            ErrorType::CantUseSuper => "Can't use super outside class or inside a class without superclass",
            ErrorType::CantUseThis => "Can't use this outside class",
            ErrorType::DivisionByZero => "Division by zero",
            ErrorType::ExecutionLimitReached => "Execution step limit reached",
            ErrorType::InternalFault => "Internal fault: resolved distance exceeds the scope chain",
        };
        String::from_str(text)
    }
}

/// The description [`ErrorType::message`] returns for each kind.
pub open spec fn spec_error_message(e: ErrorType) -> Seq<char> {
    match e {
        ErrorType::WrongType => "Unexpected type mismatch"@,
        ErrorType::UndefinedVariable => "Variable is undefined"@,
        ErrorType::NotAllowedOutsideLoop => "Cannot be used outside loops"@,
        ErrorType::ValueNotCallable => "This value is not callable"@,
        ErrorType::InvalidNumberOfArguments => "Invalid number of arguments"@,
        ErrorType::CantUseVariableInItsInitializer => "Can't use variable in it's own initializer"@,
        ErrorType::ValueNotInstance => "Value is not an instance, therefore you can't access its properties"@,
        ErrorType::PropertyDoesntExist => "This instance doesn't have this property"@,
        ErrorType::CantInheritFromItself => "Class can't inherit from itself"@,
        ErrorType::CanOnlyInheritFromClass => "Can only inherit from class"@,
        ErrorType::MethodNotFound => "Method not found in the superclass instance"@,
        ErrorType::CantUseSuper => "Can't use super outside class or inside a class without superclass"@,
        ErrorType::CantUseThis => "Can't use this outside class"@,
        ErrorType::DivisionByZero => "Division by zero"@,
        ErrorType::ExecutionLimitReached => "Execution step limit reached"@,
        ErrorType::InternalFault => "Internal fault: resolved distance exceeds the scope chain"@,
    }
}

/// A diagnostic: the offending source position and the kind of fault.
#[derive(Clone, Copy, Debug, PartialEq, Eq, Structural)]
pub struct Error {
    pub token: Token,
    pub error_type: ErrorType,
}

impl Error {
    /// Renders the diagnostic as `line.start-end : description`.
    pub fn message(&self) -> (s: String)
        ensures
            s@ == spec_nat_str(self.token.line as int) + "."@ + spec_nat_str(
                self.token.start as int,
            ) + "-"@ + spec_nat_str(self.token.end as int) + " : "@ + spec_error_message(
                self.error_type,
            ),
    {
        let mut s = usize_to_string(self.token.line);
        s.append(".");
        let part = usize_to_string(self.token.start);
        s.append(part.as_str());
        s.append("-");
        let part = usize_to_string(self.token.end);
        s.append(part.as_str());
        s.append(" : ");
        let part = self.error_type.message();
        s.append(part.as_str());
        s
    }
}

/// Wraps a position and a kind as a failed evaluation.
pub fn error(token: &Token, error_type: ErrorType) -> (r: Result<Value, Error>)
    ensures
        r == Result::<Value, Error>::Err(Error { token: *token, error_type }),
{
    Err(Error { token: *token, error_type })
}

} // verus!
