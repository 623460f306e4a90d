use crate::token::Literal;
use vstd::prelude::*;

verus! {

/// The mathematical content of a runtime value.
///
/// Functions, classes and instances live in arenas owned by the
/// interpreter and are denoted here by their arena index; everything else
/// is carried directly.
pub ghost enum ValueV {
    Num(int),
    Str(Seq<char>),
    Bool(bool),
    Fun(int),
    Cls(int),
    Inst(int),
    Null,
}

/// A runtime value: the tagged union the evaluator produces.
///
/// Numbers are 64-bit signed integers. `Function`, `Class` and `Instance`
/// hold indices into the interpreter's function, class and instance
/// arenas; sharing an index is how two values alias one mutable instance.
#[derive(Debug)]
pub enum Value {
    Function(usize),
    Str(String),
    Number(i64),
    Boolean(bool),
    Class(usize),
    Instance(usize),
    Null,
}

impl View for Value {
    type V = ValueV;

    open spec fn view(&self) -> ValueV {
        match self {
            Value::Function(id) => ValueV::Fun(*id as int),
            Value::Str(s) => ValueV::Str(s@),
            Value::Number(n) => ValueV::Num(*n as int),
            Value::Boolean(b) => ValueV::Bool(*b),
            Value::Class(id) => ValueV::Cls(*id as int),
            Value::Instance(id) => ValueV::Inst(*id as int),
            Value::Null => ValueV::Null,
        }
    }
}

impl Clone for Value {
    fn clone(&self) -> (res: Self)
        ensures
            res@ == self@,
    {
        match self {
            Value::Function(id) => Value::Function(*id),
            Value::Str(s) => Value::Str(s.clone()),
            Value::Number(n) => Value::Number(*n),
            Value::Boolean(b) => Value::Boolean(*b),
            Value::Class(id) => Value::Class(*id),
            Value::Instance(id) => Value::Instance(*id),
            Value::Null => Value::Null,
        }
    }
}

/// The truthiness rule: `Null` is false, a boolean is itself, a string is
/// true exactly when non-empty, and every number, function, class and
/// instance is true.
pub open spec fn truthy(v: ValueV) -> bool {
    match v {
        ValueV::Null => false,
        ValueV::Bool(b) => b,
        ValueV::Str(s) => s.len() > 0,
        ValueV::Num(_) => true,
        ValueV::Fun(_) => true,
        ValueV::Cls(_) => true,
        ValueV::Inst(_) => true,
    }
}

/// The value denoted by a literal.
pub open spec fn spec_literal_value(l: Literal) -> ValueV {
    match l {
        Literal::Number(n) => ValueV::Num(n as int),
        Literal::Str(s) => ValueV::Str(s@),
        Literal::Bool(b) => ValueV::Bool(b),
        Literal::Null => ValueV::Null,
    }
}

impl Value {
    /// The value a literal evaluates to.
    pub fn new(literal: &Literal) -> (v: Value)
        ensures
            v@ == spec_literal_value(*literal),
    {
        match literal {
            Literal::Number(val) => Value::Number(*val),
            Literal::Str(val) => Value::Str(val.clone()),
            Literal::Null => Value::Null,
            Literal::Bool(val) => Value::Boolean(*val),
        }
    }

    /// Converts a value to a boolean by the truthiness rule.
    pub fn to_bool(&self) -> (b: bool)
        ensures
            b == truthy(self@),
    {
        match self {
            Value::Str(val) => !val.as_str().is_empty(),
            Value::Boolean(val) => *val,
            Value::Null => false,
            Value::Class(_) => true,
            Value::Number(_) => true,
            Value::Function(_) => true,
            Value::Instance(_) => true,
        }
    }
}

} // verus!
