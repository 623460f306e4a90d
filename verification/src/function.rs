//! Callable values: user functions and closures, plus the one built-in.
//!
//! Function values live in an arena owned by the interpreter and are
//! denoted by their index there; binding a method to a receiver creates a
//! new arena entry rather than mutating the old one.

use crate::statement::Stmt;
use crate::token::Token;
use std::rc::Rc;
use vstd::prelude::*;
use vstd::string::StringExecFns;

verus! {

/// The names of a parameter list, as character sequences.
pub open spec fn names_view(params: Seq<String>) -> Seq<Seq<char>> {
    params.map_values(|p: String| p@)
}

/// The mathematical content of a function value.
#[verifier::ext_equal]
pub ghost enum FunctionV {
    Native { arity: int },
    Standard {
        params: Seq<Seq<char>>,
        name: Seq<char>,
        body: Seq<Stmt>,
        token: Token,
        this: Option<int>,
        closure: int,
    },
}

/// A callable: either the built-in native function or a user function,
/// which pairs its parameters and body with the environment frame it
/// captured and, for a bound method, the instance it is bound to.
pub enum Function {
    Native { arity: usize },
    Standard {
        params: Rc<Vec<String>>,
        name: String,
        body: Rc<Vec<Stmt>>,
        token: Token,
        this: Option<usize>,
        closure: usize,
    },
}

impl View for Function {
    type V = FunctionV;

    open spec fn view(&self) -> FunctionV {
        match self {
            Function::Native { arity } => FunctionV::Native { arity: *arity as int },
            Function::Standard { params, name, body, token, this, closure } => {
                FunctionV::Standard {
                    params: names_view(params@),
                    name: name@,
                    body: body@,
                    token: *token,
                    this: match this {
                        Some(i) => Some(*i as int),
                        None => None,
                    },
                    closure: *closure as int,
                }
            },
        }
    }
}

impl Clone for Function {
    fn clone(&self) -> (res: Self)
        ensures
            res@ == self@,
    {
        match self {
            Function::Native { arity } => Function::Native { arity: *arity },
            Function::Standard { params, name, body, token, this, closure } => {
                let r = Function::Standard {
                    params: params.clone(),
                    name: name.clone(),
                    body: body.clone(),
                    token: *token,
                    this: match this {
                        Some(i) => Some(*i),
                        None => None,
                    },
                    closure: *closure,
                };
                proof {
                    assert(r@ =~~= self@);
                }
                r
            },
        }
    }
}

/// The number of arguments a function expects.
pub open spec fn spec_arity(f: FunctionV) -> int {
    match f {
        FunctionV::Native { arity } => arity,
        FunctionV::Standard { params, .. } => params.len() as int,
    }
}

/// How a function renders: the built-in anonymously, a user function by
/// its name.
pub open spec fn spec_fun_display(f: FunctionV) -> Seq<char> {
    match f {
        FunctionV::Native { .. } => "<native function>"@,
        FunctionV::Standard { name, .. } => "<"@ + name + " function>"@,
    }
}

impl Function {
    /// The number of arguments this function expects.
    pub fn arity(&self) -> (n: usize)
        ensures
            n == spec_arity(self@),
    {
        match self {
            Function::Native { arity } => *arity,
            Function::Standard { params, .. } => params.len(),
        }
    }

    /// Renders the function for display.
    pub fn to_string(&self) -> (s: String)
        ensures
            s@ == spec_fun_display(self@),
    {
        match self {
            Function::Native { .. } => String::from_str("<native function>"),
            Function::Standard { name, .. } => {
                let mut s = String::from_str("<");
                s.append(name.as_str());
                s.append(" function>");
                s
            },
        }
    }

    /// A copy of this function bound to the given instance as receiver;
    /// the built-in is returned unchanged.
    pub fn bind(&self, instance: usize) -> (r: Function)
        ensures
            r@ == match self@ {
                FunctionV::Standard { params, name, body, token, closure, .. } => {
                    FunctionV::Standard {
                        params,
                        name,
                        body,
                        token,
                        this: Some(instance as int),
                        closure,
                    }
                },
                FunctionV::Native { arity } => FunctionV::Native { arity },
            },
    {
        match self {
            Function::Standard { params, name, body, token, closure, .. } => {
                let r = Function::Standard {
                    params: params.clone(),
                    name: name.clone(),
                    body: body.clone(),
                    token: *token,
                    this: Some(instance),
                    closure: *closure,
                };
                proof {
                    assert(r@ =~~= match self@ {
                        FunctionV::Standard { params, name, body, token, closure, .. } => {
                            FunctionV::Standard {
                                params,
                                name,
                                body,
                                token,
                                this: Some(instance as int),
                                closure,
                            }
                        },
                        FunctionV::Native { arity } => FunctionV::Native { arity },
                    });
                }
                r
            },
            Function::Native { arity } => Function::Native { arity: *arity },
        }
    }
}

} // verus!
