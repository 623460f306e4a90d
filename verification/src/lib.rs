//! A tree-walking interpreter for a small dynamically typed scripting
//! language with C-like statements, first-class closures and classes with
//! single inheritance.
//!
//! The pipeline has three verified stages that share one scope discipline:
//! a static resolver that computes, for every variable reference site, how
//! many scopes separate it from its declaration; an environment that stores
//! the runtime scope chain; and an evaluator that walks the syntax tree,
//! consulting the resolver's distances on every variable access.

pub mod token;

pub mod expr;

pub mod statement;

pub mod runtime_value;

mod assoc;

pub mod environment;

mod numfmt;

pub mod error;

pub mod resolver;

pub mod function;

pub mod class;

pub mod interpreter;

pub mod ast;

use crate::error::Error;
use crate::interpreter::{e_interpret, initial_ictx, lines_view, ICtx, Interpreter, DEFAULT_FUEL};
use crate::resolver::{r_program, Resolver};
use crate::statement::Stmt;
use vstd::prelude::*;

verus! {

/// Runs a whole program: resolves it, and if resolution reported no
/// errors, evaluates it from a fresh interpreter. The result is either
/// everything the program printed, in order, or the resolution errors,
/// or the one runtime error that aborted evaluation. Both halves are
/// pinned: the error list is exactly what the resolution mirror
/// collects, and a clean program's outcome — including every printed
/// line — is exactly what the evaluation mirror denotes.
pub fn execute(program: &Vec<Stmt>) -> (r: Result<Vec<String>, Vec<Error>>)
    ensures
        ({
            let resolved = r_program(program@);
            &&& resolved.errors.len() > 0 ==> (r matches Err(es) && es@ == resolved.errors)
            &&& (r matches Ok(_)) ==> resolved.errors.len() == 0
            &&& resolved.errors.len() == 0 ==> ({
                let m = e_interpret(
                    ICtx { distances: resolved.distances, ..initial_ictx() },
                    program@,
                    DEFAULT_FUEL,
                );
                match m.r {
                    Ok(ignored) => r matches Ok(out) && lines_view(out@) == m.ctx.output,
                    Err(e) => r matches Err(es) && es@ == seq![e],
                }
            })
        }),
{
    let mut resolver = Resolver::new();
    match resolver.resolve_stmts(program) {
        Ok(()) => {},
        Err(errors) => {
            return Err(errors);
        },
    }
    let mut interpreter = Interpreter::new();
    interpreter.set_distances(resolver.distances);
    match interpreter.interpret(program) {
        Ok(_) => Ok(interpreter.output),
        Err(e) => {
            let mut errors: Vec<Error> = Vec::new();
            errors.push(e);
            proof {
                assert(errors@ =~= seq![e]);
            }
            Err(errors)
        },
    }
}

} // verus!
