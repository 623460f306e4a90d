//! The evaluator.
//!
//! A recursive walk over the syntax tree that produces values, using the
//! environment chain and the resolver's precomputed distances for every
//! variable access. Control flow escapes — `break`, `continue`, `return` —
//! are cooperative flags consumed by the constructs that own them: loops
//! consume break and continue, call boundaries consume return.
//!
//! Every evaluation function carries a fuel budget that bounds the depth
//! of the walk; a program that needs more depth fails with an execution
//! limit error instead of looping forever, so every verified function
//! here terminates on all inputs.
//!
//! A reference the resolver left unresolved is read by walking the whole
//! chain from the current frame outward ([`e_lookup_variable`]). The walk
//! ends at the outermost frame, so it subsumes a global-only lookup; it
//! is what lets the built-in in the root frame, and top-level bindings
//! read from class property initializers, be found. Writes never fall
//! back: an unresolved or unbound assignment target is an error and
//! changes nothing.
//!
//! The whole evaluator is mirrored by specification functions over
//! [`ICtx`]: every method's postcondition states that its final state and
//! result are exactly what the mirror denotes, so a run is a mathematical
//! function of the program, as the resolver already is.

use crate::class::{spec_find_method, Class, ClassV, Instance, InstanceV};
use crate::environment::{spec_ancestor, spec_lookup_chain, Environment, FrameV};
use crate::error::{error, Error, ErrorType};
use crate::expr::{BinOp, Expr, LogicalOp, UnaryOp};
use crate::function::{names_view, spec_fun_display, Function, FunctionV};
use crate::numfmt::{i64_to_string, spec_int_str};
use crate::resolver::{spec_site, Distances, SiteKey, VarRef};
use crate::runtime_value::{spec_literal_value, truthy, Value, ValueV};
use crate::statement::Stmt;
use crate::token::Token;
use vstd::prelude::*;
use vstd::string::{StrSliceExecFns, StringExecFns};

verus! {

/// The default depth budget for a run started through the fuel-free
/// entry points.
pub const DEFAULT_FUEL: u64 = 1024;

/// The evaluator's transient control-flow state: the pending escape
/// flags and how many function calls are currently on the stack.
pub struct State {
    pub should_continue: bool,
    pub should_break: bool,
    pub should_return: bool,
    pub inside_call: usize,
}

impl State {
    pub fn new() -> (s: State)
        ensures
            s == (State {
                should_continue: false,
                should_break: false,
                should_return: false,
                inside_call: 0usize,
            }),
    {
        State { should_break: false, should_continue: false, should_return: false, inside_call: 0 }
    }

    /// Consumes a pending return if one is pending inside a call; a bare
    /// top-level return stays a no-op signal.
    pub fn will_return(&mut self) -> (r: bool)
        ensures
            r == (old(self).should_return && old(self).inside_call > 0),
            final(self).should_return == (old(self).should_return && !r),
            final(self).inside_call == old(self).inside_call,
            final(self).should_break == old(self).should_break,
            final(self).should_continue == old(self).should_continue,
    {
        if self.should_return && self.inside_call > 0 {
            self.should_return = false;
            return true;
        }
        false
    }

    /// Marks entry into a function call.
    pub fn enter_call(&mut self)
        ensures
            final(self).inside_call == if old(self).inside_call < usize::MAX {
                old(self).inside_call + 1
            } else {
                old(self).inside_call as int
            },
            final(self).should_break == old(self).should_break,
            final(self).should_continue == old(self).should_continue,
            final(self).should_return == old(self).should_return,
    {
        if self.inside_call < usize::MAX {
            self.inside_call = self.inside_call + 1;
        }
    }

    /// Marks return from a function call; any pending return is consumed
    /// at this boundary.
    pub fn exit_call(&mut self)
        ensures
            final(self).inside_call == if old(self).inside_call > 0 {
                old(self).inside_call - 1
            } else {
                0int
            },
            final(self).should_return == false,
            final(self).should_break == old(self).should_break,
            final(self).should_continue == old(self).should_continue,
    {
        self.should_return = false;
        if self.inside_call > 0 {
            self.inside_call = self.inside_call - 1;
        }
    }

    /// Consumes a pending break.
    pub fn will_break(&mut self) -> (r: bool)
        ensures
            r == old(self).should_break,
            final(self).should_break == false,
            final(self).should_continue == old(self).should_continue,
            final(self).should_return == old(self).should_return,
            final(self).inside_call == old(self).inside_call,
    {
        let should_break = self.should_break;
        self.should_break = false;
        should_break
    }

    /// Consumes a pending continue.
    pub fn will_continue(&mut self) -> (r: bool)
        ensures
            r == old(self).should_continue,
            final(self).should_continue == false,
            final(self).should_break == old(self).should_break,
            final(self).should_return == old(self).should_return,
            final(self).inside_call == old(self).inside_call,
    {
        let should_continue = self.should_continue;
        self.should_continue = false;
        should_continue
    }
}

/// Whether a value's arena references stay inside the given arena sizes.
pub open spec fn value_v_wf(v: ValueV, nf: int, nc: int, ni: int) -> bool {
    match v {
        ValueV::Fun(id) => 0 <= id < nf,
        ValueV::Cls(id) => 0 <= id < nc,
        ValueV::Inst(id) => 0 <= id < ni,
        _ => true,
    }
}

/// Two's-complement truncated division on 64-bit signed values; the one
/// overflowing case wraps.
pub open spec fn spec_div_i64(a: int, b: int) -> int {
    let m = if a < 0 {
        -a
    } else {
        a
    };
    let n = if b < 0 {
        -b
    } else {
        b
    };
    let q = if (a < 0) != (b < 0) {
        -(m / n)
    } else {
        m / n
    };
    if q > i64::MAX {
        i64::MIN as int
    } else {
        q
    }
}

/// Two's-complement truncated remainder on 64-bit signed values, taking
/// the dividend's sign.
pub open spec fn spec_rem_i64(a: int, b: int) -> int {
    let m = if a < 0 {
        -a
    } else {
        a
    };
    let n = if b < 0 {
        -b
    } else {
        b
    };
    if a < 0 {
        -(m % n)
    } else {
        m % n
    }
}

/// Two's-complement negation; the minimum value wraps to itself.
pub open spec fn spec_neg_i64(a: int) -> int {
    if a == i64::MIN {
        a
    } else {
        -a
    }
}

/// The binary operator table. Arithmetic takes two numbers and wraps on
/// overflow; `+` also concatenates two strings; equality compares
/// numbers, strings, booleans or two nulls; ordering compares numbers by
/// value and strings by length. Every other combination is a type error,
/// and dividing by zero is its own error.
pub open spec fn spec_binary(op: BinOp, a: ValueV, b: ValueV) -> Result<ValueV, ErrorType> {
    match op {
        BinOp::Plus => match (a, b) {
            (ValueV::Num(x), ValueV::Num(y)) => Ok(
                ValueV::Num(vstd::wrapping::i64_specs::wrapping_add(x as i64, y as i64) as int),
            ),
            (ValueV::Str(x), ValueV::Str(y)) => Ok(ValueV::Str(x + y)),
            _ => Err(ErrorType::WrongType),
        },
        BinOp::Minus => match (a, b) {
            (ValueV::Num(x), ValueV::Num(y)) => Ok(
                ValueV::Num(vstd::wrapping::i64_specs::wrapping_sub(x as i64, y as i64) as int),
            ),
            _ => Err(ErrorType::WrongType),
        },
        BinOp::Star => match (a, b) {
            (ValueV::Num(x), ValueV::Num(y)) => Ok(
                ValueV::Num(vstd::wrapping::i64_specs::wrapping_mul(x as i64, y as i64) as int),
            ),
            _ => Err(ErrorType::WrongType),
        },
        BinOp::Divide => match (a, b) {
            (ValueV::Num(x), ValueV::Num(y)) => if y == 0 {
                Err(ErrorType::DivisionByZero)
            } else {
                Ok(ValueV::Num(spec_div_i64(x, y)))
            },
            _ => Err(ErrorType::WrongType),
        },
        BinOp::Modulo => match (a, b) {
            (ValueV::Num(x), ValueV::Num(y)) => if y == 0 {
                Err(ErrorType::DivisionByZero)
            } else {
                Ok(ValueV::Num(spec_rem_i64(x, y)))
            },
            _ => Err(ErrorType::WrongType),
        },
        BinOp::Compare => match (a, b) {
            (ValueV::Num(x), ValueV::Num(y)) => Ok(ValueV::Bool(x == y)),
            (ValueV::Str(x), ValueV::Str(y)) => Ok(ValueV::Bool(x == y)),
            (ValueV::Bool(x), ValueV::Bool(y)) => Ok(ValueV::Bool(x == y)),
            (ValueV::Null, ValueV::Null) => Ok(ValueV::Bool(true)),
            _ => Err(ErrorType::WrongType),
        },
        BinOp::BangEquals => match (a, b) {
            (ValueV::Num(x), ValueV::Num(y)) => Ok(ValueV::Bool(x != y)),
            (ValueV::Str(x), ValueV::Str(y)) => Ok(ValueV::Bool(x != y)),
            (ValueV::Bool(x), ValueV::Bool(y)) => Ok(ValueV::Bool(x != y)),
            (ValueV::Null, ValueV::Null) => Ok(ValueV::Bool(false)),
            _ => Err(ErrorType::WrongType),
        },
        BinOp::Less => match (a, b) {
            (ValueV::Num(x), ValueV::Num(y)) => Ok(ValueV::Bool(x < y)),
            (ValueV::Str(x), ValueV::Str(y)) => Ok(ValueV::Bool(x.len() < y.len())),
            _ => Err(ErrorType::WrongType),
        },
        BinOp::LessEquals => match (a, b) {
            (ValueV::Num(x), ValueV::Num(y)) => Ok(ValueV::Bool(x <= y)),
            (ValueV::Str(x), ValueV::Str(y)) => Ok(ValueV::Bool(x.len() <= y.len())),
            _ => Err(ErrorType::WrongType),
        },
        BinOp::Greater => match (a, b) {
            (ValueV::Num(x), ValueV::Num(y)) => Ok(ValueV::Bool(x > y)),
            (ValueV::Str(x), ValueV::Str(y)) => Ok(ValueV::Bool(x.len() > y.len())),
            _ => Err(ErrorType::WrongType),
        },
        BinOp::GreaterEquals => match (a, b) {
            (ValueV::Num(x), ValueV::Num(y)) => Ok(ValueV::Bool(x >= y)),
            (ValueV::Str(x), ValueV::Str(y)) => Ok(ValueV::Bool(x.len() >= y.len())),
            _ => Err(ErrorType::WrongType),
        },
    }
}

/// The unary operator table: numeric negation (wrapping) and boolean
/// negation by truthiness.
pub open spec fn spec_unary(op: UnaryOp, v: ValueV) -> Result<ValueV, ErrorType> {
    match op {
        UnaryOp::Minus => match v {
            ValueV::Num(x) => Ok(ValueV::Num(spec_neg_i64(x))),
            _ => Err(ErrorType::WrongType),
        },
        UnaryOp::Bang => Ok(ValueV::Bool(!truthy(v))),
    }
}

/// The logical connectives. Both operands are always evaluated before
/// this rule applies: `or` yields the left operand when it is truthy and
/// otherwise the right one; `and` yields the boolean conjunction of both
/// operands' truthiness.
pub open spec fn spec_logical(op: LogicalOp, a: ValueV, b: ValueV) -> ValueV {
    match op {
        LogicalOp::Or => if truthy(a) {
            a
        } else {
            b
        },
        LogicalOp::And => ValueV::Bool(truthy(a) && truthy(b)),
    }
}

/// Applies a binary operator to two evaluated operands, blaming `token`
/// for any fault.
pub fn apply_binary(op: BinOp, a: Value, b: Value, token: &Token) -> (r: Result<Value, Error>)
    ensures
        match spec_binary(op, a@, b@) {
            Ok(v) => r matches Ok(rv) && rv@ == v,
            Err(k) => r == Result::<Value, Error>::Err(Error { token: *token, error_type: k }),
        },
        r matches Ok(rv) ==> value_v_wf(rv@, 0, 0, 0),
{
    match op {
        BinOp::Plus => match (a, b) {
            (Value::Number(x), Value::Number(y)) => Ok(Value::Number(x.wrapping_add(y))),
            (Value::Str(x), Value::Str(y)) => Ok(Value::Str(x.concat(y.as_str()))),
            _ => error(token, ErrorType::WrongType),
        },
        BinOp::Minus => match (a, b) {
            (Value::Number(x), Value::Number(y)) => Ok(Value::Number(x.wrapping_sub(y))),
            _ => error(token, ErrorType::WrongType),
        },
        BinOp::Star => match (a, b) {
            (Value::Number(x), Value::Number(y)) => Ok(Value::Number(x.wrapping_mul(y))),
            _ => error(token, ErrorType::WrongType),
        },
        BinOp::Divide => match (a, b) {
            (Value::Number(x), Value::Number(y)) => {
                if y == 0 {
                    error(token, ErrorType::DivisionByZero)
                } else {
                    Ok(Value::Number(div_i64(x, y)))
                }
            },
            _ => error(token, ErrorType::WrongType),
        },
        BinOp::Modulo => match (a, b) {
            (Value::Number(x), Value::Number(y)) => {
                if y == 0 {
                    error(token, ErrorType::DivisionByZero)
                } else {
                    Ok(Value::Number(rem_i64(x, y)))
                }
            },
            _ => error(token, ErrorType::WrongType),
        },
        BinOp::Compare => match (a, b) {
            (Value::Number(x), Value::Number(y)) => Ok(Value::Boolean(x == y)),
            (Value::Str(x), Value::Str(y)) => Ok(Value::Boolean(x == y)),
            (Value::Boolean(x), Value::Boolean(y)) => Ok(Value::Boolean(x == y)),
            (Value::Null, Value::Null) => Ok(Value::Boolean(true)),
            _ => error(token, ErrorType::WrongType),
        },
        BinOp::BangEquals => match (a, b) {
            (Value::Number(x), Value::Number(y)) => Ok(Value::Boolean(x != y)),
            (Value::Str(x), Value::Str(y)) => Ok(Value::Boolean(x != y)),
            (Value::Boolean(x), Value::Boolean(y)) => Ok(Value::Boolean(x != y)),
            (Value::Null, Value::Null) => Ok(Value::Boolean(false)),
            _ => error(token, ErrorType::WrongType),
        },
        BinOp::Less => match (a, b) {
            (Value::Number(x), Value::Number(y)) => Ok(Value::Boolean(x < y)),
            (Value::Str(x), Value::Str(y)) => Ok(
                Value::Boolean(x.as_str().unicode_len() < y.as_str().unicode_len()),
            ),
            _ => error(token, ErrorType::WrongType),
        },
        BinOp::LessEquals => match (a, b) {
            (Value::Number(x), Value::Number(y)) => Ok(Value::Boolean(x <= y)),
            (Value::Str(x), Value::Str(y)) => Ok(
                Value::Boolean(x.as_str().unicode_len() <= y.as_str().unicode_len()),
            ),
            _ => error(token, ErrorType::WrongType),
        },
        BinOp::Greater => match (a, b) {
            (Value::Number(x), Value::Number(y)) => Ok(Value::Boolean(x > y)),
            (Value::Str(x), Value::Str(y)) => Ok(
                Value::Boolean(x.as_str().unicode_len() > y.as_str().unicode_len()),
            ),
            _ => error(token, ErrorType::WrongType),
        },
        BinOp::GreaterEquals => match (a, b) {
            (Value::Number(x), Value::Number(y)) => Ok(Value::Boolean(x >= y)),
            (Value::Str(x), Value::Str(y)) => Ok(
                Value::Boolean(x.as_str().unicode_len() >= y.as_str().unicode_len()),
            ),
            _ => error(token, ErrorType::WrongType),
        },
    }
}

/// Truncated 64-bit division, wrapping on the one overflowing case.
fn div_i64(a: i64, b: i64) -> (q: i64)
    requires
        b != 0,
    ensures
        q as int == spec_div_i64(a as int, b as int),
{
    let m = abs_u64(a);
    let n = abs_u64(b);
    let q = m / n;
    if (a < 0) != (b < 0) {
        if q == 0 {
            0
        } else {
            -(((q - 1) as i64)) - 1
        }
    } else {
        if q > i64::MAX as u64 {
            i64::MIN
        } else {
            q as i64
        }
    }
}

/// Truncated 64-bit remainder, taking the dividend's sign.
fn rem_i64(a: i64, b: i64) -> (r: i64)
    requires
        b != 0,
    ensures
        r as int == spec_rem_i64(a as int, b as int),
{
    let m = abs_u64(a);
    let n = abs_u64(b);
    let r = m % n;
    if a < 0 {
        if r == 0 {
            0
        } else {
            -(((r - 1) as i64)) - 1
        }
    } else {
        r as i64
    }
}

/// The magnitude of a signed value, exact even for the minimum.
fn abs_u64(a: i64) -> (m: u64)
    ensures
        m as int == if a < 0 {
            -(a as int)
        } else {
            a as int
        },
{
    if a >= 0 {
        a as u64
    } else {
        ((-(a + 1)) as u64) + 1
    }
}

/// Applies a unary operator to an evaluated operand.
pub fn apply_unary(op: UnaryOp, v: Value, token: &Token) -> (r: Result<Value, Error>)
    ensures
        match spec_unary(op, v@) {
            Ok(rv) => r matches Ok(x) && x@ == rv,
            Err(k) => r == Result::<Value, Error>::Err(Error { token: *token, error_type: k }),
        },
        r matches Ok(rv) ==> value_v_wf(rv@, 0, 0, 0),
{
    match op {
        UnaryOp::Minus => match v {
            Value::Number(x) => {
                if x == i64::MIN {
                    Ok(Value::Number(i64::MIN))
                } else {
                    Ok(Value::Number(-x))
                }
            },
            _ => error(token, ErrorType::WrongType),
        },
        UnaryOp::Bang => Ok(Value::Boolean(!v.to_bool())),
    }
}

/// Applies a logical connective to two evaluated operands.
pub fn apply_logical(op: LogicalOp, a: Value, b: Value) -> (r: Value)
    ensures
        r@ == spec_logical(op, a@, b@),
{
    match op {
        LogicalOp::Or => {
            if a.to_bool() {
                a
            } else {
                b
            }
        },
        LogicalOp::And => Value::Boolean(a.to_bool() && b.to_bool()),
    }
}


/// Whether a function value's references stay inside the given
/// environment and instance arena sizes.
pub open spec fn fun_v_wf(f: FunctionV, ne: int, ni: int) -> bool {
    match f {
        FunctionV::Native { .. } => true,
        FunctionV::Standard { this, closure, .. } => {
            &&& 0 <= closure < ne
            &&& match this {
                Some(t) => 0 <= t < ni,
                None => true,
            }
        },
    }
}

/// Whether every value bound in a frame stays inside the arenas.
pub open spec fn frame_vals_wf(fv: FrameV, nf: int, nc: int, ni: int) -> bool {
    forall|k: Seq<char>|
        #[trigger] fv.bindings.dom().contains(k) ==> value_v_wf(fv.bindings[k], nf, nc, ni)
}

/// Whether a class entry's references are sound: its superclass is an
/// older entry, its methods point into the function arena, and its
/// property values stay inside the arenas.
pub open spec fn class_refs_wf(c: ClassV, me: int, nf: int, nc: int, ni: int) -> bool {
    &&& match c.superclass {
        Some(j) => 0 <= j < me,
        None => true,
    }
    &&& forall|k: Seq<char>| #[trigger] c.methods.dom().contains(k) ==> c.methods[k] < nf
    &&& forall|k: Seq<char>|
        #[trigger] c.properties.dom().contains(k) ==> value_v_wf(c.properties[k], nf, nc, ni)
}

/// Whether an instance entry's references are sound.
pub open spec fn inst_refs_wf(iv: InstanceV, nf: int, nc: int, ni: int) -> bool {
    &&& 0 <= iv.class < nc
    &&& forall|k: Seq<char>|
        #[trigger] iv.properties.dom().contains(k) ==> value_v_wf(iv.properties[k], nf, nc, ni)
}

/// How a value renders for `print`: numbers in decimal, strings as
/// themselves, booleans and null by name, functions and classes and
/// instances by their display forms.
pub open spec fn spec_value_display(
    v: ValueV,
    funs: Seq<FunctionV>,
    classes: Seq<ClassV>,
    insts: Seq<InstanceV>,
) -> Seq<char> {
    match v {
        ValueV::Num(n) => spec_int_str(n),
        ValueV::Str(s) => s,
        ValueV::Bool(b) => if b {
            "true"@
        } else {
            "false"@
        },
        ValueV::Null => "null"@,
        ValueV::Fun(id) => if 0 <= id < funs.len() {
            spec_fun_display(funs[id])
        } else {
            Seq::empty()
        },
        ValueV::Cls(id) => if 0 <= id < classes.len() {
            classes[id].name
        } else {
            Seq::empty()
        },
        ValueV::Inst(id) => if 0 <= id < insts.len() && 0 <= insts[id].class < classes.len() {
            classes[insts[id].class].name + " instance"@
        } else {
            Seq::empty()
        },
    }
}

/// The evaluator. It owns the runtime scope chain, the arenas that back
/// function, class and instance values, the resolver's distance table,
/// the control-flow flags, and the sink that `print` writes to.
pub struct Interpreter {
    pub env: usize,
    pub envs: Environment,
    pub distances: Distances,
    pub state: State,
    pub functions: Vec<Function>,
    pub classes: Vec<Class>,
    pub instances: Vec<Instance>,
    pub output: Vec<String>,
}

impl Interpreter {
    /// The function arena as mathematical values.
    pub open spec fn funs_v(&self) -> Seq<FunctionV> {
        self.functions@.map_values(|f: Function| f@)
    }

    /// The class arena as mathematical values.
    pub open spec fn classes_v(&self) -> Seq<ClassV> {
        self.classes@.map_values(|c: Class| c@)
    }

    /// The instance arena as mathematical values.
    pub open spec fn insts_v(&self) -> Seq<InstanceV> {
        self.instances@.map_values(|i: Instance| i@)
    }

    /// Whether a value's references stay inside this evaluator's arenas.
    pub open spec fn value_ok(&self, v: ValueV) -> bool {
        value_v_wf(
            v,
            self.functions@.len() as int,
            self.classes@.len() as int,
            self.instances@.len() as int,
        )
    }

    /// The evaluator's global soundness invariant: the scope chain is
    /// well formed, the current frame exists, and every reference held in
    /// any frame, function, class or instance points inside the arenas.
    pub open spec fn wf(&self) -> bool {
        &&& self.envs.wf()
        &&& self.distances.wf()
        &&& (self.env as int) < self.envs@.len()
        &&& forall|i: int|
            0 <= i < self.envs@.len() ==> frame_vals_wf(
                #[trigger] self.envs@[i],
                self.functions@.len() as int,
                self.classes@.len() as int,
                self.instances@.len() as int,
            )
        &&& forall|i: int|
            0 <= i < self.funs_v().len() ==> fun_v_wf(
                #[trigger] self.funs_v()[i],
                self.envs@.len() as int,
                self.instances@.len() as int,
            )
        &&& forall|i: int| 0 <= i < self.classes@.len() ==> (#[trigger] self.classes@[i]).wf()
        &&& forall|i: int|
            0 <= i < self.classes_v().len() ==> class_refs_wf(
                #[trigger] self.classes_v()[i],
                i,
                self.functions@.len() as int,
                self.classes@.len() as int,
                self.instances@.len() as int,
            )
        &&& forall|i: int| 0 <= i < self.instances@.len() ==> (#[trigger] self.instances@[i]).wf()
        &&& forall|i: int|
            0 <= i < self.insts_v().len() ==> inst_refs_wf(
                #[trigger] self.insts_v()[i],
                self.functions@.len() as int,
                self.classes@.len() as int,
                self.instances@.len() as int,
            )
    }

    /// What every evaluation step preserves: the current frame and the
    /// distance table are restored, and the arenas only grow, so values
    /// obtained earlier keep pointing at what they pointed at.
    pub open spec fn upkeep(pre: Interpreter, post: Interpreter) -> bool {
        &&& post.env == pre.env
        &&& post.distances@ == pre.distances@
        &&& pre.envs@.len() <= post.envs@.len()
        &&& pre.functions@.len() <= post.functions@.len()
        &&& pre.classes@.len() <= post.classes@.len()
        &&& pre.instances@.len() <= post.instances@.len()
        &&& pre.output@.len() <= post.output@.len()
        &&& forall|i: int|
            0 <= i < pre.output@.len() ==> #[trigger] post.output@[i] == pre.output@[i]
    }

    /// A fresh evaluator: a root frame holding the one built-in function
    /// under the name `clock`, and an empty working frame above it.
    pub fn new() -> (it: Interpreter)
        ensures
            it.wf(),
            it.distances@ == Map::<SiteKey, usize>::empty(),
            it.output@ == Seq::<String>::empty(),
            it.state == (State {
                should_continue: false,
                should_break: false,
                should_return: false,
                inside_call: 0usize,
            }),
            it@ == initial_ictx(),
    {
        let mut envs = Environment::new();
        let mut functions: Vec<Function> = Vec::new();
        functions.push(Function::Native { arity: 0 });
        envs.define_or_update(0, &String::from_str("clock"), &Value::Function(0));
        let env = envs.from(0);
        let it = Interpreter {
            env,
            envs,
            distances: Distances::new(),
            state: State::new(),
            functions,
            classes: Vec::new(),
            instances: Vec::new(),
            output: Vec::new(),
        };
        proof {
            assert(it.funs_v().len() == 1);
            assert(it.funs_v()[0] == (FunctionV::Native { arity: 0int }));
            assert forall|i: int|
                0 <= i < it.envs@.len() implies frame_vals_wf(
                #[trigger] it.envs@[i],
                it.functions@.len() as int,
                it.classes@.len() as int,
                it.instances@.len() as int,
            ) by {
                assert forall|k: Seq<char>|
                    #[trigger] it.envs@[i].bindings.dom().contains(k) implies value_v_wf(
                    it.envs@[i].bindings[k],
                    it.functions@.len() as int,
                    it.classes@.len() as int,
                    it.instances@.len() as int,
                ) by {
                    assert(it.envs@[i].bindings[k] == ValueV::Fun(0));
                }
            }
            assert(it@.envs =~= initial_ictx().envs);
            assert(it@.functions =~= initial_ictx().functions);
            assert(it@ =~~= initial_ictx());
        }
        it
    }

    /// Installs a resolver's finished distance table.
    pub fn set_distances(&mut self, distances: Distances)
        requires
            old(self).wf(),
            distances.wf(),
        ensures
            final(self).wf(),
            final(self).distances@ == distances@,
            final(self).envs@ == old(self).envs@,
            final(self).env == old(self).env,
            final(self).functions@ == old(self).functions@,
            final(self).classes@ == old(self).classes@,
            final(self).instances@ == old(self).instances@,
            final(self).output@ == old(self).output@,
            final(self).state == old(self).state,
            final(self)@ == (ICtx { distances: distances@, ..old(self)@ }),
    {
        self.distances = distances;
        proof {
            lemma_frames_mono(*old(self), *self);
            lemma_funs_mono(*old(self), *self);
            lemma_classes_mono(*old(self), *self);
            lemma_insts_mono(*old(self), *self);
            assert forall|i: int| 0 <= i < self.classes@.len() implies (
            #[trigger] self.classes@[i]).wf() by {
                assert(self.classes@[i] == old(self).classes@[i]);
            }
            assert forall|i: int| 0 <= i < self.instances@.len() implies (
            #[trigger] self.instances@[i]).wf() by {
                assert(self.instances@[i] == old(self).instances@[i]);
            }
            assert(self@ =~~= (ICtx { distances: distances@, ..old(self)@ }));
        }
    }

    /// Records a resolved distance for a reference site.
    pub fn resolve_distance(&mut self, var: VarRef, depth: usize)
        requires
            old(self).wf(),
        ensures
            final(self).wf(),
            final(self).distances@ == old(self).distances@.insert(var@, depth),
            final(self).envs@ == old(self).envs@,
            final(self).env == old(self).env,
            final(self).functions@ == old(self).functions@,
            final(self).classes@ == old(self).classes@,
            final(self).instances@ == old(self).instances@,
            final(self).output@ == old(self).output@,
            final(self).state == old(self).state,
    {
        self.distances.insert(var, depth);
        proof {
            lemma_frames_mono(*old(self), *self);
            lemma_funs_mono(*old(self), *self);
            lemma_classes_mono(*old(self), *self);
            lemma_insts_mono(*old(self), *self);
        }
    }

    /// The recorded distance for a reference site, if any.
    fn get_distance(&self, var: &VarRef) -> (r: Option<usize>)
        requires
            self.wf(),
        ensures
            match r {
                Some(d) => self.distances@.contains_key(var@) && self.distances@[var@] == d,
                None => !self.distances@.contains_key(var@),
            },
    {
        self.distances.get(var)
    }

    /// Binds a name in the given frame, keeping the soundness invariant.
    fn def_var(&mut self, frame: usize, name: &String, value: &Value) -> (prev: Option<Value>)
        requires
            old(self).wf(),
            frame < old(self).envs@.len(),
            old(self).value_ok(value@),
        ensures
            final(self).wf(),
            final(self).env == old(self).env,
            final(self).distances@ == old(self).distances@,
            final(self).envs@.len() == old(self).envs@.len(),
            forall|i: int|
                0 <= i < final(self).envs@.len() && i != frame ==> final(self).envs@[i] == old(
                    self,
                ).envs@[i],
            final(self).envs@[frame as int].bindings == old(self).envs@[frame as int].bindings.insert(
                name@,
                value@,
            ),
            final(self).envs@[frame as int].enclosing == old(self).envs@[frame as int].enclosing,
            final(self).functions@ == old(self).functions@,
            final(self).classes@ == old(self).classes@,
            final(self).instances@ == old(self).instances@,
            final(self).output@ == old(self).output@,
            final(self).state == old(self).state,
            match prev {
                Some(p) => old(self).envs@[frame as int].bindings.contains_key(name@) && p@ == old(
                    self,
                ).envs@[frame as int].bindings[name@],
                None => !old(self).envs@[frame as int].bindings.contains_key(name@),
            },
            final(self)@ == i_def_var(old(self)@, frame as int, name@, value@),
    {
        let prev = self.envs.define_or_update(frame, name, value);
        proof {
            lemma_funs_mono(*old(self), *self);
            lemma_classes_mono(*old(self), *self);
            lemma_insts_mono(*old(self), *self);
            let nf = self.functions@.len() as int;
            let nc = self.classes@.len() as int;
            let ni = self.instances@.len() as int;
            assert forall|i: int|
                0 <= i < self.envs@.len() implies frame_vals_wf(
                #[trigger] self.envs@[i],
                nf,
                nc,
                ni,
            ) by {
                if i == frame {
                    assert forall|k: Seq<char>|
                        #[trigger] self.envs@[i].bindings.dom().contains(k) implies value_v_wf(
                        self.envs@[i].bindings[k],
                        nf,
                        nc,
                        ni,
                    ) by {
                        if k != name@ {
                            assert(old(self).envs@[i].bindings.dom().contains(k));
                        }
                    }
                } else {
                    assert(self.envs@[i] == old(self).envs@[i]);
                    assert(frame_vals_wf(old(self).envs@[i], nf, nc, ni));
                }
            }
            assert(self@.envs =~= i_def_var(old(self)@, frame as int, name@, value@).envs);
            assert(self@ =~~= i_def_var(old(self)@, frame as int, name@, value@));
        }
        prev
    }

    /// Opens a new frame enclosed by `enclosing`, keeping the invariant.
    fn new_frame(&mut self, enclosing: usize) -> (frame: usize)
        requires
            old(self).wf(),
            enclosing < old(self).envs@.len(),
        ensures
            final(self).wf(),
            final(self).env == old(self).env,
            final(self).distances@ == old(self).distances@,
            frame == old(self).envs@.len(),
            final(self).envs@.len() == old(self).envs@.len() + 1,
            forall|i: int|
                0 <= i < old(self).envs@.len() ==> final(self).envs@[i] == old(self).envs@[i],
            final(self).envs@[frame as int].bindings == Map::<Seq<char>, ValueV>::empty(),
            final(self).envs@[frame as int].enclosing == Some(enclosing as int),
            final(self)@ == i_new_frame(old(self)@, enclosing as int),
            final(self).functions@ == old(self).functions@,
            final(self).classes@ == old(self).classes@,
            final(self).instances@ == old(self).instances@,
            final(self).output@ == old(self).output@,
            final(self).state == old(self).state,
    {
        let frame = self.envs.from(enclosing);
        proof {
            lemma_funs_mono(*old(self), *self);
            lemma_classes_mono(*old(self), *self);
            lemma_insts_mono(*old(self), *self);
            let nf = self.functions@.len() as int;
            let nc = self.classes@.len() as int;
            let ni = self.instances@.len() as int;
            assert forall|i: int|
                0 <= i < self.envs@.len() implies frame_vals_wf(
                #[trigger] self.envs@[i],
                nf,
                nc,
                ni,
            ) by {
                if i < old(self).envs@.len() {
                    assert(self.envs@[i] == old(self).envs@[i]);
                    assert(frame_vals_wf(old(self).envs@[i], nf, nc, ni));
                }
            }
            assert(self@.envs =~= i_new_frame(old(self)@, enclosing as int).envs);
            assert(self@ =~~= i_new_frame(old(self)@, enclosing as int));
        }
        frame
    }

    /// Adds a function value to the arena and returns its index.
    fn add_function(&mut self, f: Function) -> (id: usize)
        requires
            old(self).wf(),
            fun_v_wf(f@, old(self).envs@.len() as int, old(self).instances@.len() as int),
        ensures
            final(self).wf(),
            final(self).env == old(self).env,
            final(self).distances@ == old(self).distances@,
            final(self).envs@ == old(self).envs@,
            id == old(self).functions@.len(),
            final(self).funs_v() == old(self).funs_v().push(f@),
            final(self).functions@.len() == old(self).functions@.len() + 1,
            final(self)@ == i_add_function(old(self)@, f@),
            final(self).classes@ == old(self).classes@,
            final(self).instances@ == old(self).instances@,
            final(self).output@ == old(self).output@,
            final(self).state == old(self).state,
    {
        let id = self.functions.len();
        let ghost gf = f;
        self.functions.push(f);
        proof {
            assert(self.funs_v() =~= old(self).funs_v().push(gf@));
            assert forall|i: int|
                0 <= i < self.funs_v().len() implies fun_v_wf(
                #[trigger] self.funs_v()[i],
                self.envs@.len() as int,
                self.instances@.len() as int,
            ) by {
                if i < old(self).funs_v().len() {
                    assert(self.funs_v()[i] == old(self).funs_v()[i]);
                    assert(fun_v_wf(
                        old(self).funs_v()[i],
                        old(self).envs@.len() as int,
                        old(self).instances@.len() as int,
                    ));
                }
            }
            let nf = self.functions@.len() as int;
            let nc = self.classes@.len() as int;
            let ni = self.instances@.len() as int;
            assert forall|i: int|
                0 <= i < self.envs@.len() implies frame_vals_wf(
                #[trigger] self.envs@[i],
                nf,
                nc,
                ni,
            ) by {
                assert(frame_vals_wf(self.envs@[i], nf - 1, nc, ni));
            }
            assert forall|i: int|
                0 <= i < self.classes_v().len() implies class_refs_wf(
                #[trigger] self.classes_v()[i],
                i,
                nf,
                nc,
                ni,
            ) by {
                assert(class_refs_wf(old(self).classes_v()[i], i, nf - 1, nc, ni));
            }
            assert forall|i: int|
                0 <= i < self.insts_v().len() implies inst_refs_wf(
                #[trigger] self.insts_v()[i],
                nf,
                nc,
                ni,
            ) by {
                assert(inst_refs_wf(old(self).insts_v()[i], nf - 1, nc, ni));
            }
            assert(self@ =~~= i_add_function(old(self)@, gf@));
        }
        id
    }

    /// Adds a class to the arena and returns its index.
    fn add_class(&mut self, c: Class) -> (id: usize)
        requires
            old(self).wf(),
            c.wf(),
            class_refs_wf(
                c@,
                old(self).classes@.len() as int,
                old(self).functions@.len() as int,
                old(self).classes@.len() as int + 1,
                old(self).instances@.len() as int,
            ),
        ensures
            final(self).wf(),
            final(self).env == old(self).env,
            final(self).distances@ == old(self).distances@,
            final(self).envs@ == old(self).envs@,
            id == old(self).classes@.len(),
            final(self).classes_v() == old(self).classes_v().push(c@),
            final(self).classes@.len() == old(self).classes@.len() + 1,
            final(self)@ == i_add_class(old(self)@, c@),
            final(self).functions@ == old(self).functions@,
            final(self).instances@ == old(self).instances@,
            final(self).output@ == old(self).output@,
            final(self).state == old(self).state,
    {
        let id = self.classes.len();
        let ghost gc = c;
        self.classes.push(c);
        proof {
            assert(self.classes_v() =~= old(self).classes_v().push(gc@));
            lemma_funs_mono(*old(self), *self);
            let nf = self.functions@.len() as int;
            let nc = self.classes@.len() as int;
            let ni = self.instances@.len() as int;
            assert forall|i: int|
                0 <= i < self.envs@.len() implies frame_vals_wf(
                #[trigger] self.envs@[i],
                nf,
                nc,
                ni,
            ) by {
                assert(frame_vals_wf(self.envs@[i], nf, nc - 1, ni));
            }
            assert forall|i: int|
                0 <= i < self.classes_v().len() implies class_refs_wf(
                #[trigger] self.classes_v()[i],
                i,
                nf,
                nc,
                ni,
            ) by {
                if i < id {
                    assert(class_refs_wf(old(self).classes_v()[i], i, nf, nc - 1, ni));
                }
            }
            assert forall|i: int|
                0 <= i < self.insts_v().len() implies inst_refs_wf(
                #[trigger] self.insts_v()[i],
                nf,
                nc,
                ni,
            ) by {
                assert(inst_refs_wf(old(self).insts_v()[i], nf, nc - 1, ni));
            }
            assert(self@ =~~= i_add_class(old(self)@, gc@));
        }
        id
    }

    /// Adds an instance to the arena and returns its index.
    fn add_instance(&mut self, inst: Instance) -> (id: usize)
        requires
            old(self).wf(),
            inst.wf(),
            inst_refs_wf(
                inst@,
                old(self).functions@.len() as int,
                old(self).classes@.len() as int,
                old(self).instances@.len() as int,
            ),
        ensures
            final(self).wf(),
            final(self).env == old(self).env,
            final(self).distances@ == old(self).distances@,
            final(self).envs@ == old(self).envs@,
            id == old(self).instances@.len(),
            final(self).insts_v() == old(self).insts_v().push(inst@),
            final(self).instances@.len() == old(self).instances@.len() + 1,
            final(self)@ == i_add_instance(old(self)@, inst@),
            final(self).functions@ == old(self).functions@,
            final(self).classes@ == old(self).classes@,
            final(self).output@ == old(self).output@,
            final(self).state == old(self).state,
    {
        let id = self.instances.len();
        let ghost gi = inst;
        self.instances.push(inst);
        proof {
            assert(self.insts_v() =~= old(self).insts_v().push(gi@));
            let nf = self.functions@.len() as int;
            let nc = self.classes@.len() as int;
            let ni = self.instances@.len() as int;
            assert forall|i: int|
                0 <= i < self.envs@.len() implies frame_vals_wf(
                #[trigger] self.envs@[i],
                nf,
                nc,
                ni,
            ) by {
                assert(frame_vals_wf(self.envs@[i], nf, nc, ni - 1));
            }
            assert forall|i: int|
                0 <= i < self.funs_v().len() implies fun_v_wf(
                #[trigger] self.funs_v()[i],
                self.envs@.len() as int,
                ni,
            ) by {
                assert(fun_v_wf(old(self).funs_v()[i], self.envs@.len() as int, ni - 1));
            }
            assert forall|i: int|
                0 <= i < self.classes_v().len() implies class_refs_wf(
                #[trigger] self.classes_v()[i],
                i,
                nf,
                nc,
                ni,
            ) by {
                assert(class_refs_wf(old(self).classes_v()[i], i, nf, nc, ni - 1));
            }
            assert forall|i: int|
                0 <= i < self.insts_v().len() implies inst_refs_wf(
                #[trigger] self.insts_v()[i],
                nf,
                nc,
                ni,
            ) by {
                if i < id {
                    assert(inst_refs_wf(old(self).insts_v()[i], nf, nc, ni - 1));
                }
            }
            assert(self@ =~~= i_add_instance(old(self)@, gi@));
        }
        id
    }

    /// Writes a property on an instance, keeping the invariant.
    fn set_instance(&mut self, id: usize, name: &String, value: &Value)
        requires
            old(self).wf(),
            id < old(self).instances@.len(),
            old(self).value_ok(value@),
        ensures
            final(self).wf(),
            final(self).env == old(self).env,
            final(self).distances@ == old(self).distances@,
            final(self).envs@ == old(self).envs@,
            final(self).functions@ == old(self).functions@,
            final(self).classes@ == old(self).classes@,
            final(self).instances@.len() == old(self).instances@.len(),
            forall|i: int|
                0 <= i < final(self).instances@.len() && i != id ==> final(self).insts_v()[i] == old(
                    self,
                ).insts_v()[i],
            final(self).insts_v()[id as int] == (InstanceV {
                properties: old(self).insts_v()[id as int].properties.insert(name@, value@),
                ..old(self).insts_v()[id as int]
            }),
            final(self)@ == i_set_instance(old(self)@, id as int, name@, value@),
            final(self).output@ == old(self).output@,
            final(self).state == old(self).state,
    {
        let inst = &mut self.instances[id];
        inst.set(name, value);
        proof {
            lemma_frames_mono(*old(self), *self);
            lemma_funs_mono(*old(self), *self);
            lemma_classes_mono(*old(self), *self);
            let nf = self.functions@.len() as int;
            let nc = self.classes@.len() as int;
            let ni = self.instances@.len() as int;
            assert(self.insts_v() =~= old(self).insts_v().update(
                id as int,
                InstanceV {
                    properties: old(self).insts_v()[id as int].properties.insert(name@, value@),
                    ..old(self).insts_v()[id as int]
                },
            ));
            assert forall|i: int|
                0 <= i < self.insts_v().len() implies inst_refs_wf(
                #[trigger] self.insts_v()[i],
                nf,
                nc,
                ni,
            ) by {
                if i == id {
                    assert(inst_refs_wf(old(self).insts_v()[i], nf, nc, ni));
                    assert forall|k: Seq<char>|
                        #[trigger] self.insts_v()[i].properties.dom().contains(k) implies value_v_wf(
                        self.insts_v()[i].properties[k],
                        nf,
                        nc,
                        ni,
                    ) by {
                        if k != name@ {
                            assert(old(self).insts_v()[i].properties.dom().contains(k));
                        }
                    }
                } else {
                    assert(self.insts_v()[i] == old(self).insts_v()[i]);
                    assert(inst_refs_wf(old(self).insts_v()[i], nf, nc, ni));
                }
            }
            assert forall|i: int| 0 <= i < self.instances@.len() implies (
            #[trigger] self.instances@[i]).wf() by {
                if i != id {
                    assert(self.instances@[i] == old(self).instances@[i]);
                }
            }
            assert(self@ =~~= i_set_instance(old(self)@, id as int, name@, value@));
        }
    }
}

/// A value found anywhere along a well-formed chain stays inside the
/// arenas.
proof fn lemma_lookup_chain_wf(
    env: Seq<FrameV>,
    frame: int,
    name: Seq<char>,
    nf: int,
    nc: int,
    ni: int,
)
    requires
        forall|i: int| 0 <= i < env.len() ==> frame_vals_wf(#[trigger] env[i], nf, nc, ni),
    ensures
        match spec_lookup_chain(env, frame, name) {
            Some(v) => value_v_wf(v, nf, nc, ni),
            None => true,
        },
    decreases frame,
{
    if 0 <= frame < env.len() && !env[frame].bindings.contains_key(name) {
        match env[frame].enclosing {
            Some(j) => {
                if 0 <= j < frame {
                    lemma_lookup_chain_wf(env, j, name, nf, nc, ni);
                }
            },
            None => {},
        }
    }
}

/// A method found along a superclass chain is a sound function index.
proof fn lemma_find_method_wf(classes: Seq<ClassV>, ci: int, name: Seq<char>, nf: int, nc: int, ni: int)
    requires
        forall|i: int|
            0 <= i < classes.len() ==> class_refs_wf(#[trigger] classes[i], i, nf, nc, ni),
    ensures
        match spec_find_method(classes, ci, name) {
            Some(f) => f < nf,
            None => true,
        },
    decreases ci,
{
    if 0 <= ci < classes.len() && !classes[ci].methods.contains_key(name) {
        match classes[ci].superclass {
            Some(j) => {
                if 0 <= j < ci {
                    lemma_find_method_wf(classes, j, name, nf, nc, ni);
                }
            },
            None => {},
        }
    }
}


/// Frames stay sound when the arenas only grow.
proof fn lemma_frames_mono(pre: Interpreter, post: Interpreter)
    requires
        forall|i: int|
            0 <= i < pre.envs@.len() ==> frame_vals_wf(
                #[trigger] pre.envs@[i],
                pre.functions@.len() as int,
                pre.classes@.len() as int,
                pre.instances@.len() as int,
            ),
        post.envs@ == pre.envs@,
        pre.functions@.len() <= post.functions@.len(),
        pre.classes@.len() <= post.classes@.len(),
        pre.instances@.len() <= post.instances@.len(),
    ensures
        forall|i: int|
            0 <= i < post.envs@.len() ==> frame_vals_wf(
                #[trigger] post.envs@[i],
                post.functions@.len() as int,
                post.classes@.len() as int,
                post.instances@.len() as int,
            ),
{
    assert forall|i: int|
        0 <= i < post.envs@.len() implies frame_vals_wf(
        #[trigger] post.envs@[i],
        post.functions@.len() as int,
        post.classes@.len() as int,
        post.instances@.len() as int,
    ) by {
        assert(frame_vals_wf(
            pre.envs@[i],
            pre.functions@.len() as int,
            pre.classes@.len() as int,
            pre.instances@.len() as int,
        ));
        assert forall|k: Seq<char>|
            #[trigger] post.envs@[i].bindings.dom().contains(k) implies value_v_wf(
            post.envs@[i].bindings[k],
            post.functions@.len() as int,
            post.classes@.len() as int,
            post.instances@.len() as int,
        ) by {
            assert(value_v_wf(
                pre.envs@[i].bindings[k],
                pre.functions@.len() as int,
                pre.classes@.len() as int,
                pre.instances@.len() as int,
            ));
        }
    }
}

/// Function entries stay sound when the chain and the instance arena
/// only grow.
proof fn lemma_funs_mono(pre: Interpreter, post: Interpreter)
    requires
        forall|i: int|
            0 <= i < pre.funs_v().len() ==> fun_v_wf(
                #[trigger] pre.funs_v()[i],
                pre.envs@.len() as int,
                pre.instances@.len() as int,
            ),
        post.functions@ == pre.functions@,
        pre.envs@.len() <= post.envs@.len(),
        pre.instances@.len() <= post.instances@.len(),
    ensures
        forall|i: int|
            0 <= i < post.funs_v().len() ==> fun_v_wf(
                #[trigger] post.funs_v()[i],
                post.envs@.len() as int,
                post.instances@.len() as int,
            ),
{
    assert forall|i: int|
        0 <= i < post.funs_v().len() implies fun_v_wf(
        #[trigger] post.funs_v()[i],
        post.envs@.len() as int,
        post.instances@.len() as int,
    ) by {
        assert(post.funs_v()[i] == pre.funs_v()[i]);
        assert(fun_v_wf(pre.funs_v()[i], pre.envs@.len() as int, pre.instances@.len() as int));
    }
}

/// Class entries stay sound when the arenas only grow.
proof fn lemma_classes_mono(pre: Interpreter, post: Interpreter)
    requires
        forall|i: int|
            0 <= i < pre.classes_v().len() ==> class_refs_wf(
                #[trigger] pre.classes_v()[i],
                i,
                pre.functions@.len() as int,
                pre.classes@.len() as int,
                pre.instances@.len() as int,
            ),
        post.classes@ == pre.classes@,
        pre.functions@.len() <= post.functions@.len(),
        pre.instances@.len() <= post.instances@.len(),
    ensures
        forall|i: int|
            0 <= i < post.classes_v().len() ==> class_refs_wf(
                #[trigger] post.classes_v()[i],
                i,
                post.functions@.len() as int,
                post.classes@.len() as int,
                post.instances@.len() as int,
            ),
{
    assert forall|i: int|
        0 <= i < post.classes_v().len() implies class_refs_wf(
        #[trigger] post.classes_v()[i],
        i,
        post.functions@.len() as int,
        post.classes@.len() as int,
        post.instances@.len() as int,
    ) by {
        assert(post.classes_v()[i] == pre.classes_v()[i]);
        assert(class_refs_wf(
            pre.classes_v()[i],
            i,
            pre.functions@.len() as int,
            pre.classes@.len() as int,
            pre.instances@.len() as int,
        ));
        assert forall|k: Seq<char>|
            #[trigger] post.classes_v()[i].properties.dom().contains(k) implies value_v_wf(
            post.classes_v()[i].properties[k],
            post.functions@.len() as int,
            post.classes@.len() as int,
            post.instances@.len() as int,
        ) by {
            assert(value_v_wf(
                pre.classes_v()[i].properties[k],
                pre.functions@.len() as int,
                pre.classes@.len() as int,
                pre.instances@.len() as int,
            ));
        }
    }
}

/// Instance entries stay sound when the arenas only grow.
proof fn lemma_insts_mono(pre: Interpreter, post: Interpreter)
    requires
        forall|i: int|
            0 <= i < pre.insts_v().len() ==> inst_refs_wf(
                #[trigger] pre.insts_v()[i],
                pre.functions@.len() as int,
                pre.classes@.len() as int,
                pre.instances@.len() as int,
            ),
        post.instances@ == pre.instances@,
        pre.functions@.len() <= post.functions@.len(),
        pre.classes@.len() <= post.classes@.len(),
    ensures
        forall|i: int|
            0 <= i < post.insts_v().len() ==> inst_refs_wf(
                #[trigger] post.insts_v()[i],
                post.functions@.len() as int,
                post.classes@.len() as int,
                post.instances@.len() as int,
            ),
{
    assert forall|i: int|
        0 <= i < post.insts_v().len() implies inst_refs_wf(
        #[trigger] post.insts_v()[i],
        post.functions@.len() as int,
        post.classes@.len() as int,
        post.instances@.len() as int,
    ) by {
        assert(post.insts_v()[i] == pre.insts_v()[i]);
        assert(inst_refs_wf(
            pre.insts_v()[i],
            pre.functions@.len() as int,
            pre.classes@.len() as int,
            pre.instances@.len() as int,
        ));
        assert forall|k: Seq<char>|
            #[trigger] post.insts_v()[i].properties.dom().contains(k) implies value_v_wf(
            post.insts_v()[i].properties[k],
            post.functions@.len() as int,
            post.classes@.len() as int,
            post.instances@.len() as int,
        ) by {
            assert(value_v_wf(
                pre.insts_v()[i].properties[k],
                pre.functions@.len() as int,
                pre.classes@.len() as int,
                pre.instances@.len() as int,
            ));
        }
    }
}


/// A function value rebound to a receiver, as [`Function::bind`] builds
/// it.
pub open spec fn spec_bound(f: FunctionV, inst: int) -> FunctionV {
    match f {
        FunctionV::Standard { params, name, body, token, closure, .. } => {
            FunctionV::Standard { params, name, body, token, this: Some(inst), closure }
        },
        FunctionV::Native { arity } => FunctionV::Native { arity },
    }
}

/// What every evaluation step guarantees: the invariant holds afterwards,
/// the step kept the current frame and distance table and only grew the
/// arenas, and a produced value points inside them.
pub open spec fn eval_post(pre: Interpreter, post: Interpreter, r: Result<Value, Error>) -> bool {
    &&& post.wf()
    &&& Interpreter::upkeep(pre, post)
    &&& match r {
        Ok(v) => post.value_ok(v@),
        Err(_) => true,
    }
}

impl Interpreter {
    /// Reads a variable at a reference site: by the resolver's distance
    /// when one was recorded, and otherwise by walking the whole chain;
    /// a name found neither way is an undefined-variable error.
    fn lookup_variable(&self, var: &VarRef) -> (r: Result<Value, Error>)
        requires
            self.wf(),
        ensures
            r matches Ok(v) ==> self.value_ok(v@),
            result_matches(r, e_lookup_variable(self@, var.token, var@.name)),
    {
        match self.get_distance(var) {
            Some(d) => {
                match self.envs.ancestor(self.env, d) {
                    Some(a) => {
                        proof {
                            assert(frame_vals_wf(
                                self.envs@[a as int],
                                self.functions@.len() as int,
                                self.classes@.len() as int,
                                self.instances@.len() as int,
                            ));
                        }
                        match self.envs.get(a, &var.name) {
                            Some(v) => Ok(v),
                            None => Err(
                                Error {
                                    token: var.token,
                                    error_type: ErrorType::UndefinedVariable,
                                },
                            ),
                        }
                    },
                    None => Err(
                        Error { token: var.token, error_type: ErrorType::InternalFault },
                    ),
                }
            },
            None => {
                proof {
                    lemma_lookup_chain_wf(
                        self.envs@,
                        self.env as int,
                        var@.name,
                        self.functions@.len() as int,
                        self.classes@.len() as int,
                        self.instances@.len() as int,
                    );
                }
                match self.envs.get_deep(self.env, &var.name) {
                    Some(v) => Ok(v),
                    None => Err(
                        Error { token: var.token, error_type: ErrorType::UndefinedVariable },
                    ),
                }
            },
        }
    }

    /// Reads one of the chain-resolved names, `this` or `super`, by
    /// walking the whole chain from the current frame.
    fn lookup_deep(&self, name: &String, token: &Token) -> (r: Result<Value, Error>)
        requires
            self.wf(),
        ensures
            r matches Ok(v) ==> self.value_ok(v@),
            result_matches(r, e_lookup_deep(self@, *token, name@)),
    {
        proof {
            lemma_lookup_chain_wf(
                self.envs@,
                self.env as int,
                name@,
                self.functions@.len() as int,
                self.classes@.len() as int,
                self.instances@.len() as int,
            );
        }
        match self.envs.get_deep(self.env, name) {
            Some(v) => Ok(v),
            None => Err(Error { token: *token, error_type: ErrorType::UndefinedVariable }),
        }
    }

    /// Reads a property off an instance: the instance's own value first,
    /// then a method found along the class chain, bound to the instance
    /// as a fresh function value; failing both is an error.
    #[verifier::spinoff_prover]
    fn get_property(&mut self, inst: usize, name: &String, token: &Token) -> (r: Result<
        Value,
        Error,
    >)
        requires
            old(self).wf(),
            inst < old(self).instances@.len(),
        ensures
            eval_post(*old(self), *final(self), r),
            ({
                let m = e_get_property(old(self)@, inst as int, *token, name@);
                final(self)@ == m.ctx && result_matches(r, m.r)
            }),
    {
        proof {
            assert(self.instances@[inst as int].wf());
            assert(self.insts_v()[inst as int] == self.instances@[inst as int]@);
            assert(inst_refs_wf(
                self.insts_v()[inst as int],
                self.functions@.len() as int,
                self.classes@.len() as int,
                self.instances@.len() as int,
            ));
            lemma_classes_chain_wf(*self);
        }
        let found = self.instances[inst].get_property(name);
        match found {
            Some(v) => Ok(v),
            None => {
                let cid = self.instances[inst].class_id();
                let m = self.classes[cid].find_method(cid, &self.classes, name);
                proof {
                    lemma_find_method_wf(
                        self.classes_v(),
                        cid as int,
                        name@,
                        self.functions@.len() as int,
                        self.classes@.len() as int,
                        self.instances@.len() as int,
                    );
                }
                match m {
                    Some(fid) => {
                        proof {
                            assert(self.functions@[fid as int]@ == self.funs_v()[fid as int]);
                            assert(fun_v_wf(
                                self.funs_v()[fid as int],
                                self.envs@.len() as int,
                                self.instances@.len() as int,
                            ));
                        }
                        let bound = self.functions[fid].bind(inst);
                        let id = self.add_function(bound);
                        Ok(Value::Function(id))
                    },
                    None => Err(
                        Error { token: *token, error_type: ErrorType::PropertyDoesntExist },
                    ),
                }
            },
        }
    }

    /// Renders a value as `print` shows it.
    pub fn value_to_string(&self, v: &Value) -> (s: String)
        requires
            self.wf(),
            self.value_ok(v@),
        ensures
            s@ == spec_value_display(v@, self.funs_v(), self.classes_v(), self.insts_v()),
    {
        match v {
            Value::Number(n) => i64_to_string(*n),
            Value::Str(st) => st.clone(),
            Value::Boolean(b) => {
                if *b {
                    String::from_str("true")
                } else {
                    String::from_str("false")
                }
            },
            Value::Null => String::from_str("null"),
            Value::Function(id) => self.functions[*id].to_string(),
            Value::Class(id) => self.classes[*id].to_string(),
            Value::Instance(id) => {
                proof {
                    assert(self.insts_v()[*id as int] == self.instances@[*id as int]@);
                    assert(inst_refs_wf(
                        self.insts_v()[*id as int],
                        self.functions@.len() as int,
                        self.classes@.len() as int,
                        self.instances@.len() as int,
                    ));
                }
                let cid = self.instances[*id].class_id();
                self.instances[*id].to_string(&self.classes[cid])
            },
        }
    }

    /// Evaluates one expression with the given depth budget.
    #[verifier::spinoff_prover]
    fn eval_expr(&mut self, e: &Expr, fuel: u64) -> (r: Result<Value, Error>)
        requires
            old(self).wf(),
        ensures
            eval_post(*old(self), *final(self), r),
            ({
                let m = e_expr(old(self)@, *e, fuel);
                final(self)@ == m.ctx && result_matches(r, m.r)
            }),
        decreases fuel, 1nat,
    {
        if fuel == 0 {
            return Err(
                Error { token: Token::new(0, 0, 0), error_type: ErrorType::ExecutionLimitReached },
            );
        }
        match e {
            Expr::Literal { value } => Ok(Value::new(value)),
            Expr::Binary { left, op, right, token } => self.visit_binary(
                left,
                *op,
                right,
                token,
                fuel,
            ),
            Expr::Unary { op, expr, token } => self.visit_unary(*op, expr, token, fuel),
            Expr::Grouping { expr } => self.eval_expr(expr, fuel - 1),
            Expr::Var { name, token } => self.lookup_variable(&VarRef::new(token, name)),
            Expr::Assign { name, expr, token } => self.visit_assignment(name, expr, token, fuel),
            Expr::Logical { left, op, right, .. } => self.visit_logical(left, *op, right, fuel),
            Expr::Call { callee, token, arguments } => self.visit_call(
                callee,
                token,
                arguments,
                fuel,
            ),
            Expr::Closure { params, body, name, token } => self.visit_closure(
                params,
                body,
                name,
                token,
            ),
            Expr::Get { name, token, expr } => self.visit_get(name, token, expr, fuel),
            Expr::SetProp { name, token, value, obj } => self.visit_set_prop(
                name,
                token,
                value,
                obj,
                fuel,
            ),
            Expr::This { token } => self.lookup_deep(&String::from_str("this"), token),
            Expr::Super { token, method_name } => self.visit_super(token, method_name),
        }
    }

    /// Evaluates a binary expression: both operands, left first, then
    /// the operator table.
    #[verifier::spinoff_prover]
    fn visit_binary(&mut self, left: &Expr, op: BinOp, right: &Expr, token: &Token, fuel: u64) -> (r:
        Result<Value, Error>)
        requires
            old(self).wf(),
            fuel >= 1,
        ensures
            eval_post(*old(self), *final(self), r),
            ({
                let m = e_binary(old(self)@, *left, op, *right, *token, fuel);
                final(self)@ == m.ctx && result_matches(r, m.r)
            }),
        decreases fuel, 0nat,
    {
        let a = self.eval_expr(left, fuel - 1)?;
        let b = self.eval_expr(right, fuel - 1)?;
        apply_binary(op, a, b, token)
    }

    /// Evaluates a unary expression: the operand, then the operator
    /// table.
    #[verifier::spinoff_prover]
    fn visit_unary(&mut self, op: UnaryOp, expr: &Expr, token: &Token, fuel: u64) -> (r: Result<
        Value,
        Error,
    >)
        requires
            old(self).wf(),
            fuel >= 1,
        ensures
            eval_post(*old(self), *final(self), r),
            ({
                let m = e_unary(old(self)@, op, *expr, *token, fuel);
                final(self)@ == m.ctx && result_matches(r, m.r)
            }),
        decreases fuel, 0nat,
    {
        let v = self.eval_expr(expr, fuel - 1)?;
        apply_unary(op, v, token)
    }

    /// Evaluates an assignment: the right-hand side, then the write at
    /// the site's resolved distance.
    #[verifier::spinoff_prover]
    fn visit_assignment(&mut self, name: &String, expr: &Expr, token: &Token, fuel: u64) -> (r:
        Result<Value, Error>)
        requires
            old(self).wf(),
            fuel >= 1,
        ensures
            eval_post(*old(self), *final(self), r),
            ({
                let m = e_assign_expr(old(self)@, name@, *expr, *token, fuel);
                final(self)@ == m.ctx && result_matches(r, m.r)
            }),
        decreases fuel, 0nat,
    {
        let value = self.eval_expr(expr, fuel - 1)?;
        let var = VarRef::new(token, name);
        match self.get_distance(&var) {
            Some(d) => self.assign_var(name, &value, d, token),
            None => Err(Error { token: *token, error_type: ErrorType::UndefinedVariable }),
        }
    }

    /// Evaluates a logical connective: both operands are always
    /// evaluated, left first, before the connective's table applies.
    #[verifier::spinoff_prover]
    fn visit_logical(&mut self, left: &Expr, op: LogicalOp, right: &Expr, fuel: u64) -> (r: Result<
        Value,
        Error,
    >)
        requires
            old(self).wf(),
            fuel >= 1,
        ensures
            eval_post(*old(self), *final(self), r),
            ({
                let m = e_logical(old(self)@, *left, op, *right, fuel);
                final(self)@ == m.ctx && result_matches(r, m.r)
            }),
        decreases fuel, 0nat,
    {
        let a = self.eval_expr(left, fuel - 1)?;
        let b = self.eval_expr(right, fuel - 1)?;
        Ok(apply_logical(op, a, b))
    }

    /// Evaluates a call: the callee, every argument left to right, the
    /// dispatch on the callee's kind, and the call boundary's exit.
    #[verifier::loop_isolation(false)]
    #[verifier::spinoff_prover]
    fn visit_call(&mut self, callee: &Expr, token: &Token, arguments: &Vec<Expr>, fuel: u64) -> (r:
        Result<Value, Error>)
        requires
            old(self).wf(),
            fuel >= 1,
        ensures
            eval_post(*old(self), *final(self), r),
            ({
                let m = e_call(old(self)@, *callee, *token, arguments@, fuel);
                final(self)@ == m.ctx && result_matches(r, m.r)
            }),
        decreases fuel, 0nat,
    {
        let callee_val = self.eval_expr(callee, fuel - 1)?;
        let mut args: Vec<Value> = Vec::new();
        let n = arguments.len();
        let ghost mid = *self;
        proof {
            assert(arguments@.subrange(0, 0) =~= Seq::<Expr>::empty());
            assert(vals_view(args@) =~= Seq::<ValueV>::empty());
            assert(e_args(mid@, arguments@.subrange(0, 0), fuel) =~~= (ArgsOut {
                ctx: mid@,
                r: Ok(vals_view(args@)),
            }));
        }
        for i in 0..n
            invariant
                self.wf(),
                Interpreter::upkeep(mid, *self),
                forall|j: int| 0 <= j < args@.len() ==> self.value_ok(#[trigger] args@[j]@),
                e_args(mid@, arguments@.subrange(0, i as int), fuel) == (ArgsOut {
                    ctx: self@,
                    r: Ok(vals_view(args@)),
                }),
            decreases n - i,
        {
            let ghost prefix = arguments@.subrange(0, i as int);
            let ghost vals0 = args@;
            match self.eval_expr(&arguments[i], fuel - 1) {
                Ok(v) => {
                    args.push(v);
                    proof {
                        let next = arguments@.subrange(0, i + 1);
                        assert(next.drop_last() =~= prefix);
                        assert(next.last() == arguments@[i as int]);
                        assert(vals_view(args@) =~= vals_view(vals0).push(v@));
                        assert(e_args(mid@, next, fuel) =~~= (ArgsOut {
                            ctx: self@,
                            r: Ok(vals_view(args@)),
                        }));
                    }
                },
                Err(e) => {
                    proof {
                        let next = arguments@.subrange(0, i + 1);
                        assert(next.drop_last() =~= prefix);
                        assert(next.last() == arguments@[i as int]);
                        lemma_e_args_err_stable(mid@, arguments@, fuel, i + 1);
                    }
                    return Err(e);
                },
            }
        }
        proof {
            assert(arguments@.subrange(0, n as int) =~= arguments@);
        }
        let result = match callee_val {
            Value::Function(id) => {
                let ghost pre_enter = *self;
                self.state.enter_call();
                proof {
                    lemma_wf_unchanged_arenas(pre_enter, *self);
                    assert(self.state == flow_enter_call(pre_enter.state));
                    assert(self@ =~~= (ICtx {
                        state: flow_enter_call(pre_enter@.state),
                        ..pre_enter@
                    }));
                }
                self.call_function(id, &args, fuel - 1)
            },
            Value::Class(id) => self.call_class(id, &args, token, fuel - 1),
            _ => error(token, ErrorType::ValueNotCallable),
        };
        let ghost pre_exit = *self;
        self.state.exit_call();
        proof {
            lemma_wf_unchanged_arenas(pre_exit, *self);
            assert(self.state == flow_exit_call(pre_exit.state));
            assert(self@ =~~= (ICtx { state: flow_exit_call(pre_exit@.state), ..pre_exit@ }));
        }
        result
    }

    /// Evaluates a closure expression: a fresh function value capturing
    /// the current frame.
    #[verifier::spinoff_prover]
    fn visit_closure(
        &mut self,
        params: &std::rc::Rc<Vec<String>>,
        body: &std::rc::Rc<Vec<Stmt>>,
        name: &String,
        token: &Token,
    ) -> (r: Result<Value, Error>)
        requires
            old(self).wf(),
        ensures
            eval_post(*old(self), *final(self), r),
            ({
                let m = e_closure(old(self)@, names_view(params@), body@, name@, *token);
                final(self)@ == m.ctx && result_matches(r, m.r)
            }),
    {
        let f = Function::Standard {
            params: std::rc::Rc::clone(params),
            name: name.clone(),
            body: std::rc::Rc::clone(body),
            token: *token,
            this: None,
            closure: self.env,
        };
        let id = self.add_function(f);
        Ok(Value::Function(id))
    }

    /// Evaluates a property read: the object, which must be an
    /// instance, then the property rule.
    #[verifier::spinoff_prover]
    fn visit_get(&mut self, name: &String, token: &Token, expr: &Expr, fuel: u64) -> (r: Result<
        Value,
        Error,
    >)
        requires
            old(self).wf(),
            fuel >= 1,
        ensures
            eval_post(*old(self), *final(self), r),
            ({
                let m = e_get(old(self)@, name@, *token, *expr, fuel);
                final(self)@ == m.ctx && result_matches(r, m.r)
            }),
        decreases fuel, 0nat,
    {
        let obj = self.eval_expr(expr, fuel - 1)?;
        match obj {
            Value::Instance(id) => self.get_property(id, name, token),
            _ => error(token, ErrorType::ValueNotInstance),
        }
    }

    /// Evaluates a property write: the object first, which must be an
    /// instance, then the value, then the write on that instance.
    #[verifier::spinoff_prover]
    fn visit_set_prop(
        &mut self,
        name: &String,
        token: &Token,
        value: &Expr,
        obj: &Expr,
        fuel: u64,
    ) -> (r: Result<Value, Error>)
        requires
            old(self).wf(),
            fuel >= 1,
        ensures
            eval_post(*old(self), *final(self), r),
            ({
                let m = e_set_prop(old(self)@, name@, *token, *value, *obj, fuel);
                final(self)@ == m.ctx && result_matches(r, m.r)
            }),
        decreases fuel, 0nat,
    {
        let target = self.eval_expr(obj, fuel - 1)?;
        match target {
            Value::Instance(id) => {
                let val = self.eval_expr(value, fuel - 1)?;
                self.set_instance(id, name, &val);
                Ok(Value::Instance(id))
            },
            _ => error(token, ErrorType::ValueNotInstance),
        }
    }

    /// Evaluates a `super` method reference.
    #[verifier::spinoff_prover]
    fn visit_super(&mut self, token: &Token, method_name: &String) -> (r: Result<Value, Error>)
        requires
            old(self).wf(),
        ensures
            eval_post(*old(self), *final(self), r),
            ({
                let m = e_super(old(self)@, *token, method_name@);
                final(self)@ == m.ctx && result_matches(r, m.r)
            }),
    {
        let sv = self.lookup_deep(&String::from_str("super"), token)?;
        match sv {
            Value::Class(cid) => {
                proof {
                    lemma_classes_chain_wf(*self);
                }
                let m = self.classes[cid].find_method(cid, &self.classes, method_name);
                proof {
                    lemma_find_method_wf(
                        self.classes_v(),
                        cid as int,
                        method_name@,
                        self.functions@.len() as int,
                        self.classes@.len() as int,
                        self.instances@.len() as int,
                    );
                }
                match m {
                    Some(fid) => {
                        let tv = self.lookup_deep(&String::from_str("this"), token)?;
                        match tv {
                            Value::Instance(iid) => {
                                proof {
                                    assert(self.functions@[fid as int]@ == self.funs_v()[
                                        fid as int
                                    ]);
                                    assert(fun_v_wf(
                                        self.funs_v()[fid as int],
                                        self.envs@.len() as int,
                                        self.instances@.len() as int,
                                    ));
                                }
                                let bound = self.functions[fid].bind(iid);
                                let id = self.add_function(bound);
                                Ok(Value::Function(id))
                            },
                            _ => error(token, ErrorType::ValueNotInstance),
                        }
                    },
                    None => error(token, ErrorType::MethodNotFound),
                }
            },
            _ => error(token, ErrorType::MethodNotFound),
        }
    }


    /// Writes a variable at its resolved distance, returning the frame's
    /// previous binding as the assignment's value. A target frame that
    /// does not bind the name is reported as undefined and left
    /// untouched: there is no implicit creation on write. A distance
    /// that exceeds the chain is the internal resolver/evaluator fault,
    /// not a user error.
    #[verifier::spinoff_prover]
    fn assign_var(&mut self, name: &String, value: &Value, distance: usize, token: &Token) -> (r:
        Result<Value, Error>)
        requires
            old(self).wf(),
            old(self).value_ok(value@),
        ensures
            eval_post(*old(self), *final(self), r),
            r is Err ==> *final(self) == *old(self),
            ({
                let m = e_assign(old(self)@, *token, name@, value@, distance as int);
                final(self)@ == m.ctx && result_matches(r, m.r)
            }),
    {
        match self.envs.ancestor(self.env, distance) {
            Some(a) => {
                match self.envs.get(a, name) {
                    Some(prev) => {
                        self.def_var(a, name, value);
                        Ok(prev)
                    },
                    None => Err(
                        Error { token: *token, error_type: ErrorType::UndefinedVariable },
                    ),
                }
            },
            None => Err(Error { token: *token, error_type: ErrorType::InternalFault }),
        }
    }

    /// Calls a function value with evaluated arguments: checks the arity,
    /// opens one frame over the captured scope holding the receiver (and
    /// its superclass) when the function is bound, then the parameters,
    /// and runs the body in it. The call boundary consumes any pending
    /// return.
    #[verifier::loop_isolation(false)]
    #[verifier::spinoff_prover]
    fn call_function(&mut self, fun: usize, args: &Vec<Value>, fuel: u64) -> (r: Result<
        Value,
        Error,
    >)
        requires
            old(self).wf(),
            fun < old(self).functions@.len(),
            forall|j: int| 0 <= j < args@.len() ==> old(self).value_ok(#[trigger] args@[j]@),
        ensures
            eval_post(*old(self), *final(self), r),
            ({
                let m = e_call_function(old(self)@, fun as int, vals_view(args@), fuel);
                final(self)@ == m.ctx && result_matches(r, m.r)
            }),
        decreases fuel,
    {
        if fuel == 0 {
            return Err(
                Error { token: Token::new(0, 0, 0), error_type: ErrorType::ExecutionLimitReached },
            );
        }
        let f = self.functions[fun].clone();
        proof {
            assert(f@ == self.funs_v()[fun as int]);
        }
        match f {
            Function::Native { .. } => Ok(Value::Number(100)),
            Function::Standard { params, name, body, token, this, closure } => {
                if params.len() != args.len() {
                    return Err(
                        Error { token, error_type: ErrorType::InvalidNumberOfArguments },
                    );
                }
                proof {
                    assert(fun_v_wf(
                        old(self).funs_v()[fun as int],
                        old(self).envs@.len() as int,
                        old(self).instances@.len() as int,
                    ));
                }
                let frame = self.new_frame(closure);
                match this {
                    Some(inst) => {
                        self.def_var(frame, &String::from_str("this"), &Value::Instance(inst));
                        proof {
                            assert(self.insts_v()[inst as int] == self.instances@[inst as int]@);
                            assert(inst_refs_wf(
                                self.insts_v()[inst as int],
                                self.functions@.len() as int,
                                self.classes@.len() as int,
                                self.instances@.len() as int,
                            ));
                        }
                        let cid = self.instances[inst].class_id();
                        proof {
                            assert(self.classes_v()[cid as int] == self.classes@[cid as int]@);
                            assert(class_refs_wf(
                                self.classes_v()[cid as int],
                                cid as int,
                                self.functions@.len() as int,
                                self.classes@.len() as int,
                                self.instances@.len() as int,
                            ));
                        }
                        match self.classes[cid].get_super() {
                            Some(sc) => {
                                self.def_var(
                                    frame,
                                    &String::from_str("super"),
                                    &Value::Class(sc),
                                );
                            },
                            None => {},
                        }
                    },
                    None => {},
                }
                let n = params.len();
                let ghost mid = *self;
                proof {
                    assert(names_view(params@).subrange(0, 0) =~= Seq::<Seq<char>>::empty());
                    assert(vals_view(args@).subrange(0, 0) =~= Seq::<ValueV>::empty());
                }
                for i in 0..n
                    invariant
                        self.wf(),
                        Interpreter::upkeep(mid, *self),
                        frame < self.envs@.len(),
                        n == params@.len() == args@.len(),
                        self@ == i_bind_params(
                            mid@,
                            frame as int,
                            names_view(params@).subrange(0, i as int),
                            vals_view(args@).subrange(0, i as int),
                        ),
                    decreases n - i,
                {
                    self.def_var(frame, &params[i], &args[i]);
                    proof {
                        let pn = names_view(params@).subrange(0, i + 1);
                        let pv = vals_view(args@).subrange(0, i + 1);
                        assert(pn.drop_last() =~= names_view(params@).subrange(0, i as int));
                        assert(pv.drop_last() =~= vals_view(args@).subrange(0, i as int));
                        assert(pn.last() == params@[i as int]@);
                        assert(pv.last() == args@[i as int]@);
                    }
                }
                proof {
                    assert(names_view(params@).subrange(0, n as int) =~= names_view(params@));
                    assert(vals_view(args@).subrange(0, n as int) =~= vals_view(args@));
                }
                let v = self.exec_block_fuel(&body, frame, fuel - 1)?;
                let ghost pre_consume = *self;
                let _ = self.state.will_return();
                proof {
                    lemma_wf_unchanged_arenas(pre_consume, *self);
                    assert(self.state == flow_consume_return(pre_consume.state));
                    assert(self@ =~~= (ICtx {
                        state: flow_consume_return(pre_consume@.state),
                        ..pre_consume@
                    }));
                }
                Ok(v)
            },
        }
    }

    /// Calls a class: constructs an instance seeded with the class's
    /// property values and, when the class declares a `constructor`
    /// method of its own, runs it bound to the new instance.
    #[verifier::spinoff_prover]
    fn call_class(&mut self, class: usize, args: &Vec<Value>, token: &Token, fuel: u64) -> (r:
        Result<Value, Error>)
        requires
            old(self).wf(),
            class < old(self).classes@.len(),
            forall|j: int| 0 <= j < args@.len() ==> old(self).value_ok(#[trigger] args@[j]@),
        ensures
            eval_post(*old(self), *final(self), r),
            ({
                let m = e_call_class(old(self)@, class as int, vals_view(args@), *token, fuel);
                final(self)@ == m.ctx && result_matches(r, m.r)
            }),
        decreases fuel,
    {
        if fuel == 0 {
            return Err(
                Error { token: Token::new(0, 0, 0), error_type: ErrorType::ExecutionLimitReached },
            );
        }
        proof {
            assert(self.classes@[class as int].wf());
            assert(self.classes_v()[class as int] == self.classes@[class as int]@);
            assert(class_refs_wf(
                self.classes_v()[class as int],
                class as int,
                self.functions@.len() as int,
                self.classes@.len() as int,
                self.instances@.len() as int,
            ));
        }
        let props = self.classes[class].properties_copy();
        let inst = Instance::new(class, props);
        let id = self.add_instance(inst);
        let ctor = self.classes[class].own_method(&String::from_str("constructor"));
        match ctor {
            Some(fid) => {
                proof {
                    assert(self.functions@[fid as int]@ == self.funs_v()[fid as int]);
                    assert(fun_v_wf(
                        self.funs_v()[fid as int],
                        self.envs@.len() as int,
                        self.instances@.len() as int,
                    ));
                }
                let bound = self.functions[fid].bind(id);
                let bid = self.add_function(bound);
                let ghost pre_ctor_enter = *self;
                self.state.enter_call();
                proof {
                    lemma_wf_unchanged_arenas(pre_ctor_enter, *self);
                    assert(self.state == flow_enter_call(pre_ctor_enter.state));
                    assert(self@ =~~= (ICtx {
                        state: flow_enter_call(pre_ctor_enter@.state),
                        ..pre_ctor_enter@
                    }));
                }
                let cr = self.call_function(bid, args, fuel - 1);
                let ghost pre_ctor_exit = *self;
                self.state.exit_call();
                proof {
                    lemma_wf_unchanged_arenas(pre_ctor_exit, *self);
                    assert(self.state == flow_exit_call(pre_ctor_exit.state));
                    assert(self@ =~~= (ICtx {
                        state: flow_exit_call(pre_ctor_exit@.state),
                        ..pre_ctor_exit@
                    }));
                }
                match cr {
                    Ok(_) => Ok(Value::Instance(id)),
                    Err(e) => Err(e),
                }
            },
            None => Ok(Value::Instance(id)),
        }
    }

    /// Runs statements in order, threading the last executed statement's
    /// value, and stops early on a pending break, continue, or return
    /// inside a call.
    #[verifier::loop_isolation(false)]
    #[verifier::spinoff_prover]
    fn interpret_with_fuel(&mut self, stmts: &Vec<Stmt>, fuel: u64) -> (r: Result<Value, Error>)
        requires
            old(self).wf(),
        ensures
            eval_post(*old(self), *final(self), r),
            ({
                let m = e_interpret(old(self)@, stmts@, fuel);
                final(self)@ == m.ctx && result_matches(r, m.r)
            }),
        decreases fuel,
    {
        if fuel == 0 {
            return Err(
                Error { token: Token::new(0, 0, 0), error_type: ErrorType::ExecutionLimitReached },
            );
        }
        let n = stmts.len();
        let mut i: usize = 0;
        let mut last: Value = Value::Null;
        proof {
            assert(stmts@.subrange(0, n as int) =~= stmts@);
        }
        while i < n
            invariant
                self.wf(),
                Interpreter::upkeep(*old(self), *self),
                self.value_ok(last@),
                i <= n,
                n == stmts@.len(),
                fuel >= 1,
                e_stmts(old(self)@, stmts@, fuel, ValueV::Null) == e_stmts(
                    self@,
                    stmts@.subrange(i as int, n as int),
                    fuel,
                    last@,
                ),
            decreases n - i,
        {
            if self.state.should_break || self.state.should_continue || (self.state.should_return
                && self.state.inside_call > 0) {
                break ;
            }
            let ghost suffix = stmts@.subrange(i as int, n as int);
            proof {
                assert(suffix[0] == stmts@[i as int]);
                assert(suffix.subrange(1, suffix.len() as int) =~= stmts@.subrange(
                    i + 1,
                    n as int,
                ));
            }
            match self.exec_stmt(&stmts[i], fuel - 1) {
                Ok(v) => {
                    last = v;
                },
                Err(e) => {
                    return Err(e);
                },
            }
            i = i + 1;
        }
        proof {
            assert(stmts@.subrange(i as int, n as int).len() == n - i);
        }
        Ok(last)
    }

    /// Runs statements in the given frame, restoring the previous frame
    /// afterwards even when execution stopped early.
    #[verifier::spinoff_prover]
    fn exec_block_fuel(&mut self, statements: &Vec<Stmt>, env: usize, fuel: u64) -> (r: Result<
        Value,
        Error,
    >)
        requires
            old(self).wf(),
            env < old(self).envs@.len(),
        ensures
            eval_post(*old(self), *final(self), r),
            ({
                let m = e_block(old(self)@, statements@, env as int, fuel);
                final(self)@ == m.ctx && result_matches(r, m.r)
            }),
        decreases fuel,
    {
        if fuel == 0 {
            return Err(
                Error { token: Token::new(0, 0, 0), error_type: ErrorType::ExecutionLimitReached },
            );
        }
        let prev_env = self.env;
        let ghost pre_switch = *self;
        self.env = env;
        proof {
            lemma_wf_unchanged_arenas(pre_switch, *self);
            assert(self@ =~~= (ICtx { env: env as int, ..pre_switch@ }));
        }
        let val = self.interpret_with_fuel(statements, fuel - 1);
        let ghost pre_restore = *self;
        self.env = prev_env;
        proof {
            lemma_wf_unchanged_arenas(pre_restore, *self);
            assert(self@ =~~= (ICtx { env: prev_env as int, ..pre_restore@ }));
        }
        val
    }

    /// Runs a `while` loop: re-evaluates the condition before every
    /// iteration, consumes a pending break before running the body,
    /// consumes a pending continue after it, and stops on a pending
    /// return inside a call. Only the depth of each iteration is
    /// budgeted; the loop itself runs as long as its condition holds.
    #[verifier::loop_isolation(false)]
    #[verifier::spinoff_prover]
    fn exec_while(&mut self, condition: &Expr, body: &Stmt, fuel: u64) -> (r: Result<Value, Error>)
        requires
            old(self).wf(),
        ensures
            eval_post(*old(self), *final(self), r),
            ({
                let m = e_while(old(self)@, *condition, *body, fuel);
                final(self)@ == m.ctx && result_matches(r, m.r)
            }),
        decreases fuel,
    {
        if fuel == 0 {
            return Err(
                Error { token: Token::new(0, 0, 0), error_type: ErrorType::ExecutionLimitReached },
            );
        }
        let mut rounds: u64 = u64::MAX;
        loop
            invariant
                self.wf(),
                Interpreter::upkeep(*old(self), *self),
                fuel >= 1,
                e_while_rounds(old(self)@, *condition, *body, fuel, u64::MAX) == e_while_rounds(
                    self@,
                    *condition,
                    *body,
                    fuel,
                    rounds,
                ),
            decreases rounds,
        {
            if rounds == 0 {
                return Err(
                    Error {
                        token: Token::new(0, 0, 0),
                        error_type: ErrorType::ExecutionLimitReached,
                    },
                );
            }
            rounds = rounds - 1;
            let c = self.eval_expr(condition, fuel - 1)?;
            if c.to_bool() {
                let ghost pre_take_break = *self;
                let brk = self.state.will_break();
                proof {
                    lemma_wf_unchanged_arenas(pre_take_break, *self);
                    assert(self@ =~~= (ICtx {
                        state: State { should_break: false, ..pre_take_break.state },
                        ..pre_take_break@
                    }));
                }
                if brk {
                    return Ok(Value::Null);
                }
                let body_value = self.exec_stmt(body, fuel - 1)?;
                let ghost pre_take_continue = *self;
                let _ = self.state.will_continue();
                proof {
                    lemma_wf_unchanged_arenas(pre_take_continue, *self);
                    assert(self@ =~~= (ICtx {
                        state: State { should_continue: false, ..pre_take_continue.state },
                        ..pre_take_continue@
                    }));
                }
                if self.state.should_return && self.state.inside_call > 0 {
                    // A pending return escapes the loop, carrying the
                    // body's value toward the call boundary.
                    return Ok(body_value);
                }
            } else {
                return Ok(Value::Null);
            }
        }
    }

    /// Executes one statement with the given depth budget.
    #[verifier::loop_isolation(false)]
    #[verifier::spinoff_prover]
    fn exec_stmt(&mut self, s: &Stmt, fuel: u64) -> (r: Result<Value, Error>)
        requires
            old(self).wf(),
        ensures
            eval_post(*old(self), *final(self), r),
            ({
                let m = e_stmt(old(self)@, *s, fuel);
                final(self)@ == m.ctx && result_matches(r, m.r)
            }),
        decreases fuel,
    {
        if fuel == 0 {
            return Err(
                Error { token: Token::new(0, 0, 0), error_type: ErrorType::ExecutionLimitReached },
            );
        }
        match s {
            Stmt::Print { expr } => {
                let value = self.eval_expr(expr, fuel - 1)?;
                let line = self.value_to_string(&value);
                let ghost gline = line;
                let ghost pre_print = *self;
                self.output.push(line);
                proof {
                    lemma_wf_unchanged_arenas(pre_print, *self);
                    assert(lines_view(self.output@) =~= lines_view(pre_print.output@).push(gline@));
                    assert(self@ =~~= i_print(pre_print@, gline@));
                }
                Ok(Value::Null)
            },
            Stmt::Expr { expr } => self.eval_expr(expr, fuel - 1),
            Stmt::Var { name, value } => {
                let v = match value {
                    Some(e) => self.eval_expr(e, fuel - 1)?,
                    None => Value::Null,
                };
                self.def_var(self.env, name, &v);
                Ok(v)
            },
            Stmt::Block { stmts } => {
                let frame = self.new_frame(self.env);
                self.exec_block_fuel(stmts, frame, fuel - 1)
            },
            Stmt::If { condition, then_body, else_body } => {
                let c = self.eval_expr(condition, fuel - 1)?;
                if c.to_bool() {
                    self.exec_stmt(then_body, fuel - 1)
                } else {
                    match else_body {
                        Some(stmt) => self.exec_stmt(stmt, fuel - 1),
                        None => Ok(Value::Null),
                    }
                }
            },
            Stmt::While { condition, body } => self.exec_while(condition, body, fuel - 1),
            Stmt::Break { .. } => {
                let ghost pre_break = *self;
                self.state.should_break = true;
                proof {
                    lemma_wf_unchanged_arenas(pre_break, *self);
                    assert(self@ =~~= (ICtx {
                        state: State { should_break: true, ..pre_break.state },
                        ..pre_break@
                    }));
                }
                Ok(Value::Null)
            },
            Stmt::Continue { .. } => {
                let ghost pre_continue = *self;
                self.state.should_continue = true;
                proof {
                    lemma_wf_unchanged_arenas(pre_continue, *self);
                    assert(self@ =~~= (ICtx {
                        state: State { should_continue: true, ..pre_continue.state },
                        ..pre_continue@
                    }));
                }
                Ok(Value::Null)
            },
            Stmt::Function { params, body, name, token } => {
                let f = Function::Standard {
                    params: std::rc::Rc::clone(params),
                    name: name.clone(),
                    body: std::rc::Rc::clone(body),
                    token: *token,
                    this: None,
                    closure: self.env,
                };
                let id = self.add_function(f);
                let v = Value::Function(id);
                self.def_var(self.env, name, &v);
                Ok(v)
            },
            Stmt::Class { .. } => self.exec_class_decl(s, fuel),
            Stmt::Return { value, .. } => {
                let val = match value {
                    Some(e) => self.eval_expr(e, fuel - 1)?,
                    None => Value::Null,
                };
                let ghost pre_return = *self;
                self.state.should_return = true;
                proof {
                    lemma_wf_unchanged_arenas(pre_return, *self);
                    assert(self@ =~~= (ICtx {
                        state: State { should_return: true, ..pre_return.state },
                        ..pre_return@
                    }));
                }
                Ok(val)
            },
        }
    }

    /// Executes a class declaration: pre-binds the name to null so the
    /// body may refer to the class, evaluates the superclass expression
    /// (which must name a class), evaluates each property initializer and
    /// collects each method over the current scope, then rebinds the name
    /// to the finished class.
    #[verifier::loop_isolation(false)]
    #[verifier::spinoff_prover]
    #[verifier::rlimit(100)]
    fn exec_class_decl(&mut self, s: &Stmt, fuel: u64) -> (r: Result<Value, Error>)
        requires
            old(self).wf(),
            s matches Stmt::Class { .. },
        ensures
            eval_post(*old(self), *final(self), r),
            ({
                let m = e_class(old(self)@, *s, fuel);
                final(self)@ == m.ctx && result_matches(r, m.r)
            }),
        decreases fuel, 0nat,
    {
        match s {
            Stmt::Class { name, token, members, superclass } => {
                if fuel == 0 {
                    return Err(
                        Error {
                            token: Token::new(0, 0, 0),
                            error_type: ErrorType::ExecutionLimitReached,
                        },
                    );
                }
                self.def_var(self.env, name, &Value::Null);
                let superclass_id: Option<usize> = match superclass {
                    Some(sc) => {
                        match self.eval_expr(sc, fuel - 1)? {
                            Value::Class(c) => Some(c),
                            _ => {
                                return error(token, ErrorType::CanOnlyInheritFromClass);
                            },
                        }
                    },
                    None => None,
                };
                let mut class = Class::new(name, superclass_id);
                let ghost start_cls = class@;
                let ghost mid = *self;
                let n = members.len();
                proof {
                    assert(members@.subrange(0, 0) =~= Seq::<Stmt>::empty());
                }
                for i in 0..n
                    invariant
                        self.wf(),
                        Interpreter::upkeep(mid, *self),
                        class.wf(),
                        n == members@.len(),
                        fuel >= 1,
                        class@.superclass == match superclass_id {
                            Some(j) => Some(j as int),
                            None => None,
                        },
                        match superclass_id {
                            Some(j) => j < self.classes@.len(),
                            None => true,
                        },
                        forall|k: Seq<char>|
                            #[trigger] class@.methods.dom().contains(k) ==> class@.methods[k]
                                < self.functions@.len(),
                        forall|k: Seq<char>|
                            #[trigger] class@.properties.dom().contains(k) ==> value_v_wf(
                                class@.properties[k],
                                self.functions@.len() as int,
                                self.classes@.len() as int,
                                self.instances@.len() as int,
                            ),
                        e_members(mid@, start_cls, members@.subrange(0, i as int), fuel)
                            == (ClassOut { ctx: self@, cls: class@, err: None }),
                    decreases n - i,
                {
                    let ghost prefix = members@.subrange(0, i as int);
                    proof {
                        assert(members@.subrange(0, i + 1).drop_last() =~= prefix);
                        assert(members@.subrange(0, i + 1).last() == members@[i as int]);
                    }
                    match &members[i] {
                        Stmt::Var { name: pname, value } => {
                            let v = match value {
                                Some(e) => {
                                    match self.eval_expr(e, fuel - 1) {
                                        Ok(v) => v,
                                        Err(e) => {
                                            proof {
                                                lemma_e_members_err_stable(
                                                    mid@,
                                                    start_cls,
                                                    members@,
                                                    fuel,
                                                    i + 1,
                                                );
                                            }
                                            return Err(e);
                                        },
                                    }
                                },
                                None => Value::Null,
                            };
                            class.set_property(pname, &v);
                        },
                        Stmt::Function { name: mname, params, body, token: mtoken } => {
                            let f = Function::Standard {
                                params: std::rc::Rc::clone(params),
                                name: mname.clone(),
                                body: std::rc::Rc::clone(body),
                                token: *mtoken,
                                this: None,
                                closure: self.env,
                            };
                            let fid = self.add_function(f);
                            class.add_method(mname, fid);
                        },
                        _ => {},
                    }
                }
                proof {
                    assert(members@.subrange(0, n as int) =~= members@);
                }
                let cid = self.add_class(class);
                self.def_var(self.env, name, &Value::Class(cid));
                Ok(Value::Null)
            },
            _ => {
                proof {
                    assert(false);
                }
                Ok(Value::Null)
            },
        }
    }

    /// Evaluates an expression with the default depth budget.
    pub fn evaluate(&mut self, expr: &Expr) -> (r: Result<Value, Error>)
        requires
            old(self).wf(),
        ensures
            eval_post(*old(self), *final(self), r),
            ({
                let m = e_expr(old(self)@, *expr, DEFAULT_FUEL);
                final(self)@ == m.ctx && result_matches(r, m.r)
            }),
    {
        self.eval_expr(expr, DEFAULT_FUEL)
    }

    /// Runs a program with the default depth budget, returning the value
    /// of the last statement executed.
    pub fn interpret(&mut self, stmts: &Vec<Stmt>) -> (r: Result<Value, Error>)
        requires
            old(self).wf(),
        ensures
            eval_post(*old(self), *final(self), r),
            ({
                let m = e_interpret(old(self)@, stmts@, DEFAULT_FUEL);
                final(self)@ == m.ctx && result_matches(r, m.r)
            }),
    {
        self.interpret_with_fuel(stmts, DEFAULT_FUEL)
    }

    /// Runs statements in the given frame with the default depth budget,
    /// restoring the previous frame afterwards.
    pub fn execute_block(&mut self, statements: &Vec<Stmt>, env: usize) -> (r: Result<
        Value,
        Error,
    >)
        requires
            old(self).wf(),
            env < old(self).envs@.len(),
        ensures
            eval_post(*old(self), *final(self), r),
            ({
                let m = e_block(old(self)@, statements@, env as int, DEFAULT_FUEL);
                final(self)@ == m.ctx && result_matches(r, m.r)
            }),
    {
        self.exec_block_fuel(statements, env, DEFAULT_FUEL)
    }
}


/// The invariant only reads the chain, the distance table, the current
/// frame and the arenas; a step that left all of those unchanged keeps
/// it, whatever it did to the flags or the output.
proof fn lemma_wf_unchanged_arenas(pre: Interpreter, post: Interpreter)
    requires
        pre.wf(),
        post.envs == pre.envs,
        post.distances == pre.distances,
        (post.env as int) < post.envs@.len(),
        post.functions@ == pre.functions@,
        post.classes@ == pre.classes@,
        post.instances@ == pre.instances@,
    ensures
        post.wf(),
{
    lemma_frames_mono(pre, post);
    lemma_funs_mono(pre, post);
    lemma_classes_mono(pre, post);
    lemma_insts_mono(pre, post);
    assert forall|i: int| 0 <= i < post.classes@.len() implies (
    #[trigger] post.classes@[i]).wf() by {
        assert(post.classes@[i] == pre.classes@[i]);
    }
    assert forall|i: int| 0 <= i < post.instances@.len() implies (
    #[trigger] post.instances@[i]).wf() by {
        assert(post.instances@[i] == pre.instances@[i]);
    }
}

/// The class arena satisfies the superclass-chain conditions that method
/// lookup needs, in the form it states them.
proof fn lemma_classes_chain_wf(it: Interpreter)
    requires
        it.wf(),
    ensures
        forall|i: int|
            0 <= i < it.classes@.len() ==> (#[trigger] it.classes@[i]).wf() && match it.classes@[i]@.superclass {
                Some(j) => 0 <= j < i,
                None => true,
            },
{
    assert forall|i: int|
        0 <= i < it.classes@.len() implies (#[trigger] it.classes@[i]).wf() && match it.classes@[i]@.superclass {
        Some(j) => 0 <= j < i,
        None => true,
    } by {
        assert(it.classes_v()[i] == it.classes@[i]@);
        assert(class_refs_wf(
            it.classes_v()[i],
            i,
            it.functions@.len() as int,
            it.classes@.len() as int,
            it.instances@.len() as int,
        ));
    }
}


/// The views of a list of evaluated values.
pub open spec fn vals_view(vals: Seq<Value>) -> Seq<ValueV> {
    vals.map_values(|v: Value| v@)
}

/// The print output as character sequences.
pub open spec fn lines_view(out: Seq<String>) -> Seq<Seq<char>> {
    out.map_values(|s: String| s@)
}

/// The mathematical state of the evaluator: the current frame, the
/// whole scope chain, the distance table, the control-flow flags, the
/// three value arenas, and everything printed so far.
#[verifier::ext_equal]
pub ghost struct ICtx {
    pub env: int,
    pub envs: Seq<FrameV>,
    pub distances: Map<SiteKey, usize>,
    pub state: State,
    pub functions: Seq<FunctionV>,
    pub classes: Seq<ClassV>,
    pub instances: Seq<InstanceV>,
    pub output: Seq<Seq<char>>,
}

impl View for Interpreter {
    type V = ICtx;

    open spec fn view(&self) -> ICtx {
        ICtx {
            env: self.env as int,
            envs: self.envs@,
            distances: self.distances@,
            state: self.state,
            functions: self.funs_v(),
            classes: self.classes_v(),
            instances: self.insts_v(),
            output: lines_view(self.output@),
        }
    }
}

/// The state a fresh evaluator starts from: a root frame binding the one
/// built-in function under `clock`, an empty working frame above it, and
/// nothing else.
pub open spec fn initial_ictx() -> ICtx {
    ICtx {
        env: 1,
        envs: seq![
            FrameV {
                bindings: Map::<Seq<char>, ValueV>::empty().insert("clock"@, ValueV::Fun(0)),
                enclosing: None,
            },
            FrameV { bindings: Map::<Seq<char>, ValueV>::empty(), enclosing: Some(0int) },
        ],
        distances: Map::empty(),
        state: State {
            should_continue: false,
            should_break: false,
            should_return: false,
            inside_call: 0usize,
        },
        functions: seq![FunctionV::Native { arity: 0int }],
        classes: Seq::empty(),
        instances: Seq::empty(),
        output: Seq::empty(),
    }
}

/// Binds a name in the given frame.
pub open spec fn i_def_var(ctx: ICtx, frame: int, name: Seq<char>, v: ValueV) -> ICtx {
    ICtx {
        envs: ctx.envs.update(
            frame,
            FrameV {
                bindings: ctx.envs[frame].bindings.insert(name, v),
                enclosing: ctx.envs[frame].enclosing,
            },
        ),
        ..ctx
    }
}

/// Opens a new, empty frame over `enclosing`.
pub open spec fn i_new_frame(ctx: ICtx, enclosing: int) -> ICtx {
    ICtx {
        envs: ctx.envs.push(
            FrameV { bindings: Map::<Seq<char>, ValueV>::empty(), enclosing: Some(enclosing) },
        ),
        ..ctx
    }
}

/// Adds a function value to the arena.
pub open spec fn i_add_function(ctx: ICtx, f: FunctionV) -> ICtx {
    ICtx { functions: ctx.functions.push(f), ..ctx }
}

/// Adds a class to the arena.
pub open spec fn i_add_class(ctx: ICtx, c: ClassV) -> ICtx {
    ICtx { classes: ctx.classes.push(c), ..ctx }
}

/// Adds an instance to the arena.
pub open spec fn i_add_instance(ctx: ICtx, iv: InstanceV) -> ICtx {
    ICtx { instances: ctx.instances.push(iv), ..ctx }
}

/// Writes a property on one instance.
pub open spec fn i_set_instance(ctx: ICtx, id: int, name: Seq<char>, v: ValueV) -> ICtx {
    ICtx {
        instances: ctx.instances.update(
            id,
            InstanceV {
                class: ctx.instances[id].class,
                properties: ctx.instances[id].properties.insert(name, v),
            },
        ),
        ..ctx
    }
}

/// Appends a printed line.
pub open spec fn i_print(ctx: ICtx, line: Seq<char>) -> ICtx {
    ICtx { output: ctx.output.push(line), ..ctx }
}

/// The error a run reports when its depth budget is exhausted.
pub open spec fn limit_error() -> Error {
    Error {
        token: Token { line: 0, start: 0, end: 0 },
        error_type: ErrorType::ExecutionLimitReached,
    }
}

/// The flags after entering a call.
pub open spec fn flow_enter_call(st: State) -> State {
    State {
        inside_call: if st.inside_call < usize::MAX {
            (st.inside_call + 1) as usize
        } else {
            st.inside_call
        },
        ..st
    }
}

/// The flags after leaving a call: the boundary consumes a pending
/// return.
pub open spec fn flow_exit_call(st: State) -> State {
    State {
        should_return: false,
        inside_call: if st.inside_call > 0 {
            (st.inside_call - 1) as usize
        } else {
            0usize
        },
        ..st
    }
}

/// The flags after the call boundary's own return consumption: a return
/// pending inside a call is taken.
pub open spec fn flow_consume_return(st: State) -> State {
    if st.should_return && st.inside_call > 0 {
        State { should_return: false, ..st }
    } else {
        st
    }
}

/// Whether a statement sequence stops early: on a pending break or
/// continue, or a pending return inside a call.
pub open spec fn flow_stops(st: State) -> bool {
    st.should_break || st.should_continue || (st.should_return && st.inside_call > 0)
}

/// A step of evaluation: the state afterwards, and the produced value or
/// the error that aborted it.
#[verifier::ext_equal]
pub ghost struct EvalOut {
    pub ctx: ICtx,
    pub r: Result<ValueV, Error>,
}

/// Whether an executable result is exactly a mirrored one.
pub open spec fn result_matches(r: Result<Value, Error>, m: Result<ValueV, Error>) -> bool {
    match (r, m) {
        (Ok(v), Ok(mv)) => v@ == mv,
        (Err(a), Err(b)) => a == b,
        _ => false,
    }
}

/// Reading a variable at a reference site: through the recorded distance
/// when there is one — a chain shorter than the distance is the internal
/// resolver/evaluator fault — and otherwise by the whole-chain fallback
/// walk, which subsumes the outermost-frame lookup because every chain
/// ends at the root. A name found neither way is undefined.
pub open spec fn e_lookup_variable(ctx: ICtx, token: Token, name: Seq<char>) -> Result<
    ValueV,
    Error,
> {
    let k = spec_site(token, name);
    if ctx.distances.contains_key(k) {
        match spec_ancestor(ctx.envs, ctx.env, ctx.distances[k] as int) {
            Some(a) => if ctx.envs[a].bindings.contains_key(name) {
                Ok(ctx.envs[a].bindings[name])
            } else {
                Err(Error { token, error_type: ErrorType::UndefinedVariable })
            },
            None => Err(Error { token, error_type: ErrorType::InternalFault }),
        }
    } else {
        match spec_lookup_chain(ctx.envs, ctx.env, name) {
            Some(v) => Ok(v),
            None => Err(Error { token, error_type: ErrorType::UndefinedVariable }),
        }
    }
}

/// Reading one of the chain-resolved names, `this` or `super`.
pub open spec fn e_lookup_deep(ctx: ICtx, token: Token, name: Seq<char>) -> Result<ValueV, Error> {
    match spec_lookup_chain(ctx.envs, ctx.env, name) {
        Some(v) => Ok(v),
        None => Err(Error { token, error_type: ErrorType::UndefinedVariable }),
    }
}

/// Writing a variable at its resolved distance: the target frame must
/// already bind the name — there is no implicit creation on write, and a
/// failed write leaves everything unchanged — and the assignment's value
/// is the binding's previous value.
pub open spec fn e_assign(ctx: ICtx, token: Token, name: Seq<char>, v: ValueV, d: int) -> EvalOut {
    match spec_ancestor(ctx.envs, ctx.env, d) {
        Some(a) => if ctx.envs[a].bindings.contains_key(name) {
            EvalOut { ctx: i_def_var(ctx, a, name, v), r: Ok(ctx.envs[a].bindings[name]) }
        } else {
            EvalOut { ctx, r: Err(Error { token, error_type: ErrorType::UndefinedVariable }) }
        },
        None => EvalOut { ctx, r: Err(Error { token, error_type: ErrorType::InternalFault }) },
    }
}

/// Reading a property off an instance: the instance's own value first,
/// then a method found along the class chain, freshly bound to the
/// instance; failing both is the property error.
pub open spec fn e_get_property(ctx: ICtx, inst: int, token: Token, name: Seq<char>) -> EvalOut {
    let iv = ctx.instances[inst];
    if iv.properties.contains_key(name) {
        EvalOut { ctx, r: Ok(iv.properties[name]) }
    } else {
        match spec_find_method(ctx.classes, iv.class, name) {
            Some(fid) => EvalOut {
                ctx: i_add_function(ctx, spec_bound(ctx.functions[fid as int], inst)),
                r: Ok(ValueV::Fun(ctx.functions.len() as int)),
            },
            None => EvalOut {
                ctx,
                r: Err(Error { token, error_type: ErrorType::PropertyDoesntExist }),
            },
        }
    }
}


/// Evaluated arguments: the state afterwards and the values, or the
/// error that aborted the list.
#[verifier::ext_equal]
pub ghost struct ArgsOut {
    pub ctx: ICtx,
    pub r: Result<Seq<ValueV>, Error>,
}

/// A class body under construction: the state, the tables built so far,
/// and the first error if one aborted the walk.
#[verifier::ext_equal]
pub ghost struct ClassOut {
    pub ctx: ICtx,
    pub cls: ClassV,
    pub err: Option<Error>,
}

/// Evaluates one expression. This is the evaluator's meaning as a
/// mathematical function of the state, the node and the depth budget;
/// the methods on [`Interpreter`] compute exactly it.
pub open spec fn e_expr(ctx: ICtx, e: Expr, fuel: u64) -> EvalOut
    decreases fuel, 2nat, 0nat,
{
    if fuel == 0 {
        EvalOut { ctx, r: Err(limit_error()) }
    } else {
        match e {
            Expr::Literal { value } => EvalOut { ctx, r: Ok(spec_literal_value(value)) },
            Expr::Binary { left, op, right, token } => e_binary(ctx, *left, op, *right, token, fuel),
            Expr::Unary { op, expr, token } => e_unary(ctx, op, *expr, token, fuel),
            Expr::Grouping { expr } => e_expr(ctx, *expr, (fuel - 1) as u64),
            Expr::Var { name, token } => EvalOut { ctx, r: e_lookup_variable(ctx, token, name@) },
            Expr::Assign { name, expr, token } => e_assign_expr(ctx, name@, *expr, token, fuel),
            Expr::Logical { left, op, right, .. } => e_logical(ctx, *left, op, *right, fuel),
            Expr::Call { callee, token, arguments } => e_call(ctx, *callee, token, arguments@, fuel),
            Expr::Closure { params, body, name, token } => e_closure(
                ctx,
                names_view(params@),
                body@,
                name@,
                token,
            ),
            Expr::Get { name, token, expr } => e_get(ctx, name@, token, *expr, fuel),
            Expr::SetProp { name, token, value, obj } => e_set_prop(
                ctx,
                name@,
                token,
                *value,
                *obj,
                fuel,
            ),
            Expr::This { token } => EvalOut { ctx, r: e_lookup_deep(ctx, token, "this"@) },
            Expr::Super { token, method_name } => e_super(ctx, token, method_name@),
        }
    }
}

/// A binary expression: both operands, left first, then the operator
/// table.
pub open spec fn e_binary(ctx: ICtx, left: Expr, op: BinOp, right: Expr, token: Token, fuel: u64) -> EvalOut
    decreases fuel, 1nat, 0nat,
{
    if fuel == 0 {
        EvalOut { ctx, r: Err(limit_error()) }
    } else {
        let a = e_expr(ctx, left, (fuel - 1) as u64);
        match a.r {
            Err(er) => a,
            Ok(av) => {
                let b = e_expr(a.ctx, right, (fuel - 1) as u64);
                match b.r {
                    Err(er) => b,
                    Ok(bv) => match spec_binary(op, av, bv) {
                        Ok(v) => EvalOut { ctx: b.ctx, r: Ok(v) },
                        Err(k) => EvalOut { ctx: b.ctx, r: Err(Error { token, error_type: k }) },
                    },
                }
            },
        }
    }
}

/// A unary expression: the operand, then the operator table.
pub open spec fn e_unary(ctx: ICtx, op: UnaryOp, expr: Expr, token: Token, fuel: u64) -> EvalOut
    decreases fuel, 1nat, 0nat,
{
    if fuel == 0 {
        EvalOut { ctx, r: Err(limit_error()) }
    } else {
        let a = e_expr(ctx, expr, (fuel - 1) as u64);
        match a.r {
            Err(er) => a,
            Ok(av) => match spec_unary(op, av) {
                Ok(v) => EvalOut { ctx: a.ctx, r: Ok(v) },
                Err(k) => EvalOut { ctx: a.ctx, r: Err(Error { token, error_type: k }) },
            },
        }
    }
}

/// An assignment: the right-hand side, then the write at the site's
/// resolved distance; a site without one is an undefined target.
pub open spec fn e_assign_expr(ctx: ICtx, name: Seq<char>, expr: Expr, token: Token, fuel: u64) -> EvalOut
    decreases fuel, 1nat, 0nat,
{
    if fuel == 0 {
        EvalOut { ctx, r: Err(limit_error()) }
    } else {
        let a = e_expr(ctx, expr, (fuel - 1) as u64);
        match a.r {
            Err(er) => a,
            Ok(av) => {
                let k = spec_site(token, name);
                if a.ctx.distances.contains_key(k) {
                    e_assign(a.ctx, token, name, av, a.ctx.distances[k] as int)
                } else {
                    EvalOut {
                        ctx: a.ctx,
                        r: Err(Error { token, error_type: ErrorType::UndefinedVariable }),
                    }
                }
            },
        }
    }
}

/// A logical connective: both operands are always evaluated, left
/// first — the right side's effects occur even when the left decides
/// the result — and then the connective's table applies.
pub open spec fn e_logical(ctx: ICtx, left: Expr, op: LogicalOp, right: Expr, fuel: u64) -> EvalOut
    decreases fuel, 1nat, 0nat,
{
    if fuel == 0 {
        EvalOut { ctx, r: Err(limit_error()) }
    } else {
        let a = e_expr(ctx, left, (fuel - 1) as u64);
        match a.r {
            Err(er) => a,
            Ok(av) => {
                let b = e_expr(a.ctx, right, (fuel - 1) as u64);
                match b.r {
                    Err(er) => b,
                    Ok(bv) => EvalOut { ctx: b.ctx, r: Ok(spec_logical(op, av, bv)) },
                }
            },
        }
    }
}

/// A call: the callee, then every argument left to right, then the
/// dispatch on what the callee is; the call boundary's exit runs
/// whatever the dispatch produced.
pub open spec fn e_call(ctx: ICtx, callee: Expr, token: Token, arguments: Seq<Expr>, fuel: u64) -> EvalOut
    decreases fuel, 1nat, 0nat,
{
    if fuel == 0 {
        EvalOut { ctx, r: Err(limit_error()) }
    } else {
        let c = e_expr(ctx, callee, (fuel - 1) as u64);
        match c.r {
            Err(er) => c,
            Ok(cv) => {
                let ar = e_args(c.ctx, arguments, fuel);
                match ar.r {
                    Err(er) => EvalOut { ctx: ar.ctx, r: Err(er) },
                    Ok(vals) => {
                        let stepped = match cv {
                            ValueV::Fun(id) => e_call_function(
                                ICtx { state: flow_enter_call(ar.ctx.state), ..ar.ctx },
                                id,
                                vals,
                                (fuel - 1) as u64,
                            ),
                            ValueV::Cls(id) => e_call_class(ar.ctx, id, vals, token, (fuel - 1) as u64),
                            _ => EvalOut {
                                ctx: ar.ctx,
                                r: Err(Error { token, error_type: ErrorType::ValueNotCallable }),
                            },
                        };
                        EvalOut {
                            ctx: ICtx { state: flow_exit_call(stepped.ctx.state), ..stepped.ctx },
                            r: stepped.r,
                        }
                    },
                }
            },
        }
    }
}

/// A closure expression: a fresh function value capturing the current
/// frame.
pub open spec fn e_closure(
    ctx: ICtx,
    params: Seq<Seq<char>>,
    body: Seq<Stmt>,
    name: Seq<char>,
    token: Token,
) -> EvalOut {
    let f = FunctionV::Standard { params, name, body, token, this: None, closure: ctx.env };
    EvalOut { ctx: i_add_function(ctx, f), r: Ok(ValueV::Fun(ctx.functions.len() as int)) }
}

/// A property read: the object, which must be an instance, then the
/// property rule.
pub open spec fn e_get(ctx: ICtx, name: Seq<char>, token: Token, expr: Expr, fuel: u64) -> EvalOut
    decreases fuel, 1nat, 0nat,
{
    if fuel == 0 {
        EvalOut { ctx, r: Err(limit_error()) }
    } else {
        let o = e_expr(ctx, expr, (fuel - 1) as u64);
        match o.r {
            Err(er) => o,
            Ok(ov) => match ov {
                ValueV::Inst(id) => e_get_property(o.ctx, id, token, name),
                _ => EvalOut {
                    ctx: o.ctx,
                    r: Err(Error { token, error_type: ErrorType::ValueNotInstance }),
                },
            },
        }
    }
}

/// A property write: the object first, which must be an instance, then
/// the value, then the write on that instance alone.
pub open spec fn e_set_prop(
    ctx: ICtx,
    name: Seq<char>,
    token: Token,
    value: Expr,
    obj: Expr,
    fuel: u64,
) -> EvalOut
    decreases fuel, 1nat, 0nat,
{
    if fuel == 0 {
        EvalOut { ctx, r: Err(limit_error()) }
    } else {
        let o = e_expr(ctx, obj, (fuel - 1) as u64);
        match o.r {
            Err(er) => o,
            Ok(ov) => match ov {
                ValueV::Inst(id) => {
                    let v = e_expr(o.ctx, value, (fuel - 1) as u64);
                    match v.r {
                        Err(er) => v,
                        Ok(vv) => EvalOut {
                            ctx: i_set_instance(v.ctx, id, name, vv),
                            r: Ok(ValueV::Inst(id)),
                        },
                    }
                },
                _ => EvalOut {
                    ctx: o.ctx,
                    r: Err(Error { token, error_type: ErrorType::ValueNotInstance }),
                },
            },
        }
    }
}

/// A `super` method reference: the superclass bound in the receiver
/// scope, the method along its chain, bound to the `this` of the same
/// scope.
pub open spec fn e_super(ctx: ICtx, token: Token, method_name: Seq<char>) -> EvalOut {
    match e_lookup_deep(ctx, token, "super"@) {
        Err(er) => EvalOut { ctx, r: Err(er) },
        Ok(sv) => match sv {
            ValueV::Cls(cid) => match spec_find_method(ctx.classes, cid, method_name) {
                Some(fid) => match e_lookup_deep(ctx, token, "this"@) {
                    Err(er) => EvalOut { ctx, r: Err(er) },
                    Ok(tv) => match tv {
                        ValueV::Inst(iid) => EvalOut {
                            ctx: i_add_function(ctx, spec_bound(ctx.functions[fid as int], iid)),
                            r: Ok(ValueV::Fun(ctx.functions.len() as int)),
                        },
                        _ => EvalOut {
                            ctx,
                            r: Err(Error { token, error_type: ErrorType::ValueNotInstance }),
                        },
                    },
                },
                None => EvalOut {
                    ctx,
                    r: Err(Error { token, error_type: ErrorType::MethodNotFound }),
                },
            },
            _ => EvalOut { ctx, r: Err(Error { token, error_type: ErrorType::MethodNotFound }) },
        },
    }
}

/// Evaluates a list of expressions left to right, collecting the values.
pub open spec fn e_args(ctx: ICtx, es: Seq<Expr>, fuel: u64) -> ArgsOut
    decreases fuel, 0nat, es.len(),
{
    if fuel == 0 {
        ArgsOut { ctx, r: Err(limit_error()) }
    } else if es.len() == 0 {
        ArgsOut { ctx, r: Ok(Seq::empty()) }
    } else {
        let init = e_args(ctx, es.drop_last(), fuel);
        match init.r {
            Err(er) => init,
            Ok(vs) => {
                let last = e_expr(init.ctx, es.last(), (fuel - 1) as u64);
                match last.r {
                    Err(er) => ArgsOut { ctx: last.ctx, r: Err(er) },
                    Ok(v) => ArgsOut { ctx: last.ctx, r: Ok(vs.push(v)) },
                }
            },
        }
    }
}

/// Binds each parameter to its argument in the given frame, in order.
pub open spec fn i_bind_params(
    ctx: ICtx,
    frame: int,
    params: Seq<Seq<char>>,
    args: Seq<ValueV>,
) -> ICtx
    decreases params.len(),
{
    if params.len() == 0 || args.len() == 0 {
        ctx
    } else {
        i_def_var(
            i_bind_params(ctx, frame, params.drop_last(), args.drop_last()),
            frame,
            params.last(),
            args.last(),
        )
    }
}

/// Calls a function value: the built-in yields its constant; a user
/// function checks the arity, opens one frame over its captured scope
/// holding the receiver (and the receiver's superclass) when bound, then
/// the parameters, runs the body there, and consumes a pending return at
/// this boundary.
pub open spec fn e_call_function(ctx: ICtx, fun: int, args: Seq<ValueV>, fuel: u64) -> EvalOut
    decreases fuel, 0nat, 0nat,
{
    if fuel == 0 {
        EvalOut { ctx, r: Err(limit_error()) }
    } else {
        match ctx.functions[fun] {
            FunctionV::Native { .. } => EvalOut { ctx, r: Ok(ValueV::Num(100)) },
            FunctionV::Standard { params, name, body, token, this, closure } => {
                if params.len() != args.len() {
                    EvalOut {
                        ctx,
                        r: Err(
                            Error { token, error_type: ErrorType::InvalidNumberOfArguments },
                        ),
                    }
                } else {
                    let frame = ctx.envs.len() as int;
                    let opened = i_new_frame(ctx, closure);
                    let with_receiver = match this {
                        Some(t) => {
                            let bound = i_def_var(opened, frame, "this"@, ValueV::Inst(t));
                            let cid = bound.instances[t].class;
                            match bound.classes[cid].superclass {
                                Some(sc) => i_def_var(bound, frame, "super"@, ValueV::Cls(sc)),
                                None => bound,
                            }
                        },
                        None => opened,
                    };
                    let entered = i_bind_params(with_receiver, frame, params, args);
                    let run = e_block(entered, body, frame, (fuel - 1) as u64);
                    match run.r {
                        Err(er) => run,
                        Ok(v) => EvalOut {
                            ctx: ICtx { state: flow_consume_return(run.ctx.state), ..run.ctx },
                            r: Ok(v),
                        },
                    }
                }
            },
        }
    }
}

/// Calls a class: builds an instance seeded with the class's property
/// values and, when the class declares its own `constructor`, runs it
/// bound to the new instance inside a call boundary.
pub open spec fn e_call_class(
    ctx: ICtx,
    class: int,
    args: Seq<ValueV>,
    token: Token,
    fuel: u64,
) -> EvalOut
    decreases fuel, 0nat, 0nat,
{
    if fuel == 0 {
        EvalOut { ctx, r: Err(limit_error()) }
    } else {
        let id = ctx.instances.len() as int;
        let seeded = i_add_instance(
            ctx,
            InstanceV { class, properties: ctx.classes[class].properties },
        );
        if seeded.classes[class].methods.contains_key("constructor"@) {
            let fid = seeded.classes[class].methods["constructor"@];
            let bid = seeded.functions.len() as int;
            let with_ctor = i_add_function(
                seeded,
                spec_bound(seeded.functions[fid as int], id),
            );
            let entered = ICtx { state: flow_enter_call(with_ctor.state), ..with_ctor };
            let run = e_call_function(entered, bid, args, (fuel - 1) as u64);
            let left = ICtx { state: flow_exit_call(run.ctx.state), ..run.ctx };
            match run.r {
                Ok(ignored) => EvalOut { ctx: left, r: Ok(ValueV::Inst(id)) },
                Err(er) => EvalOut { ctx: left, r: Err(er) },
            }
        } else {
            EvalOut { ctx: seeded, r: Ok(ValueV::Inst(id)) }
        }
    }
}

/// Runs statements in order, threading the last executed statement's
/// value and stopping early when a pending escape applies.
pub open spec fn e_stmts(ctx: ICtx, ss: Seq<Stmt>, fuel: u64, last: ValueV) -> EvalOut
    decreases fuel, 1nat, ss.len(),
{
    if fuel == 0 {
        EvalOut { ctx, r: Err(limit_error()) }
    } else if ss.len() == 0 || flow_stops(ctx.state) {
        EvalOut { ctx, r: Ok(last) }
    } else {
        let st = e_stmt(ctx, ss[0], (fuel - 1) as u64);
        match st.r {
            Err(er) => st,
            Ok(v) => e_stmts(st.ctx, ss.subrange(1, ss.len() as int), fuel, v),
        }
    }
}

/// Runs a program fragment: statements in order from a null initial
/// value.
pub open spec fn e_interpret(ctx: ICtx, ss: Seq<Stmt>, fuel: u64) -> EvalOut
    decreases fuel, 2nat, 0nat,
{
    if fuel == 0 {
        EvalOut { ctx, r: Err(limit_error()) }
    } else {
        e_stmts(ctx, ss, fuel, ValueV::Null)
    }
}

/// Runs statements in the given frame, restoring the previous frame
/// afterwards whatever happened.
pub open spec fn e_block(ctx: ICtx, ss: Seq<Stmt>, env: int, fuel: u64) -> EvalOut
    decreases fuel, 0nat, 0nat,
{
    if fuel == 0 {
        EvalOut { ctx, r: Err(limit_error()) }
    } else {
        let prev = ctx.env;
        let run = e_interpret(ICtx { env, ..ctx }, ss, (fuel - 1) as u64);
        EvalOut { ctx: ICtx { env: prev, ..run.ctx }, r: run.r }
    }
}

/// One `while` loop: the condition is re-evaluated before every
/// iteration, a pending break is consumed before the body runs, a
/// pending continue is consumed after it, and a pending return inside a
/// call escapes the loop carrying the body's value.
pub open spec fn e_while(ctx: ICtx, condition: Expr, body: Stmt, fuel: u64) -> EvalOut
    decreases fuel, 1nat, 0nat,
{
    if fuel == 0 {
        EvalOut { ctx, r: Err(limit_error()) }
    } else {
        e_while_rounds(ctx, condition, body, fuel, u64::MAX)
    }
}

/// The remaining rounds of a `while` loop; the round budget renders
/// termination and is beyond reach in practice.
pub open spec fn e_while_rounds(
    ctx: ICtx,
    condition: Expr,
    body: Stmt,
    fuel: u64,
    rounds: u64,
) -> EvalOut
    decreases fuel, 0nat, rounds,
{
    if fuel == 0 || rounds == 0 {
        EvalOut { ctx, r: Err(limit_error()) }
    } else {
        let c = e_expr(ctx, condition, (fuel - 1) as u64);
        match c.r {
            Err(er) => c,
            Ok(cv) => {
                if truthy(cv) {
                    let brk = c.ctx.state.should_break;
                    let consumed = ICtx {
                        state: State { should_break: false, ..c.ctx.state },
                        ..c.ctx
                    };
                    if brk {
                        EvalOut { ctx: consumed, r: Ok(ValueV::Null) }
                    } else {
                        let b = e_stmt(consumed, body, (fuel - 1) as u64);
                        match b.r {
                            Err(er) => b,
                            Ok(bv) => {
                                let next = ICtx {
                                    state: State { should_continue: false, ..b.ctx.state },
                                    ..b.ctx
                                };
                                if next.state.should_return && next.state.inside_call > 0 {
                                    EvalOut { ctx: next, r: Ok(bv) }
                                } else {
                                    e_while_rounds(
                                        next,
                                        condition,
                                        body,
                                        fuel,
                                        (rounds - 1) as u64,
                                    )
                                }
                            },
                        }
                    }
                } else {
                    EvalOut { ctx: c.ctx, r: Ok(ValueV::Null) }
                }
            },
        }
    }
}

/// Executes one statement.
pub open spec fn e_stmt(ctx: ICtx, s: Stmt, fuel: u64) -> EvalOut
    decreases fuel, 2nat, 0nat,
{
    if fuel == 0 {
        EvalOut { ctx, r: Err(limit_error()) }
    } else {
        match s {
            Stmt::Print { expr } => {
                let v = e_expr(ctx, expr, (fuel - 1) as u64);
                match v.r {
                    Err(er) => v,
                    Ok(vv) => EvalOut {
                        ctx: i_print(
                            v.ctx,
                            spec_value_display(vv, v.ctx.functions, v.ctx.classes, v.ctx.instances),
                        ),
                        r: Ok(ValueV::Null),
                    },
                }
            },
            Stmt::Expr { expr } => e_expr(ctx, expr, (fuel - 1) as u64),
            Stmt::Var { name, value } => {
                let v = match value {
                    Some(e) => e_expr(ctx, e, (fuel - 1) as u64),
                    None => EvalOut { ctx, r: Ok(ValueV::Null) },
                };
                match v.r {
                    Err(er) => v,
                    Ok(vv) => EvalOut {
                        ctx: i_def_var(v.ctx, v.ctx.env, name@, vv),
                        r: Ok(vv),
                    },
                }
            },
            Stmt::Block { stmts } => {
                let frame = ctx.envs.len() as int;
                e_block(i_new_frame(ctx, ctx.env), stmts@, frame, (fuel - 1) as u64)
            },
            Stmt::If { condition, then_body, else_body } => {
                let c = e_expr(ctx, condition, (fuel - 1) as u64);
                match c.r {
                    Err(er) => c,
                    Ok(cv) => {
                        if truthy(cv) {
                            e_stmt(c.ctx, *then_body, (fuel - 1) as u64)
                        } else {
                            match else_body {
                                Some(stmt) => e_stmt(c.ctx, *stmt, (fuel - 1) as u64),
                                None => EvalOut { ctx: c.ctx, r: Ok(ValueV::Null) },
                            }
                        }
                    },
                }
            },
            Stmt::While { condition, body } => e_while(ctx, condition, *body, (fuel - 1) as u64),
            Stmt::Break { .. } => EvalOut {
                ctx: ICtx { state: State { should_break: true, ..ctx.state }, ..ctx },
                r: Ok(ValueV::Null),
            },
            Stmt::Continue { .. } => EvalOut {
                ctx: ICtx { state: State { should_continue: true, ..ctx.state }, ..ctx },
                r: Ok(ValueV::Null),
            },
            Stmt::Function { params, body, name, token } => {
                let f = FunctionV::Standard {
                    params: names_view(params@),
                    name: name@,
                    body: body@,
                    token,
                    this: None,
                    closure: ctx.env,
                };
                let id = ctx.functions.len() as int;
                EvalOut {
                    ctx: i_def_var(i_add_function(ctx, f), ctx.env, name@, ValueV::Fun(id)),
                    r: Ok(ValueV::Fun(id)),
                }
            },
            Stmt::Class { .. } => e_class(ctx, s, fuel),
            Stmt::Return { value, .. } => {
                let v = match value {
                    Some(e) => e_expr(ctx, e, (fuel - 1) as u64),
                    None => EvalOut { ctx, r: Ok(ValueV::Null) },
                };
                match v.r {
                    Err(er) => v,
                    Ok(vv) => EvalOut {
                        ctx: ICtx {
                            state: State { should_return: true, ..v.ctx.state },
                            ..v.ctx
                        },
                        r: Ok(vv),
                    },
                }
            },
        }
    }
}

/// Walks a class body: each property initializer is evaluated and
/// recorded, each method is collected as a function over the current
/// scope; the first error aborts the walk.
pub open spec fn e_members(ctx: ICtx, cls: ClassV, members: Seq<Stmt>, fuel: u64) -> ClassOut
    decreases fuel, 0nat, members.len(),
{
    if fuel == 0 {
        ClassOut { ctx, cls, err: Some(limit_error()) }
    } else if members.len() == 0 {
        ClassOut { ctx, cls, err: None }
    } else {
        let pre = e_members(ctx, cls, members.drop_last(), fuel);
        match pre.err {
            Some(er) => pre,
            None => match members.last() {
                Stmt::Var { name: pname, value } => {
                    let v = match value {
                        Some(e) => e_expr(pre.ctx, e, (fuel - 1) as u64),
                        None => EvalOut { ctx: pre.ctx, r: Ok(ValueV::Null) },
                    };
                    match v.r {
                        Err(er) => ClassOut { ctx: v.ctx, cls: pre.cls, err: Some(er) },
                        Ok(vv) => ClassOut {
                            ctx: v.ctx,
                            cls: ClassV {
                                properties: pre.cls.properties.insert(pname@, vv),
                                ..pre.cls
                            },
                            err: None,
                        },
                    }
                },
                Stmt::Function { name: mname, params, body, token: mtoken } => {
                    let f = FunctionV::Standard {
                        params: names_view(params@),
                        name: mname@,
                        body: body@,
                        token: mtoken,
                        this: None,
                        closure: pre.ctx.env,
                    };
                    ClassOut {
                        ctx: i_add_function(pre.ctx, f),
                        cls: ClassV {
                            methods: pre.cls.methods.insert(
                                mname@,
                                pre.ctx.functions.len() as usize,
                            ),
                            ..pre.cls
                        },
                        err: None,
                    }
                },
                _ => pre,
            },
        }
    }
}

/// Executes a class declaration: pre-binds the name to null, evaluates
/// the superclass expression (which must name a class), walks the
/// members, then rebinds the name to the finished class.
pub open spec fn e_class(ctx: ICtx, s: Stmt, fuel: u64) -> EvalOut
    decreases fuel, 1nat, 0nat,
{
    match s {
        Stmt::Class { name, token, members, superclass } => {
            if fuel == 0 {
                EvalOut { ctx, r: Err(limit_error()) }
            } else {
                let bound = i_def_var(ctx, ctx.env, name@, ValueV::Null);
                match superclass {
                    Some(sc) => {
                        let sv = e_expr(bound, sc, (fuel - 1) as u64);
                        match sv.r {
                            Err(er) => sv,
                            Ok(v) => match v {
                                ValueV::Cls(cid) => e_class_finish(
                                    sv.ctx,
                                    name@,
                                    Some(cid),
                                    members@,
                                    fuel,
                                ),
                                _ => EvalOut {
                                    ctx: sv.ctx,
                                    r: Err(
                                        Error {
                                            token,
                                            error_type: ErrorType::CanOnlyInheritFromClass,
                                        },
                                    ),
                                },
                            },
                        }
                    },
                    None => e_class_finish(bound, name@, None, members@, fuel),
                }
            }
        },
        _ => EvalOut { ctx, r: Ok(ValueV::Null) },
    }
}

/// Builds the class from its members and rebinds its name.
pub open spec fn e_class_finish(
    ctx: ICtx,
    name: Seq<char>,
    superclass: Option<int>,
    members: Seq<Stmt>,
    fuel: u64,
) -> EvalOut
    decreases fuel, 0nat, members.len() + 1,
{
    let start = ClassV {
        name,
        properties: Map::empty(),
        methods: Map::empty(),
        superclass,
    };
    let walked = e_members(ctx, start, members, fuel);
    match walked.err {
        Some(er) => EvalOut { ctx: walked.ctx, r: Err(er) },
        None => {
            let cid = walked.ctx.classes.len() as int;
            let added = i_add_class(walked.ctx, walked.cls);
            EvalOut {
                ctx: i_def_var(added, added.env, name, ValueV::Cls(cid)),
                r: Ok(ValueV::Null),
            }
        },
    }
}


/// Once an argument list has failed on a prefix, the whole list fails
/// the same way: the fold returns the first error unchanged.
proof fn lemma_e_args_err_stable(ctx: ICtx, es: Seq<Expr>, fuel: u64, k: int)
    requires
        0 <= k <= es.len(),
        fuel > 0,
        e_args(ctx, es.subrange(0, k), fuel).r is Err,
    ensures
        e_args(ctx, es, fuel) == e_args(ctx, es.subrange(0, k), fuel),
    decreases es.len() - k,
{
    if k == es.len() {
        assert(es.subrange(0, k) =~= es);
    } else {
        assert(es.subrange(0, k + 1).drop_last() =~= es.subrange(0, k));
        assert(e_args(ctx, es.subrange(0, k + 1), fuel) == e_args(ctx, es.subrange(0, k), fuel));
        lemma_e_args_err_stable(ctx, es, fuel, k + 1);
    }
}

/// Once a class-body walk has failed on a prefix of the members, the
/// whole walk fails the same way.
proof fn lemma_e_members_err_stable(
    ctx: ICtx,
    cls: ClassV,
    members: Seq<Stmt>,
    fuel: u64,
    k: int,
)
    requires
        0 <= k <= members.len(),
        fuel > 0,
        e_members(ctx, cls, members.subrange(0, k), fuel).err is Some,
    ensures
        e_members(ctx, cls, members, fuel) == e_members(ctx, cls, members.subrange(0, k), fuel),
    decreases members.len() - k,
{
    if k == members.len() {
        assert(members.subrange(0, k) =~= members);
    } else {
        assert(members.subrange(0, k + 1).drop_last() =~= members.subrange(0, k));
        assert(e_members(ctx, cls, members.subrange(0, k + 1), fuel) == e_members(
            ctx,
            cls,
            members.subrange(0, k),
            fuel,
        ));
        lemma_e_members_err_stable(ctx, cls, members, fuel, k + 1);
    }
}

} // verus!
