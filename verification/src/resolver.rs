//! The static resolver.
//!
//! A single pass over the syntax tree that computes, for every variable
//! reference site, how many scopes separate the reference from its
//! declaration, and that reports the compile-time errors: reading a name
//! in its own initializer, `break`/`continue` outside a loop, `this` and
//! `super` misuse, and a class inheriting from itself. The pass never
//! evaluates anything; it only tracks which names are declared per scope.
//!
//! The whole pass is mirrored by specification functions over [`RCtx`];
//! every method's postcondition states that it computes exactly what its
//! mirror denotes, so the pass is a mathematical function of the tree.
//! Scope pushes here must match the evaluator's frame pushes construct by
//! construct: that correspondence is what makes the distances meaningful.

use crate::assoc::{assoc_view, distinct_keys, lemma_assoc_view_dom, lemma_assoc_view_index,
    lemma_assoc_view_push, lemma_assoc_view_update};
use crate::error::{Error, ErrorType};
use crate::expr::Expr;
use crate::numfmt::{spec_nat_str, usize_to_string};
use crate::statement::Stmt;
use crate::token::Token;
use vstd::prelude::*;
use vstd::string::StringExecFns;

verus! {

/// The identity of a variable reference site: its position and the name
/// it refers to.
pub ghost struct SiteKey {
    pub line: int,
    pub start: int,
    pub end: int,
    pub name: Seq<char>,
}

/// A reference to a variable at a particular site. The resolver keys its
/// distance table by this value, so two occurrences of one name at
/// different positions are resolved independently.
pub struct VarRef {
    pub token: Token,
    pub name: String,
}

impl View for VarRef {
    type V = SiteKey;

    open spec fn view(&self) -> SiteKey {
        SiteKey {
            line: self.token.line as int,
            start: self.token.start as int,
            end: self.token.end as int,
            name: self.name@,
        }
    }
}

/// The site key of a token/name pair.
pub open spec fn spec_site(token: Token, name: Seq<char>) -> SiteKey {
    SiteKey {
        line: token.line as int,
        start: token.start as int,
        end: token.end as int,
        name: name,
    }
}

impl VarRef {
    pub fn new(token: &Token, name: &String) -> (v: VarRef)
        ensures
            v@ == spec_site(*token, name@),
    {
        VarRef { token: *token, name: name.clone() }
    }

    /// Renders the site as `line-start-end-name`.
    pub fn to_string(&self) -> (s: String)
        ensures
            s@ == spec_nat_str(self@.line) + "-"@ + spec_nat_str(self@.start) + "-"@
                + spec_nat_str(self@.end) + "-"@ + self@.name,
    {
        let mut s = usize_to_string(self.token.line);
        s.append("-");
        let part = usize_to_string(self.token.start);
        s.append(part.as_str());
        s.append("-");
        let part = usize_to_string(self.token.end);
        s.append(part.as_str());
        s.append("-");
        s.append(self.name.as_str());
        s
    }
}

/// The distance table: for each resolved reference site, how many frames
/// up its declaration lives. Produced once by the resolver and read by
/// the evaluator on every variable access.
pub struct Distances {
    entries: Vec<(VarRef, usize)>,
}

impl View for Distances {
    type V = Map<SiteKey, usize>;

    closed spec fn view(&self) -> Map<SiteKey, usize> {
        assoc_view(self.entries@)
    }
}

impl Distances {
    pub closed spec fn wf(&self) -> bool {
        distinct_keys(self.entries@)
    }

    pub fn new() -> (d: Distances)
        ensures
            d.wf(),
            d@ == Map::<SiteKey, usize>::empty(),
    {
        Distances { entries: Vec::new() }
    }

    /// The position of a site's entry, if present.
    fn find(&self, var: &VarRef) -> (r: Option<usize>)
        requires
            self.wf(),
        ensures
            match r {
                Some(i) => i < self.entries@.len() && self.entries@[i as int].0@ == var@
                    && self@.contains_key(var@) && self@[var@] == self.entries@[i as int].1,
                None => !self@.contains_key(var@),
            },
    {
        let n = self.entries.len();
        for i in 0..n
            invariant
                n == self.entries@.len(),
                self.wf(),
                forall|j: int| 0 <= j < i ==> self.entries@[j].0@ != var@,
        {
            let e = &self.entries[i];
            if e.0.token.line == var.token.line && e.0.token.start == var.token.start
                && e.0.token.end == var.token.end && e.0.name == var.name {
                proof {
                    lemma_assoc_view_index(self.entries@, i as int);
                }
                return Some(i);
            }
        }
        proof {
            lemma_assoc_view_dom(self.entries@, var@);
        }
        None
    }

    /// The recorded distance for a site.
    pub fn get(&self, var: &VarRef) -> (r: Option<usize>)
        requires
            self.wf(),
        ensures
            match r {
                Some(d) => self@.contains_key(var@) && self@[var@] == d,
                None => !self@.contains_key(var@),
            },
    {
        match self.find(var) {
            Some(i) => Some(self.entries[i].1),
            None => None,
        }
    }

    /// Records the distance for a site, overwriting any earlier record.
    pub fn insert(&mut self, var: VarRef, depth: usize)
        requires
            old(self).wf(),
        ensures
            final(self).wf(),
            final(self)@ == old(self)@.insert(var@, depth),
    {
        let ghost s0 = self.entries@;
        match self.find(&var) {
            Some(i) => {
                let pair = (var, depth);
                let ghost p = pair;
                self.entries[i] = pair;
                proof {
                    lemma_assoc_view_update(s0, i as int, p);
                }
            },
            None => {
                let ghost k = var@;
                let pair = (var, depth);
                let ghost p = pair;
                self.entries.push(pair);
                proof {
                    lemma_assoc_view_dom(s0, k);
                    lemma_assoc_view_push(s0, p);
                }
            },
        }
    }
}

/// The declaration state of a name within one resolver scope: `Declare`
/// reserves the name before its initializer runs, `Define` marks it safe
/// to read.
pub enum Init {
    Declare,
    Define,
}

impl View for Init {
    type V = bool;

    open spec fn view(&self) -> bool {
        match self {
            Init::Declare => false,
            Init::Define => true,
        }
    }
}

impl Init {
    /// Whether a name in this state may be read.
    pub fn is_ready(&self) -> (r: bool)
        ensures
            r == self@,
    {
        match self {
            Init::Declare => false,
            Init::Define => true,
        }
    }
}

/// One scope of the resolver's scope stack: a map from name to whether
/// the name is ready to be read.
pub struct Scope {
    entries: Vec<(String, Init)>,
}

impl View for Scope {
    type V = Map<Seq<char>, bool>;

    closed spec fn view(&self) -> Map<Seq<char>, bool> {
        assoc_view(self.entries@)
    }
}

impl Scope {
    pub closed spec fn wf(&self) -> bool {
        distinct_keys(self.entries@)
    }

    fn new() -> (s: Scope)
        ensures
            s.wf(),
            s@ == Map::<Seq<char>, bool>::empty(),
    {
        Scope { entries: Vec::new() }
    }

    fn find(&self, name: &String) -> (r: Option<usize>)
        requires
            self.wf(),
        ensures
            match r {
                Some(i) => i < self.entries@.len() && self.entries@[i as int].0@ == name@
                    && self@.contains_key(name@) && self@[name@] == self.entries@[i as int].1@,
                None => !self@.contains_key(name@),
            },
    {
        let n = self.entries.len();
        for i in 0..n
            invariant
                n == self.entries@.len(),
                self.wf(),
                forall|j: int| 0 <= j < i ==> self.entries@[j].0@ != name@,
        {
            if self.entries[i].0 == *name {
                proof {
                    lemma_assoc_view_index(self.entries@, i as int);
                }
                return Some(i);
            }
        }
        proof {
            lemma_assoc_view_dom(self.entries@, name@);
        }
        None
    }

    /// Whether the scope holds the name at all.
    fn contains(&self, name: &String) -> (r: bool)
        requires
            self.wf(),
        ensures
            r == self@.contains_key(name@),
    {
        self.find(name).is_some()
    }

    /// The readiness recorded for a name, if the scope holds it.
    fn state_of(&self, name: &String) -> (r: Option<bool>)
        requires
            self.wf(),
        ensures
            match r {
                Some(b) => self@.contains_key(name@) && self@[name@] == b,
                None => !self@.contains_key(name@),
            },
    {
        match self.find(name) {
            Some(i) => Some(self.entries[i].1.is_ready()),
            None => None,
        }
    }

    /// Reserves a name, not yet ready; a name already present is left as
    /// it is.
    fn declare(&mut self, name: &String)
        requires
            old(self).wf(),
        ensures
            final(self).wf(),
            final(self)@ == if old(self)@.contains_key(name@) {
                old(self)@
            } else {
                old(self)@.insert(name@, false)
            },
    {
        let ghost s0 = self.entries@;
        match self.find(name) {
            Some(_) => {},
            None => {
                let pair = (name.clone(), Init::Declare);
                let ghost p = pair;
                self.entries.push(pair);
                proof {
                    lemma_assoc_view_dom(s0, name@);
                    lemma_assoc_view_push(s0, p);
                }
            },
        }
    }

    /// Marks a name ready to read, inserting it if it was never declared.
    fn define(&mut self, name: &String)
        requires
            old(self).wf(),
        ensures
            final(self).wf(),
            final(self)@ == old(self)@.insert(name@, true),
    {
        let ghost s0 = self.entries@;
        match self.find(name) {
            Some(i) => {
                let pair = (name.clone(), Init::Define);
                let ghost p = pair;
                self.entries[i] = pair;
                proof {
                    lemma_assoc_view_update(s0, i as int, p);
                }
            },
            None => {
                let pair = (name.clone(), Init::Define);
                let ghost p = pair;
                self.entries.push(pair);
                proof {
                    lemma_assoc_view_dom(s0, name@);
                    lemma_assoc_view_push(s0, p);
                }
            },
        }
    }
}

/// Whether the innermost enclosing class of the point being resolved has
/// a superclass; `Subclass` is what licenses `super`.
#[derive(Clone, Copy, Debug, PartialEq, Eq, Structural)]
pub enum ClassType {
    Subclass,
    Class,
}

/// The context flags the resolver carries: the kind of the innermost
/// enclosing class, if any, and whether the point being resolved lies
/// inside a loop body.
#[derive(Clone, Copy, Debug, PartialEq, Eq, Structural)]
pub struct ResolverState {
    pub current_class: Option<ClassType>,
    pub inside_loop: bool,
}

impl ResolverState {
    pub fn new() -> (s: ResolverState)
        ensures
            s == (ResolverState { current_class: None, inside_loop: false }),
    {
        ResolverState { current_class: None, inside_loop: false }
    }

    /// `Ok` exactly when the point being resolved lies inside a loop;
    /// otherwise the `break`/`continue` misuse error at `token`.
    pub fn is_inside_loop(&self, token: &Token) -> (r: Result<(), Error>)
        ensures
            self.inside_loop ==> r is Ok,
            !self.inside_loop ==> r == Result::<(), Error>::Err(
                Error { token: *token, error_type: ErrorType::NotAllowedOutsideLoop },
            ),
    {
        if !self.inside_loop {
            return Err(Error { token: *token, error_type: ErrorType::NotAllowedOutsideLoop });
        }
        Ok(())
    }
}

/// The mathematical state of the resolver: the scope stack (innermost
/// last), the context flags, the distances recorded so far, and the
/// errors reported so far, in order.
#[verifier::ext_equal]
pub ghost struct RCtx {
    pub scopes: Seq<Map<Seq<char>, bool>>,
    pub current_class: Option<ClassType>,
    pub inside_loop: bool,
    pub distances: Map<SiteKey, usize>,
    pub errors: Seq<Error>,
}

/// The state a fresh resolver starts from: one empty scope standing for
/// the top level, no flags, nothing recorded.
pub open spec fn initial_rctx() -> RCtx {
    RCtx {
        scopes: seq![Map::<Seq<char>, bool>::empty()],
        current_class: None,
        inside_loop: false,
        distances: Map::empty(),
        errors: Seq::empty(),
    }
}

/// Pushes an empty scope.
pub open spec fn r_begin(ctx: RCtx) -> RCtx {
    RCtx { scopes: ctx.scopes.push(Map::empty()), ..ctx }
}

/// Pops the innermost scope.
pub open spec fn r_end(ctx: RCtx) -> RCtx {
    if ctx.scopes.len() > 0 {
        RCtx { scopes: ctx.scopes.drop_last(), ..ctx }
    } else {
        ctx
    }
}

/// Reserves a name in the innermost scope, as [`Scope::declare`] does.
pub open spec fn r_declare(ctx: RCtx, name: Seq<char>) -> RCtx {
    if ctx.scopes.len() == 0 {
        ctx
    } else if ctx.scopes.last().contains_key(name) {
        ctx
    } else {
        RCtx {
            scopes: ctx.scopes.update(ctx.scopes.len() - 1, ctx.scopes.last().insert(name, false)),
            ..ctx
        }
    }
}

/// Marks a name ready in the innermost scope, as [`Scope::define`] does.
pub open spec fn r_define(ctx: RCtx, name: Seq<char>) -> RCtx {
    if ctx.scopes.len() == 0 {
        ctx
    } else {
        RCtx {
            scopes: ctx.scopes.update(ctx.scopes.len() - 1, ctx.scopes.last().insert(name, true)),
            ..ctx
        }
    }
}

/// Reports an error.
pub open spec fn r_error(ctx: RCtx, token: Token, error_type: ErrorType) -> RCtx {
    RCtx { errors: ctx.errors.push(Error { token, error_type }), ..ctx }
}

/// The depth of the nearest scope containing a name, counting from the
/// innermost scope outward; `None` when no scope contains it.
pub open spec fn find_depth(scopes: Seq<Map<Seq<char>, bool>>, name: Seq<char>) -> Option<int>
    decreases scopes.len(),
{
    if scopes.len() == 0 {
        None
    } else if scopes.last().contains_key(name) {
        Some(0int)
    } else {
        match find_depth(scopes.drop_last(), name) {
            Some(d) => Some(d + 1),
            None => None,
        }
    }
}

/// Records the distance for a site if any scope contains its name; a
/// reference no scope contains is left unresolved.
pub open spec fn r_resolve_distance(ctx: RCtx, key: SiteKey) -> RCtx {
    match find_depth(ctx.scopes, key.name) {
        Some(d) => RCtx { distances: ctx.distances.insert(key, d as usize), ..ctx },
        None => ctx,
    }
}

/// What a recorded depth means: `find_depth` names the nearest scope
/// holding the name — that scope contains it, and no scope strictly
/// nearer does. This is the resolver's half of the guarantee that a
/// resolved distance counts exactly the frames between a reference and
/// its declaration.
pub proof fn lemma_find_depth_nearest(scopes: Seq<Map<Seq<char>, bool>>, name: Seq<char>)
    ensures
        match find_depth(scopes, name) {
            Some(d) => 0 <= d < scopes.len() && scopes[scopes.len() - 1 - d].contains_key(name)
                && forall|j: int|
                    scopes.len() - 1 - d < j < scopes.len() ==> !(#[trigger] scopes[j]).contains_key(
                        name,
                    ),
            None => forall|j: int|
                0 <= j < scopes.len() ==> !(#[trigger] scopes[j]).contains_key(name),
        },
    decreases scopes.len(),
{
    if scopes.len() > 0 && !scopes.last().contains_key(name) {
        lemma_find_depth_nearest(scopes.drop_last(), name);
        let inner = scopes.drop_last();
        match find_depth(inner, name) {
            Some(d) => {
                assert(inner[inner.len() - 1 - d] == scopes[scopes.len() - 1 - (d + 1)]);
                assert forall|j: int|
                    scopes.len() - 1 - (d + 1) < j < scopes.len() implies !(
                #[trigger] scopes[j]).contains_key(name) by {
                    if j < scopes.len() - 1 {
                        assert(scopes[j] == inner[j]);
                    }
                }
            },
            None => {
                assert forall|j: int|
                    0 <= j < scopes.len() implies !(#[trigger] scopes[j]).contains_key(name) by {
                    if j < scopes.len() - 1 {
                        assert(scopes[j] == inner[j]);
                    }
                }
            },
        }
    }
}


/// Declares and defines each parameter in order, as a function scope does.
pub open spec fn r_params(ctx: RCtx, params: Seq<String>) -> RCtx
    decreases params.len(),
{
    if params.len() == 0 {
        ctx
    } else {
        let c = r_params(ctx, params.drop_last());
        r_define(r_declare(c, params.last()@), params.last()@)
    }
}

/// Resolves an expression. This is the resolver's meaning, written as a
/// mathematical function; the methods on [`Resolver`] compute exactly it.
pub open spec fn r_expr(ctx: RCtx, e: Expr) -> RCtx
    decreases e, 0nat,
{
    match e {
        Expr::Binary { left, right, .. } => r_expr(r_expr(ctx, *left), *right),
        Expr::Literal { .. } => ctx,
        Expr::Unary { expr, .. } => r_expr(ctx, *expr),
        Expr::Grouping { expr } => r_expr(ctx, *expr),
        Expr::Var { name, token } => {
            if ctx.scopes.len() > 0 && ctx.scopes.last().contains_key(name@)
                && ctx.scopes.last()[name@] == false {
                r_error(ctx, token, ErrorType::CantUseVariableInItsInitializer)
            } else {
                r_resolve_distance(ctx, spec_site(token, name@))
            }
        },
        Expr::Assign { name, expr, token } => r_resolve_distance(
            r_expr(ctx, *expr),
            spec_site(token, name@),
        ),
        Expr::Logical { left, right, .. } => r_expr(r_expr(ctx, *left), *right),
        Expr::Call { callee, arguments, .. } => r_exprs(r_expr(ctx, *callee), arguments@),
        Expr::Closure { params, body, .. } => r_function(ctx, params@, body@),
        Expr::Get { expr, .. } => r_expr(ctx, *expr),
        Expr::SetProp { value, obj, .. } => r_expr(r_expr(ctx, *value), *obj),
        Expr::This { token } => {
            if ctx.current_class is None {
                r_error(ctx, token, ErrorType::CantUseThis)
            } else {
                r_resolve_distance(ctx, spec_site(token, "this"@))
            }
        },
        Expr::Super { token, .. } => {
            if ctx.current_class == Some(ClassType::Subclass) {
                r_resolve_distance(ctx, spec_site(token, "super"@))
            } else {
                r_error(ctx, token, ErrorType::CantUseSuper)
            }
        },
    }
}

/// Resolves a list of expressions left to right.
pub open spec fn r_exprs(ctx: RCtx, es: Seq<Expr>) -> RCtx
    decreases es, 0nat,
{
    if es.len() == 0 {
        ctx
    } else {
        r_expr(r_exprs(ctx, es.drop_last()), es.last())
    }
}

/// Resolves a function body: one scope holding the parameters and body.
pub open spec fn r_function(ctx: RCtx, params: Seq<String>, body: Seq<Stmt>) -> RCtx
    decreases body, 1nat,
{
    r_end(r_stmts(r_params(r_begin(ctx), params), body))
}

/// Resolves the members of a class body: each method's function scope,
/// nested inside the class scope; other members are not resolved.
pub open spec fn r_members(ctx: RCtx, members: Seq<Stmt>) -> RCtx
    decreases members, 2nat,
{
    if members.len() == 0 {
        ctx
    } else {
        let c = r_members(ctx, members.drop_last());
        match members.last() {
            Stmt::Function { params, body, .. } => r_function(c, params@, body@),
            _ => c,
        }
    }
}

/// Resolves a statement.
pub open spec fn r_stmt(ctx: RCtx, s: Stmt) -> RCtx
    decreases s, 0nat,
{
    match s {
        Stmt::Print { expr } => r_expr(ctx, expr),
        Stmt::Expr { expr } => r_expr(ctx, expr),
        Stmt::Var { name, value } => {
            let c1 = r_declare(ctx, name@);
            let c2 = match value {
                Some(e) => r_expr(c1, e),
                None => c1,
            };
            r_define(c2, name@)
        },
        Stmt::Block { stmts } => r_end(r_stmts(r_begin(ctx), stmts@)),
        Stmt::If { condition, then_body, else_body } => {
            let c1 = r_stmt(r_expr(ctx, condition), *then_body);
            match else_body {
                Some(e) => r_stmt(c1, *e),
                None => c1,
            }
        },
        Stmt::While { condition, body } => {
            let c1 = r_expr(ctx, condition);
            let prev = c1.inside_loop;
            let c2 = r_stmt(RCtx { inside_loop: true, ..c1 }, *body);
            RCtx { inside_loop: prev, ..c2 }
        },
        Stmt::Break { token } => {
            if ctx.inside_loop {
                ctx
            } else {
                r_error(ctx, token, ErrorType::NotAllowedOutsideLoop)
            }
        },
        Stmt::Continue { token } => {
            if ctx.inside_loop {
                ctx
            } else {
                r_error(ctx, token, ErrorType::NotAllowedOutsideLoop)
            }
        },
        Stmt::Function { params, body, name, .. } => {
            let c1 = r_define(r_declare(ctx, name@), name@);
            r_function(c1, params@, body@)
        },
        Stmt::Class { name, token, members, superclass } => {
            let c1 = r_define(r_declare(ctx, name@), name@);
            let prev = c1.current_class;
            let c2 = match superclass {
                Some(sc) => {
                    let ca = RCtx { current_class: Some(ClassType::Subclass), ..c1 };
                    let cb = match sc {
                        Expr::Var { name: sc_name, token: sc_token } => if sc_name@ == name@ {
                            r_error(ca, sc_token, ErrorType::CantInheritFromItself)
                        } else {
                            ca
                        },
                        _ => ca,
                    };
                    r_expr(cb, sc)
                },
                None => RCtx { current_class: Some(ClassType::Class), ..c1 },
            };
            let c3 = r_define(r_begin(c2), "this"@);
            let c4 = if superclass is Some {
                r_define(c3, "super"@)
            } else {
                c3
            };
            let c5 = r_end(r_members(c4, members@));
            RCtx { current_class: prev, ..c5 }
        },
        Stmt::Return { value, .. } => {
            match value {
                Some(e) => r_expr(ctx, e),
                None => ctx,
            }
        },
    }
}

/// Resolves a list of statements left to right.
pub open spec fn r_stmts(ctx: RCtx, ss: Seq<Stmt>) -> RCtx
    decreases ss, 0nat,
{
    if ss.len() == 0 {
        ctx
    } else {
        r_stmt(r_stmts(ctx, ss.drop_last()), ss.last())
    }
}

/// The state a fresh resolver reaches on a whole program.
pub open spec fn r_program(stmts: Seq<Stmt>) -> RCtx {
    r_stmts(initial_rctx(), stmts)
}


/// The static resolver. Its state is exactly an [`RCtx`], and every
/// method's postcondition says it computes the corresponding mirror
/// function, so a whole pass is a mathematical function of the program.
pub struct Resolver {
    pub scopes: Vec<Scope>,
    pub state: ResolverState,
    pub distances: Distances,
    pub errors: Vec<Error>,
}

impl View for Resolver {
    type V = RCtx;

    closed spec fn view(&self) -> RCtx {
        RCtx {
            scopes: self.scopes@.map_values(|s: Scope| s@),
            current_class: self.state.current_class,
            inside_loop: self.state.inside_loop,
            distances: self.distances@,
            errors: self.errors@,
        }
    }
}

impl Resolver {
    pub closed spec fn wf(&self) -> bool {
        &&& forall|i: int| 0 <= i < self.scopes@.len() ==> (#[trigger] self.scopes@[i]).wf()
        &&& self.distances.wf()
    }

    /// A fresh resolver: one scope standing for the top level, nothing
    /// recorded yet.
    pub fn new() -> (r: Resolver)
        ensures
            r.wf(),
            r@ == initial_rctx(),
    {
        let mut scopes: Vec<Scope> = Vec::new();
        scopes.push(Scope::new());
        let r = Resolver {
            scopes,
            state: ResolverState::new(),
            distances: Distances::new(),
            errors: Vec::new(),
        };
        proof {
            assert(r@.scopes =~= initial_rctx().scopes);
            assert(r@ =~= initial_rctx());
        }
        r
    }

    fn begin_scope(&mut self)
        requires
            old(self).wf(),
        ensures
            final(self).wf(),
            final(self)@ == r_begin(old(self)@),
    {
        self.scopes.push(Scope::new());
        proof {
            assert(self@.scopes =~= r_begin(old(self)@).scopes);
            assert(self@ =~= r_begin(old(self)@));
        }
    }

    fn end_scope(&mut self)
        requires
            old(self).wf(),
        ensures
            final(self).wf(),
            final(self)@ == r_end(old(self)@),
    {
        let _ = self.scopes.pop();
        proof {
            assert(self@.scopes =~= r_end(old(self)@).scopes);
            assert(self@ =~= r_end(old(self)@));
        }
    }

    fn declare(&mut self, name: &String)
        requires
            old(self).wf(),
        ensures
            final(self).wf(),
            final(self)@ == r_declare(old(self)@, name@),
    {
        let n = self.scopes.len();
        if n == 0 {
            return ;
        }
        let sc = &mut self.scopes[n - 1];
        sc.declare(name);
        proof {
            assert(self@.scopes =~= r_declare(old(self)@, name@).scopes);
            assert(self@ =~= r_declare(old(self)@, name@));
        }
    }

    fn define(&mut self, name: &String)
        requires
            old(self).wf(),
        ensures
            final(self).wf(),
            final(self)@ == r_define(old(self)@, name@),
    {
        let n = self.scopes.len();
        if n == 0 {
            return ;
        }
        let sc = &mut self.scopes[n - 1];
        sc.define(name);
        proof {
            assert(self@.scopes =~= r_define(old(self)@, name@).scopes);
            assert(self@ =~= r_define(old(self)@, name@));
        }
    }

    /// Searches the scope stack from the innermost scope outward and
    /// records the depth of the nearest scope holding the name; a name no
    /// scope holds is left unresolved.
    fn resolve_distance(&mut self, var: VarRef)
        requires
            old(self).wf(),
        ensures
            final(self).wf(),
            final(self)@ == r_resolve_distance(old(self)@, var@),
    {
        proof {
            lemma_find_depth_nearest(self@.scopes, var@.name);
        }
        let n = self.scopes.len();
        let mut d: usize = 0;
        while d < n
            invariant
                self == old(self),
                self.wf(),
                n == self.scopes@.len(),
                d <= n,
                forall|j: int|
                    n - 1 - d < j < n ==> !(#[trigger] self@.scopes[j]).contains_key(var@.name),
            decreases n - d,
        {
            let idx = n - 1 - d;
            if self.scopes[idx].contains(&var.name) {
                proof {
                    let scopes = self@.scopes;
                    let nm = var@.name;
                    lemma_find_depth_nearest(scopes, nm);
                    assert(scopes[idx as int].contains_key(nm));
                    match find_depth(scopes, nm) {
                        Some(dl) => {
                            if dl < d {
                                assert(!scopes[n - 1 - dl].contains_key(nm));
                            }
                            if dl > d {
                                assert(!scopes[n - 1 - d].contains_key(nm));
                            }
                            assert(dl == d);
                        },
                        None => {
                            assert(!scopes[n - 1 - d].contains_key(nm));
                        },
                    }
                    assert(find_depth(self@.scopes, var@.name) == Some(d as int));
                }
                self.distances.insert(var, d);
                proof {
                    assert(self@ =~= r_resolve_distance(old(self)@, var@));
                }
                return ;
            }
            d = d + 1;
        }
        proof {
            assert(find_depth(self@.scopes, var@.name) is None);
        }
    }
}


impl Resolver {
    /// Resolves one expression: records distances for the reference sites
    /// in it and reports its compile-time errors.
    #[verifier::loop_isolation(false)]
    fn resolve_expr(&mut self, e: &Expr)
        requires
            old(self).wf(),
        ensures
            final(self).wf(),
            final(self)@ == r_expr(old(self)@, *e),
        decreases *e, 0nat,
    {
        match e {
            Expr::Binary { left, right, .. } => {
                self.resolve_expr(left);
                self.resolve_expr(right);
            },
            Expr::Literal { .. } => {},
            Expr::Unary { expr, .. } => {
                self.resolve_expr(expr);
            },
            Expr::Grouping { expr } => {
                self.resolve_expr(expr);
            },
            Expr::Var { name, token } => {
                let n = self.scopes.len();
                let mut reported = false;
                if n > 0 {
                    match self.scopes[n - 1].state_of(name) {
                        Some(false) => {
                            self.errors.push(
                                Error {
                                    token: *token,
                                    error_type: ErrorType::CantUseVariableInItsInitializer,
                                },
                            );
                            reported = true;
                            proof {
                                assert(self@ =~= r_expr(old(self)@, *e));
                            }
                        },
                        _ => {},
                    }
                }
                if !reported {
                    self.resolve_distance(VarRef::new(token, name));
                }
            },
            Expr::Assign { name, expr, token } => {
                self.resolve_expr(expr);
                self.resolve_distance(VarRef::new(token, name));
            },
            Expr::Logical { left, right, .. } => {
                self.resolve_expr(left);
                self.resolve_expr(right);
            },
            Expr::Call { callee, arguments, .. } => {
                self.resolve_expr(callee);
                let ghost mid = self@;
                let n = arguments.len();
                for i in 0..n
                    invariant
                        self.wf(),
                        n == arguments@.len(),
                        self@ == r_exprs(mid, arguments@.subrange(0, i as int)),
                    decreases n - i,
                {
                    let ghost prefix = arguments@.subrange(0, i as int);
                    proof {
                        assert(decreases_to!(*e => arguments@));
                        assert(decreases_to!(arguments@ => arguments@[i as int]));
                    }
                    self.resolve_expr(&arguments[i]);
                    proof {
                        let next = arguments@.subrange(0, i + 1);
                        assert(next.drop_last() =~= prefix);
                        assert(next.last() == arguments@[i as int]);
                    }
                }
                proof {
                    assert(arguments@.subrange(0, n as int) =~= arguments@);
                }
            },
            Expr::Closure { params, body, .. } => {
                self.resolve_function(params, body);
            },
            Expr::Get { expr, .. } => {
                self.resolve_expr(expr);
            },
            Expr::SetProp { value, obj, .. } => {
                self.resolve_expr(value);
                self.resolve_expr(obj);
            },
            Expr::This { token } => {
                if self.state.current_class.is_none() {
                    self.errors.push(Error { token: *token, error_type: ErrorType::CantUseThis });
                    proof {
                        assert(self@ =~= r_expr(old(self)@, *e));
                    }
                } else {
                    self.resolve_distance(VarRef::new(token, &String::from_str("this")));
                }
            },
            Expr::Super { token, .. } => {
                let allowed = match self.state.current_class {
                    Some(ClassType::Subclass) => true,
                    _ => false,
                };
                if allowed {
                    self.resolve_distance(VarRef::new(token, &String::from_str("super")));
                } else {
                    self.errors.push(Error { token: *token, error_type: ErrorType::CantUseSuper });
                    proof {
                        assert(self@ =~= r_expr(old(self)@, *e));
                    }
                }
            },
        }
    }

    /// Resolves a function or closure: one scope for its parameters and
    /// body, matching the one frame the evaluator opens per call.
    #[verifier::loop_isolation(false)]
    fn resolve_function(&mut self, params: &Vec<String>, body: &Vec<Stmt>)
        requires
            old(self).wf(),
        ensures
            final(self).wf(),
            final(self)@ == r_function(old(self)@, params@, body@),
        decreases body@, 1nat,
    {
        self.begin_scope();
        let ghost mid = self@;
        let n = params.len();
        for i in 0..n
            invariant
                self.wf(),
                n == params@.len(),
                self@ == r_params(mid, params@.subrange(0, i as int)),
            decreases n - i,
        {
            let ghost prefix = params@.subrange(0, i as int);
            self.declare(&params[i]);
            self.define(&params[i]);
            proof {
                let next = params@.subrange(0, i + 1);
                assert(next.drop_last() =~= prefix);
                assert(next.last() == params@[i as int]);
            }
        }
        proof {
            assert(params@.subrange(0, n as int) =~= params@);
        }
        self.resolve_stmts_list(body);
        self.end_scope();
    }

    /// Resolves one statement.
    #[verifier::loop_isolation(false)]
    fn resolve_stmt(&mut self, s: &Stmt)
        requires
            old(self).wf(),
        ensures
            final(self).wf(),
            final(self)@ == r_stmt(old(self)@, *s),
        decreases *s, 1nat,
    {
        match s {
            Stmt::Print { expr } => {
                self.resolve_expr(expr);
            },
            Stmt::Expr { expr } => {
                self.resolve_expr(expr);
            },
            Stmt::Var { name, value } => {
                self.declare(name);
                match value {
                    Some(e) => self.resolve_expr(e),
                    None => {},
                }
                self.define(name);
            },
            Stmt::Block { stmts } => {
                self.begin_scope();
                self.resolve_stmts_list(stmts);
                self.end_scope();
            },
            Stmt::If { condition, then_body, else_body } => {
                self.resolve_expr(condition);
                self.resolve_stmt(then_body);
                match else_body {
                    Some(stmt) => self.resolve_stmt(stmt),
                    None => {},
                }
            },
            Stmt::While { condition, body } => {
                self.resolve_expr(condition);
                let prev = self.state.inside_loop;
                self.state.inside_loop = true;
                self.resolve_stmt(body);
                self.state.inside_loop = prev;
                proof {
                    assert(self@ =~= r_stmt(old(self)@, *s));
                }
            },
            Stmt::Break { token } => {
                match self.state.is_inside_loop(token) {
                    Ok(()) => {},
                    Err(err) => {
                        self.errors.push(err);
                        proof {
                            assert(self@ =~= r_stmt(old(self)@, *s));
                        }
                    },
                }
            },
            Stmt::Continue { token } => {
                match self.state.is_inside_loop(token) {
                    Ok(()) => {},
                    Err(err) => {
                        self.errors.push(err);
                        proof {
                            assert(self@ =~= r_stmt(old(self)@, *s));
                        }
                    },
                }
            },
            Stmt::Function { params, body, name, .. } => {
                self.declare(name);
                self.define(name);
                self.resolve_function(params, body);
            },
            Stmt::Class { .. } => {
                self.visit_class_stmt(s);
            },
            Stmt::Return { value, .. } => {
                match value {
                    Some(val) => self.resolve_expr(val),
                    None => {},
                }
            },
        }
    }


    /// Resolves a class declaration: the name, the superclass expression
    /// and the self-inheritance check, then one scope holding `this` (and
    /// `super` when there is a superclass) with each method's own scope
    /// nested inside it.
    #[verifier::loop_isolation(false)]
    #[verifier::rlimit(50)]
    fn visit_class_stmt(&mut self, s: &Stmt)
        requires
            old(self).wf(),
            s matches Stmt::Class { .. },
        ensures
            final(self).wf(),
            final(self)@ == r_stmt(old(self)@, *s),
        decreases *s, 0nat,
    {
        match s {
            Stmt::Class { name, token, members, superclass } => {
                self.declare(name);
                self.define(name);
                let ghost c1 = r_define(r_declare(old(self)@, name@), name@);
                proof {
                    assert(self@ == c1);
                }
                let prev = self.state.current_class;
                match superclass {
                    Some(sc) => {
                        self.state.current_class = Some(ClassType::Subclass);
                        let ghost ca = RCtx { current_class: Some(ClassType::Subclass), ..c1 };
                        proof {
                            assert(self@ =~= ca);
                        }
                        match sc {
                            Expr::Var { name: sc_name, token: sc_token } => {
                                if *sc_name == *name {
                                    self.errors.push(
                                        Error {
                                            token: *sc_token,
                                            error_type: ErrorType::CantInheritFromItself,
                                        },
                                    );
                                }
                            },
                            _ => {},
                        }
                        self.resolve_expr(sc);
                        proof {
                            let cb = match sc {
                                Expr::Var { name: n2, token: t2 } => if n2@ == name@ {
                                    r_error(ca, *t2, ErrorType::CantInheritFromItself)
                                } else {
                                    ca
                                },
                                _ => ca,
                            };
                            assert(self@ == r_expr(cb, *sc));
                        }
                    },
                    None => {
                        self.state.current_class = Some(ClassType::Class);
                        proof {
                            assert(self@ =~= (RCtx {
                                current_class: Some(ClassType::Class),
                                ..c1
                            }));
                        }
                    },
                }
                let ghost c2 = self@;
                self.begin_scope();
                self.define(&String::from_str("this"));
                proof {
                    assert(self@ == r_define(r_begin(c2), "this"@));
                }
                let ghost c3 = self@;
                if superclass.is_some() {
                    self.define(&String::from_str("super"));
                }
                proof {
                    assert(self@ == if *superclass is Some {
                        r_define(c3, "super"@)
                    } else {
                        c3
                    });
                    assert(prev == c1.current_class);
                }
                let ghost mid = self@;
                let n = members.len();
                for i in 0..n
                    invariant
                        self.wf(),
                        n == members@.len(),
                        self@ == r_members(mid, members@.subrange(0, i as int)),
                    decreases n - i,
                {
                    let ghost prefix = members@.subrange(0, i as int);
                    match &members[i] {
                        Stmt::Function { params, body, .. } => {
                            proof {
                                assert(decreases_to!(*s => members@));
                                assert(decreases_to!(members@ => members@[i as int]));
                                assert(decreases_to!(members@[i as int] => body@));
                            }
                            self.resolve_function(params, body);
                        },
                        _ => {},
                    }
                    proof {
                        let next = members@.subrange(0, i + 1);
                        assert(next.drop_last() =~= prefix);
                        assert(next.last() == members@[i as int]);
                    }
                }
                proof {
                    assert(members@.subrange(0, n as int) =~= members@);
                }
                proof {
                    assert(self@ == r_members(mid, members@));
                }
                self.end_scope();
                proof {
                    assert(self@ == r_end(r_members(mid, members@)));
                }
                self.state.current_class = prev;
                proof {
                    assert(self@ =~= (RCtx {
                        current_class: c1.current_class,
                        ..r_end(r_members(mid, members@))
                    }));
                    assert(self@ =~= r_stmt(old(self)@, *s));
                }
            },
            _ => {
                proof {
                    assert(false);
                }
            },
        }
    }

    /// Resolves a list of statements in order.
    #[verifier::loop_isolation(false)]
    fn resolve_stmts_list(&mut self, stmts: &Vec<Stmt>)
        requires
            old(self).wf(),
        ensures
            final(self).wf(),
            final(self)@ == r_stmts(old(self)@, stmts@),
        decreases stmts@, 0nat,
    {
        let n = stmts.len();
        for i in 0..n
            invariant
                self.wf(),
                n == stmts@.len(),
                self@ == r_stmts(old(self)@, stmts@.subrange(0, i as int)),
            decreases n - i,
        {
            let ghost prefix = stmts@.subrange(0, i as int);
            self.resolve_stmt(&stmts[i]);
            proof {
                let next = stmts@.subrange(0, i + 1);
                assert(next.drop_last() =~= prefix);
                assert(next.last() == stmts@[i as int]);
            }
        }
        proof {
            assert(stmts@.subrange(0, n as int) =~= stmts@);
        }
    }

    /// Resolves a whole program. Errors are collected across the pass;
    /// the result is `Ok` exactly when none were reported, and otherwise
    /// carries every error in the order it was found.
    #[verifier::loop_isolation(false)]
    pub fn resolve_stmts(&mut self, stmts: &Vec<Stmt>) -> (r: Result<(), Vec<Error>>)
        requires
            old(self).wf(),
        ensures
            final(self).wf(),
            final(self).distances.wf(),
            final(self).distances@ == final(self)@.distances,
            final(self)@ == r_stmts(old(self)@, stmts@),
            r is Ok <==> final(self)@.errors.len() == 0,
            r matches Err(es) ==> es@ == final(self)@.errors,
    {
        self.resolve_stmts_list(stmts);
        if self.errors.len() == 0 {
            Ok(())
        } else {
            let mut out: Vec<Error> = Vec::new();
            let n = self.errors.len();
            for i in 0..n
                invariant
                    n == self.errors@.len(),
                    out@ == self.errors@.subrange(0, i as int),
                decreases n - i,
            {
                out.push(self.errors[i]);
                proof {
                    assert(out@ =~= self.errors@.subrange(0, i + 1));
                }
            }
            proof {
                assert(self.errors@.subrange(0, n as int) =~= self.errors@);
            }
            Err(out)
        }
    }
}


/// Resolution is a mathematical function of the tree alone: two
/// resolvers that each resolved the same program from a fresh state
/// agree on every recorded distance and on every diagnostic. In
/// particular, resolving the same tree twice, with no evaluation in
/// between, yields the same distance map both times.
pub proof fn lemma_resolution_round_trip(first: Resolver, second: Resolver, program: Seq<Stmt>)
    requires
        first@ == r_program(program),
        second@ == r_program(program),
    ensures
        first.distances@ == second.distances@,
        first@.errors == second@.errors,
{
    assert(first@.distances == second@.distances);
}


/// An expression that opens no scope of its own: anything but a closure,
/// recursively.
pub open spec fn flat_expr(e: Expr) -> bool
    decreases e, 0nat,
{
    match e {
        Expr::Binary { left, right, .. } => flat_expr(*left) && flat_expr(*right),
        Expr::Literal { .. } => true,
        Expr::Unary { expr, .. } => flat_expr(*expr),
        Expr::Grouping { expr } => flat_expr(*expr),
        Expr::Var { .. } => true,
        Expr::Assign { expr, .. } => flat_expr(*expr),
        Expr::Logical { left, right, .. } => flat_expr(*left) && flat_expr(*right),
        Expr::Call { callee, arguments, .. } => flat_expr(*callee) && flat_exprs(arguments@),
        Expr::Closure { .. } => false,
        Expr::Get { expr, .. } => flat_expr(*expr),
        Expr::SetProp { value, obj, .. } => flat_expr(*value) && flat_expr(*obj),
        Expr::This { .. } => true,
        Expr::Super { .. } => true,
    }
}

/// Every expression in the list is flat.
pub open spec fn flat_exprs(es: Seq<Expr>) -> bool
    decreases es, 1nat,
{
    es.len() == 0 || (flat_exprs(es.drop_last()) && flat_expr(es.last()))
}

/// A statement that opens no scope: no blocks, no function or class
/// declarations, and only flat expressions inside.
pub open spec fn flat_stmt(s: Stmt) -> bool
    decreases s, 0nat,
{
    match s {
        Stmt::Print { expr } => flat_expr(expr),
        Stmt::Expr { expr } => flat_expr(expr),
        Stmt::Var { value, .. } => match value {
            Some(e) => flat_expr(e),
            None => true,
        },
        Stmt::Block { .. } => false,
        Stmt::If { condition, then_body, else_body } => flat_expr(condition) && flat_stmt(
            *then_body,
        ) && match else_body {
            Some(e) => flat_stmt(*e),
            None => true,
        },
        Stmt::While { condition, body } => flat_expr(condition) && flat_stmt(*body),
        Stmt::Break { .. } => true,
        Stmt::Continue { .. } => true,
        Stmt::Function { .. } => false,
        Stmt::Class { .. } => false,
        Stmt::Return { value, .. } => match value {
            Some(e) => flat_expr(e),
            None => true,
        },
    }
}

/// Every statement in the list is flat.
pub open spec fn flat_stmts(ss: Seq<Stmt>) -> bool
    decreases ss, 1nat,
{
    ss.len() == 0 || (flat_stmts(ss.drop_last()) && flat_stmt(ss.last()))
}

/// One scope, and only zero distances recorded.
pub open spec fn single_scope_zero_distances(ctx: RCtx) -> bool {
    &&& ctx.scopes.len() == 1
    &&& forall|k: SiteKey|
        #[trigger] ctx.distances.contains_key(k) ==> ctx.distances[k] == 0
}

proof fn lemma_flat_expr_zero(ctx: RCtx, e: Expr)
    requires
        single_scope_zero_distances(ctx),
        flat_expr(e),
    ensures
        single_scope_zero_distances(r_expr(ctx, e)),
    decreases e, 0nat,
{
    match e {
        Expr::Binary { left, right, .. } => {
            lemma_flat_expr_zero(ctx, *left);
            lemma_flat_expr_zero(r_expr(ctx, *left), *right);
        },
        Expr::Literal { .. } => {},
        Expr::Unary { expr, .. } => {
            lemma_flat_expr_zero(ctx, *expr);
        },
        Expr::Grouping { expr } => {
            lemma_flat_expr_zero(ctx, *expr);
        },
        Expr::Var { name, .. } => {
            lemma_find_depth_nearest(ctx.scopes, name@);
        },
        Expr::Assign { name, expr, .. } => {
            lemma_flat_expr_zero(ctx, *expr);
            lemma_find_depth_nearest(r_expr(ctx, *expr).scopes, name@);
        },
        Expr::Logical { left, right, .. } => {
            lemma_flat_expr_zero(ctx, *left);
            lemma_flat_expr_zero(r_expr(ctx, *left), *right);
        },
        Expr::Call { callee, arguments, .. } => {
            lemma_flat_expr_zero(ctx, *callee);
            lemma_flat_exprs_zero(r_expr(ctx, *callee), arguments@);
        },
        Expr::Closure { .. } => {},
        Expr::Get { expr, .. } => {
            lemma_flat_expr_zero(ctx, *expr);
        },
        Expr::SetProp { value, obj, .. } => {
            lemma_flat_expr_zero(ctx, *value);
            lemma_flat_expr_zero(r_expr(ctx, *value), *obj);
        },
        Expr::This { .. } => {
            lemma_find_depth_nearest(ctx.scopes, "this"@);
        },
        Expr::Super { .. } => {
            lemma_find_depth_nearest(ctx.scopes, "super"@);
        },
    }
}

proof fn lemma_flat_exprs_zero(ctx: RCtx, es: Seq<Expr>)
    requires
        single_scope_zero_distances(ctx),
        flat_exprs(es),
    ensures
        single_scope_zero_distances(r_exprs(ctx, es)),
    decreases es, 1nat,
{
    if es.len() > 0 {
        lemma_flat_exprs_zero(ctx, es.drop_last());
        lemma_flat_expr_zero(r_exprs(ctx, es.drop_last()), es.last());
    }
}

proof fn lemma_flat_stmt_zero(ctx: RCtx, s: Stmt)
    requires
        single_scope_zero_distances(ctx),
        flat_stmt(s),
    ensures
        single_scope_zero_distances(r_stmt(ctx, s)),
    decreases s, 0nat,
{
    match s {
        Stmt::Print { expr } => {
            lemma_flat_expr_zero(ctx, expr);
        },
        Stmt::Expr { expr } => {
            lemma_flat_expr_zero(ctx, expr);
        },
        Stmt::Var { name, value } => {
            let c1 = r_declare(ctx, name@);
            match value {
                Some(e) => {
                    lemma_flat_expr_zero(c1, e);
                },
                None => {},
            }
        },
        Stmt::Block { .. } => {},
        Stmt::If { condition, then_body, else_body } => {
            lemma_flat_expr_zero(ctx, condition);
            let c1 = r_expr(ctx, condition);
            lemma_flat_stmt_zero(c1, *then_body);
            match else_body {
                Some(e) => {
                    lemma_flat_stmt_zero(r_stmt(c1, *then_body), *e);
                },
                None => {},
            }
        },
        Stmt::While { condition, body } => {
            lemma_flat_expr_zero(ctx, condition);
            let c1 = r_expr(ctx, condition);
            lemma_flat_stmt_zero(RCtx { inside_loop: true, ..c1 }, *body);
        },
        Stmt::Break { .. } => {},
        Stmt::Continue { .. } => {},
        Stmt::Function { .. } => {},
        Stmt::Class { .. } => {},
        Stmt::Return { value, .. } => {
            match value {
                Some(e) => {
                    lemma_flat_expr_zero(ctx, e);
                },
                None => {},
            }
        },
    }
}

proof fn lemma_flat_stmts_zero(ctx: RCtx, ss: Seq<Stmt>)
    requires
        single_scope_zero_distances(ctx),
        flat_stmts(ss),
    ensures
        single_scope_zero_distances(r_stmts(ctx, ss)),
    decreases ss, 1nat,
{
    if ss.len() > 0 {
        lemma_flat_stmts_zero(ctx, ss.drop_last());
        lemma_flat_stmt_zero(r_stmts(ctx, ss.drop_last()), ss.last());
    }
}

/// The scope-correspondence guarantee on programs that open no scopes: a
/// flat program is resolved entirely in the one top-level scope, so every
/// distance the resolver records is zero — and by the environment's
/// contracts a zero-distance access reads exactly the current frame, the
/// frame in which the evaluator writes top-level declarations. Between a
/// flat reference and its declaration no frame is ever pushed, and the
/// recorded distance counts exactly that: none.
pub proof fn lemma_flat_program_distances_are_zero(program: Seq<Stmt>)
    requires
        flat_stmts(program),
    ensures
        single_scope_zero_distances(r_program(program)),
{
    lemma_flat_stmts_zero(initial_rctx(), program);
}

} // verus!
