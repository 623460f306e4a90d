use interpreter::ast::{calculate_height, generate_offset, get_widest, has_leafs, render_ast,
    visit_node};
use interpreter::class::{Class, Instance};
use interpreter::environment::Environment;
use interpreter::error::{error, Error, ErrorType};
use interpreter::expr::{BinOp, Expr, UnaryOp};
use interpreter::function::Function;
use interpreter::interpreter::{apply_binary, apply_logical, apply_unary, Interpreter, State};
use interpreter::resolver::{ClassType, Distances, Init, ResolverState, VarRef};
use interpreter::runtime_value::Value;
use interpreter::statement::Stmt;
use interpreter::token::{Literal, Token};
use std::rc::Rc;

fn t(id: usize) -> Token {
    Token::new(1, id, id + 1)
}

fn num(n: i64) -> Expr {
    Expr::Literal { value: Literal::Number(n) }
}

#[test]
fn environment_frames_and_chain_walks() {
    let mut env = Environment::new();
    assert!(!env.has_enclosing(0));
    let prev = env.define_or_update(0, &"a".to_owned(), &Value::Number(1));
    assert!(prev.is_none());
    let prev = env.define_or_update(0, &"a".to_owned(), &Value::Number(2));
    assert!(matches!(prev, Some(Value::Number(1))));

    let inner = env.from(0);
    assert!(env.has_enclosing(inner));
    // The inner frame alone does not bind the name.
    assert!(env.get(inner, &"a".to_owned()).is_none());
    // One hop up it is bound.
    assert!(matches!(env.get_at(inner, &"a".to_owned(), 1), Some(Value::Number(2))));
    // A whole-chain walk finds it from the inner frame.
    assert!(matches!(env.get_deep(inner, &"a".to_owned()), Some(Value::Number(2))));
    // The ancestor walk reaches the root and no further.
    assert_eq!(env.ancestor(inner, 1), Some(0));
    assert_eq!(env.ancestor(inner, 2), None);
    // Assignment at a distance writes the outer frame and returns the
    // previous binding.
    let prev = env.assign_at(inner, &"a".to_owned(), &Value::Number(3), 1);
    assert!(matches!(prev, Some(Value::Number(2))));
    assert!(matches!(env.get(0, &"a".to_owned()), Some(Value::Number(3))));
    // Shadowing in the inner frame hides the outer binding at distance 0
    // only.
    env.define_or_update(inner, &"a".to_owned(), &Value::Number(9));
    assert!(matches!(env.get_at(inner, &"a".to_owned(), 0), Some(Value::Number(9))));
    assert!(matches!(env.get_at(inner, &"a".to_owned(), 1), Some(Value::Number(3))));
}

#[test]
fn state_flags_follow_their_rules() {
    let mut s = State::new();
    assert!(!s.will_break());
    s.should_break = true;
    assert!(s.will_break());
    assert!(!s.should_break);

    s.should_continue = true;
    assert!(s.will_continue());
    assert!(!s.will_continue());

    // A pending return is only honored inside a call.
    s.should_return = true;
    assert!(!s.will_return());
    s.enter_call();
    assert!(s.will_return());
    assert!(!s.should_return);
    s.should_return = true;
    s.exit_call();
    assert!(!s.should_return);
    assert_eq!(s.inside_call, 0);
}

#[test]
fn resolver_state_guards_loop_words() {
    let state = ResolverState::new();
    assert!(state.current_class.is_none());
    let err = state.is_inside_loop(&t(1)).unwrap_err();
    assert!(matches!(err.error_type, ErrorType::NotAllowedOutsideLoop));
    let looping = ResolverState { current_class: Some(ClassType::Class), inside_loop: true };
    assert!(looping.is_inside_loop(&t(2)).is_ok());
    assert_eq!(ClassType::Subclass, ClassType::Subclass);
    assert_ne!(ClassType::Subclass, ClassType::Class);
}

#[test]
fn init_readiness() {
    assert!(!Init::Declare.is_ready());
    assert!(Init::Define.is_ready());
}

#[test]
fn var_ref_renders_site_and_name() {
    let v = VarRef::new(&Token::new(3, 14, 15), &"count".to_owned());
    assert_eq!(v.to_string(), "3-14-15-count");
}

#[test]
fn distances_record_and_overwrite() {
    let mut d = Distances::new();
    let site = VarRef::new(&t(5), &"x".to_owned());
    assert_eq!(d.get(&site), None);
    d.insert(VarRef::new(&t(5), &"x".to_owned()), 2);
    assert_eq!(d.get(&site), Some(2));
    d.insert(VarRef::new(&t(5), &"x".to_owned()), 4);
    assert_eq!(d.get(&site), Some(4));
    // A different site with the same name is independent.
    let other = VarRef::new(&t(6), &"x".to_owned());
    assert_eq!(d.get(&other), None);
}

#[test]
fn error_messages_carry_position_and_kind() {
    let e = Error { token: Token::new(1, 2, 3), error_type: ErrorType::UndefinedVariable };
    assert_eq!(e.message(), "1.2-3 : Variable is undefined");
    assert_eq!(ErrorType::WrongType.message(), "Unexpected type mismatch");
    let r = error(&t(9), ErrorType::DivisionByZero);
    assert!(matches!(r, Err(Error { error_type: ErrorType::DivisionByZero, .. })));
}

#[test]
fn truthiness_rules() {
    assert!(!Value::Null.to_bool());
    assert!(Value::Number(0).to_bool());
    assert!(!Value::Str(String::new()).to_bool());
    assert!(Value::Str("x".to_owned()).to_bool());
    assert!(Value::Boolean(true).to_bool());
    assert!(!Value::Boolean(false).to_bool());
    assert!(Value::Function(0).to_bool());
    let v = Value::new(&Literal::Number(7));
    assert!(matches!(v, Value::Number(7)));
    let v = Value::new(&Literal::Null);
    assert!(matches!(v, Value::Null));
}

#[test]
fn binary_operator_table() {
    let tk = t(0);
    assert!(matches!(
        apply_binary(BinOp::Plus, Value::Number(2), Value::Number(3), &tk),
        Ok(Value::Number(5))
    ));
    assert!(matches!(
        apply_binary(BinOp::Minus, Value::Number(2), Value::Number(3), &tk),
        Ok(Value::Number(-1))
    ));
    assert!(matches!(
        apply_binary(BinOp::Compare, Value::Null, Value::Null, &tk),
        Ok(Value::Boolean(true))
    ));
    assert!(matches!(
        apply_binary(BinOp::BangEquals, Value::Boolean(true), Value::Boolean(false), &tk),
        Ok(Value::Boolean(true))
    ));
    // Equality across types is a type error, not false.
    assert!(matches!(
        apply_binary(BinOp::Compare, Value::Number(0), Value::Null, &tk),
        Err(Error { error_type: ErrorType::WrongType, .. })
    ));
    // String ordering compares lengths.
    assert!(matches!(
        apply_binary(BinOp::LessEquals, Value::Str("ab".into()), Value::Str("xy".into()), &tk),
        Ok(Value::Boolean(true))
    ));
    match apply_binary(BinOp::Plus, Value::Str("ab".into()), Value::Str("cd".into()), &tk) {
        Ok(Value::Str(s)) => assert_eq!(s, "abcd"),
        other => panic!("unexpected {:?}", other),
    }
    assert!(matches!(
        apply_binary(BinOp::Modulo, Value::Number(1), Value::Number(0), &tk),
        Err(Error { error_type: ErrorType::DivisionByZero, .. })
    ));
    // Wrapping multiplication.
    assert!(matches!(
        apply_binary(BinOp::Star, Value::Number(i64::MIN), Value::Number(-1), &tk),
        Ok(Value::Number(i64::MIN))
    ));
}

#[test]
fn unary_and_logical_tables() {
    let tk = t(0);
    assert!(matches!(
        apply_unary(UnaryOp::Minus, Value::Number(5), &tk),
        Ok(Value::Number(-5))
    ));
    assert!(matches!(
        apply_unary(UnaryOp::Minus, Value::Number(i64::MIN), &tk),
        Ok(Value::Number(i64::MIN))
    ));
    assert!(matches!(
        apply_unary(UnaryOp::Bang, Value::Null, &tk),
        Ok(Value::Boolean(true))
    ));
    assert!(matches!(
        apply_unary(UnaryOp::Minus, Value::Str("x".into()), &tk),
        Err(Error { error_type: ErrorType::WrongType, .. })
    ));
    assert!(matches!(
        apply_logical(interpreter::expr::LogicalOp::Or, Value::Number(1), Value::Number(2)),
        Value::Number(1)
    ));
    assert!(matches!(
        apply_logical(interpreter::expr::LogicalOp::Or, Value::Null, Value::Number(2)),
        Value::Number(2)
    ));
    assert!(matches!(
        apply_logical(interpreter::expr::LogicalOp::And, Value::Number(1), Value::Number(2)),
        Value::Boolean(true)
    ));
}

#[test]
fn function_arity_display_and_bind() {
    let f = Function::Standard {
        params: Rc::new(vec!["a".to_owned(), "b".to_owned()]),
        name: "add".to_owned(),
        body: Rc::new(vec![]),
        token: t(1),
        this: None,
        closure: 0,
    };
    assert_eq!(f.arity(), 2);
    assert_eq!(f.to_string(), "<add function>");
    let bound = f.bind(7);
    match bound {
        Function::Standard { this, .. } => assert_eq!(this, Some(7)),
        _ => panic!("expected a user function"),
    }
    let native = Function::Native { arity: 0 };
    assert_eq!(native.arity(), 0);
    assert_eq!(native.to_string(), "<native function>");
}

#[test]
fn class_tables_and_method_lookup() {
    let mut base = Class::new(&"Base".to_owned(), None);
    base.add_method(&"m".to_owned(), 0);
    base.set_property(&"p".to_owned(), &Value::Number(1));
    assert_eq!(base.to_string(), "Base");
    assert_eq!(base.own_method(&"m".to_owned()), Some(0));
    assert_eq!(base.own_method(&"missing".to_owned()), None);
    assert!(matches!(base.own_property(&"p".to_owned()), Some(Value::Number(1))));
    assert_eq!(base.get_super(), None);

    let mut derived = Class::new(&"Derived".to_owned(), Some(0));
    derived.add_method(&"n".to_owned(), 1);
    assert_eq!(derived.get_super(), Some(0));

    let classes = vec![base, derived];
    // Own method first, inherited method through the chain.
    assert_eq!(classes[1].find_method(1, &classes, &"n".to_owned()), Some(1));
    assert_eq!(classes[1].find_method(1, &classes, &"m".to_owned()), Some(0));
    assert_eq!(classes[1].find_method(1, &classes, &"zz".to_owned()), None);

    let props = classes[0].properties_copy();
    let mut inst = Instance::new(0, props);
    assert_eq!(inst.class_id(), 0);
    assert!(matches!(inst.get_property(&"p".to_owned()), Some(Value::Number(1))));
    inst.set(&"p".to_owned(), &Value::Number(9));
    assert!(matches!(inst.get_property(&"p".to_owned()), Some(Value::Number(9))));
    assert_eq!(inst.to_string(&classes[0]), "Base instance");
}

#[test]
fn interpreter_evaluates_expressions_directly() {
    let mut it = Interpreter::new();
    let e = Expr::Binary {
        left: Box::new(num(2)),
        op: BinOp::Star,
        right: Box::new(num(21)),
        token: t(3),
    };
    assert!(matches!(it.evaluate(&e), Ok(Value::Number(42))));
    assert_eq!(it.value_to_string(&Value::Number(-17)), "-17");
    assert_eq!(it.value_to_string(&Value::Boolean(false)), "false");
    assert_eq!(it.value_to_string(&Value::Null), "null");
    assert_eq!(it.value_to_string(&Value::Str("hey".into())), "hey");
}

#[test]
fn resolve_distance_is_recorded_per_site() {
    let mut it = Interpreter::new();
    it.resolve_distance(VarRef::new(&t(8), &"q".to_owned()), 3);
    // The evaluator reads the table through variable lookups; a direct
    // check through a second insert shows per-site keying.
    it.resolve_distance(VarRef::new(&t(9), &"q".to_owned()), 1);
    assert_eq!(it.distances.get(&VarRef::new(&t(8), &"q".to_owned())), Some(3));
    assert_eq!(it.distances.get(&VarRef::new(&t(9), &"q".to_owned())), Some(1));
}

#[test]
fn offsets_heights_and_widths() {
    assert_eq!(generate_offset(0), "");
    assert_eq!(generate_offset(3), "   ");

    assert!(!has_leafs(&num(1)));
    let tree = Expr::Binary {
        left: Box::new(Expr::Grouping { expr: Box::new(num(1)) }),
        op: BinOp::Plus,
        right: Box::new(num(2)),
        token: t(4),
    };
    assert!(has_leafs(&tree));
    assert_eq!(calculate_height(&num(1), 0), 0);
    assert_eq!(calculate_height(&tree, 0), 2);

    let levels = vec![
        vec!["+".to_owned()],
        vec!["GR".to_owned(), "2".to_owned()],
        vec!["1".to_owned()],
    ];
    assert_eq!(get_widest(&levels), 2);
    assert_eq!(get_widest(&Vec::new()), 0);
}

#[test]
fn visit_node_collects_labels_by_depth() {
    let tree = Expr::Binary {
        left: Box::new(num(1)),
        op: BinOp::Plus,
        right: Box::new(Expr::Unary {
            op: UnaryOp::Minus,
            expr: Box::new(num(2)),
            token: t(5),
        }),
        token: t(6),
    };
    let mut levels: Vec<Vec<String>> = vec![Vec::new(), Vec::new(), Vec::new()];
    visit_node(&tree, 0, &mut levels);
    assert_eq!(levels[0], vec!["+".to_owned()]);
    assert_eq!(levels[1], vec!["1".to_owned(), "UN".to_owned()]);
    assert_eq!(levels[2], vec!["2".to_owned()]);

    let lines = render_ast(&tree);
    assert_eq!(lines.len(), 3);
    assert!(lines[0].contains('+'));
    assert!(lines[2].contains('2'));
}

#[test]
fn interpreter_blocks_restore_the_frame() {
    // Executing a block in a fresh frame leaves the current frame as it
    // was, so later statements see the outer bindings.
    let program = vec![
        Stmt::Var { name: "v".to_owned(), value: Some(num(1)) },
        Stmt::Block {
            stmts: vec![Stmt::Var { name: "v".to_owned(), value: Some(num(2)) }],
        },
        Stmt::Print { expr: Expr::Var { name: "v".to_owned(), token: t(7) } },
    ];
    let out = interpreter::execute(&program).unwrap();
    assert_eq!(out, vec!["1".to_owned()]);
}


#[test]
fn desynchronized_distance_is_an_internal_fault() {
    // A recorded distance longer than the scope chain is the internal
    // resolver/evaluator fault, not a user-facing undefined variable.
    let mut it = Interpreter::new();
    it.resolve_distance(VarRef::new(&t(20), &"q".to_owned()), 7);
    let e = Expr::Var { name: "q".to_owned(), token: t(20) };
    let err = it.evaluate(&e).unwrap_err();
    assert!(matches!(err.error_type, ErrorType::InternalFault));
}

#[test]
fn failed_assignment_writes_nothing() {
    // Assigning through a resolved distance whose target frame does not
    // bind the name reports the undefined target and leaves the
    // environment untouched: no implicit creation on write.
    let mut it = Interpreter::new();
    it.resolve_distance(VarRef::new(&t(21), &"phantom".to_owned()), 0);
    let e = Expr::Assign {
        name: "phantom".to_owned(),
        expr: Box::new(num(5)),
        token: t(21),
    };
    let err = it.evaluate(&e).unwrap_err();
    assert!(matches!(err.error_type, ErrorType::UndefinedVariable));
    // A later whole-chain read still finds nothing.
    let read = Expr::Var { name: "phantom".to_owned(), token: t(22) };
    let err = it.evaluate(&read).unwrap_err();
    assert!(matches!(err.error_type, ErrorType::UndefinedVariable));
}
