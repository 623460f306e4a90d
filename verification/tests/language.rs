use interpreter::error::ErrorType;
use interpreter::expr::{BinOp, Expr, LogicalOp, UnaryOp};
use interpreter::statement::Stmt;
use interpreter::token::{Literal, Token};
use std::rc::Rc;

fn t(id: usize) -> Token {
    Token::new(0, id, id + 1)
}

fn num(n: i64) -> Expr {
    Expr::Literal { value: Literal::Number(n) }
}

fn strlit(s: &str) -> Expr {
    Expr::Literal { value: Literal::Str(s.to_owned()) }
}

fn boolean(b: bool) -> Expr {
    Expr::Literal { value: Literal::Bool(b) }
}

fn var(name: &str, id: usize) -> Expr {
    Expr::Var { name: name.to_owned(), token: t(id) }
}

fn assign(name: &str, e: Expr, id: usize) -> Expr {
    Expr::Assign { name: name.to_owned(), expr: Box::new(e), token: t(id) }
}

fn binary(l: Expr, op: BinOp, r: Expr, id: usize) -> Expr {
    Expr::Binary { left: Box::new(l), op, right: Box::new(r), token: t(id) }
}

fn call(callee: Expr, args: Vec<Expr>, id: usize) -> Expr {
    Expr::Call { callee: Box::new(callee), token: t(id), arguments: args }
}

fn decl(name: &str, value: Option<Expr>) -> Stmt {
    Stmt::Var { name: name.to_owned(), value }
}

fn print_stmt(e: Expr) -> Stmt {
    Stmt::Print { expr: e }
}

fn fun_decl(name: &str, params: Vec<&str>, body: Vec<Stmt>, id: usize) -> Stmt {
    Stmt::Function {
        params: Rc::new(params.into_iter().map(|p| p.to_owned()).collect()),
        body: Rc::new(body),
        name: name.to_owned(),
        token: t(id),
    }
}

fn class_decl(name: &str, members: Vec<Stmt>, superclass: Option<Expr>, id: usize) -> Stmt {
    Stmt::Class { name: name.to_owned(), token: t(id), members, superclass }
}

fn run(program: &Vec<Stmt>) -> Result<Vec<String>, Vec<interpreter::error::Error>> {
    interpreter::execute(program)
}

#[test]
fn block_shadowing_keeps_outer_binding() {
    // var x = 1; { var x = 2; print x; } print x;
    let program = vec![
        decl("x", Some(num(1))),
        Stmt::Block {
            stmts: vec![decl("x", Some(num(2))), print_stmt(var("x", 10))],
        },
        print_stmt(var("x", 11)),
    ];
    let out = run(&program).unwrap();
    assert_eq!(out, vec!["2".to_owned(), "1".to_owned()]);
}

#[test]
fn closure_observes_later_mutation() {
    // var x = 1; var f = || => x; x = 2; print f();
    let closure = Expr::Closure {
        params: Rc::new(vec![]),
        body: Rc::new(vec![Stmt::Expr { expr: var("x", 20) }]),
        name: "f".to_owned(),
        token: t(21),
    };
    let program = vec![
        decl("x", Some(num(1))),
        decl("f", Some(closure)),
        Stmt::Expr { expr: assign("x", num(2), 22) },
        print_stmt(call(var("f", 23), vec![], 24)),
    ];
    let out = run(&program).unwrap();
    assert_eq!(out, vec!["2".to_owned()]);
}

#[test]
fn self_reference_in_initializer_is_rejected() {
    // var x = x;
    let program = vec![decl("x", Some(var("x", 30)))];
    let errs = run(&program).unwrap_err();
    assert_eq!(errs.len(), 1);
    assert!(matches!(errs[0].error_type, ErrorType::CantUseVariableInItsInitializer));
}

#[test]
fn inheritance_dispatch_reaches_superclass() {
    // class A { greet() { return "A"; } }
    // class B : A { greet() { return super.greet() + "B"; } }
    // var b = B(); print b.greet();
    let a_greet = fun_decl(
        "greet",
        vec![],
        vec![Stmt::Return { token: t(40), value: Some(strlit("A")) }],
        41,
    );
    let super_call = call(
        Expr::Super { token: t(42), method_name: "greet".to_owned() },
        vec![],
        43,
    );
    let b_greet = fun_decl(
        "greet",
        vec![],
        vec![Stmt::Return {
            token: t(44),
            value: Some(binary(super_call, BinOp::Plus, strlit("B"), 45)),
        }],
        46,
    );
    let program = vec![
        class_decl("A", vec![a_greet], None, 47),
        class_decl("B", vec![b_greet], Some(var("A", 48)), 49),
        decl("b", Some(call(var("B", 50), vec![], 51))),
        print_stmt(call(
            Expr::Get { name: "greet".to_owned(), token: t(52), expr: Box::new(var("b", 53)) },
            vec![],
            54,
        )),
    ];
    let out = run(&program).unwrap();
    assert_eq!(out, vec!["AB".to_owned()]);
}

#[test]
fn arity_mismatch_fails_without_running_body() {
    // fn f(a, b) { print "ran"; } f(1);
    let program = vec![
        fun_decl("f", vec!["a", "b"], vec![print_stmt(strlit("ran"))], 60),
        Stmt::Expr { expr: call(var("f", 61), vec![num(1)], 62) },
    ];
    let mut resolver = interpreter::resolver::Resolver::new();
    resolver.resolve_stmts(&program).unwrap();
    let mut interp = interpreter::interpreter::Interpreter::new();
    interp.set_distances(resolver.distances);
    let r = interp.interpret(&program);
    let err = r.unwrap_err();
    assert!(matches!(err.error_type, ErrorType::InvalidNumberOfArguments));
    assert!(interp.output.is_empty());
}

#[test]
fn while_break_stops_when_condition_first_true() {
    // var i = 0; while (true) { i = i + 1; if (i == 3) { break; } } print i;
    let body = Stmt::Block {
        stmts: vec![
            Stmt::Expr { expr: assign("i", binary(var("i", 70), BinOp::Plus, num(1), 71), 72) },
            Stmt::If {
                condition: binary(var("i", 73), BinOp::Compare, num(3), 74),
                then_body: Box::new(Stmt::Block { stmts: vec![Stmt::Break { token: t(75) }] }),
                else_body: None,
            },
        ],
    };
    let program = vec![
        decl("i", Some(num(0))),
        Stmt::While { condition: boolean(true), body: Box::new(body) },
        print_stmt(var("i", 76)),
    ];
    let out = run(&program).unwrap();
    assert_eq!(out, vec!["3".to_owned()]);
}

#[test]
fn while_continue_skips_rest_of_iteration() {
    // var i = 0; var s = 0;
    // while (i < 5) { i = i + 1; if (i == 2) { continue; } s = s + 1; }
    // print s;
    let body = Stmt::Block {
        stmts: vec![
            Stmt::Expr { expr: assign("i", binary(var("i", 80), BinOp::Plus, num(1), 81), 82) },
            Stmt::If {
                condition: binary(var("i", 83), BinOp::Compare, num(2), 84),
                then_body: Box::new(Stmt::Block {
                    stmts: vec![Stmt::Continue { token: t(85) }],
                }),
                else_body: None,
            },
            Stmt::Expr { expr: assign("s", binary(var("s", 86), BinOp::Plus, num(1), 87), 88) },
        ],
    };
    let program = vec![
        decl("i", Some(num(0))),
        decl("s", Some(num(0))),
        Stmt::While {
            condition: binary(var("i", 89), BinOp::Less, num(5), 90),
            body: Box::new(body),
        },
        print_stmt(var("s", 91)),
    ];
    let out = run(&program).unwrap();
    assert_eq!(out, vec!["4".to_owned()]);
}

#[test]
fn resolving_twice_yields_same_distances() {
    // The same tree resolved by two fresh resolvers gives the same
    // distance for every reference site.
    let program = vec![
        decl("x", Some(num(1))),
        Stmt::Block {
            stmts: vec![
                decl("y", Some(var("x", 100))),
                Stmt::Block { stmts: vec![print_stmt(var("x", 101)), print_stmt(var("y", 102))] },
            ],
        },
    ];
    let mut r1 = interpreter::resolver::Resolver::new();
    r1.resolve_stmts(&program).unwrap();
    let mut r2 = interpreter::resolver::Resolver::new();
    r2.resolve_stmts(&program).unwrap();
    for id in [100usize, 101, 102] {
        for name in ["x", "y"] {
            let site = interpreter::resolver::VarRef::new(&t(id), &name.to_owned());
            assert_eq!(r1.distances.get(&site), r2.distances.get(&site));
        }
    }
    // And the distances are the expected hop counts.
    let x_inner = interpreter::resolver::VarRef::new(&t(101), &"x".to_owned());
    assert_eq!(r1.distances.get(&x_inner), Some(2));
    let y_inner = interpreter::resolver::VarRef::new(&t(102), &"y".to_owned());
    assert_eq!(r1.distances.get(&y_inner), Some(1));
}

#[test]
fn logical_or_evaluates_both_sides() {
    // var x = 0; var r = true or (x = 1); print x;  -- both operands run
    let or_expr = Expr::Logical {
        left: Box::new(boolean(true)),
        op: LogicalOp::Or,
        right: Box::new(assign("x", num(1), 110)),
        token: t(111),
    };
    let program = vec![
        decl("x", Some(num(0))),
        decl("r", Some(or_expr)),
        print_stmt(var("x", 112)),
    ];
    let out = run(&program).unwrap();
    assert_eq!(out, vec!["1".to_owned()]);
}

#[test]
fn logical_tables() {
    // or returns the left operand when truthy, else the right one;
    // and returns the boolean conjunction of both truthinesses.
    let or_pick_left = Expr::Logical {
        left: Box::new(num(7)),
        op: LogicalOp::Or,
        right: Box::new(num(9)),
        token: t(120),
    };
    let or_pick_right = Expr::Logical {
        left: Box::new(Expr::Literal { value: Literal::Null }),
        op: LogicalOp::Or,
        right: Box::new(strlit("hi")),
        token: t(121),
    };
    let and_both = Expr::Logical {
        left: Box::new(num(1)),
        op: LogicalOp::And,
        right: Box::new(strlit("")),
        token: t(122),
    };
    let program = vec![
        print_stmt(or_pick_left),
        print_stmt(or_pick_right),
        print_stmt(and_both),
    ];
    let out = run(&program).unwrap();
    assert_eq!(out, vec!["7".to_owned(), "hi".to_owned(), "false".to_owned()]);
}

#[test]
fn string_ordering_compares_lengths() {
    // "bb" < "a" is false, "a" < "bb" is true: ordering is by length.
    let program = vec![
        print_stmt(binary(strlit("bb"), BinOp::Less, strlit("a"), 130)),
        print_stmt(binary(strlit("a"), BinOp::Less, strlit("bb"), 131)),
        print_stmt(binary(strlit("xy"), BinOp::GreaterEquals, strlit("ab"), 132)),
    ];
    let out = run(&program).unwrap();
    assert_eq!(out, vec!["false".to_owned(), "true".to_owned(), "true".to_owned()]);
}

#[test]
fn arithmetic_and_comparison() {
    // ((10 * 5) + 5) - 3 == 20 is false; 52 == 52 is true; 7 / 2 is 3.
    let product = binary(num(10), BinOp::Star, num(5), 140);
    let sum = binary(product, BinOp::Plus, num(5), 141);
    let diff = binary(sum, BinOp::Minus, num(3), 142);
    let cmp = binary(diff, BinOp::Compare, num(20), 143);
    let program = vec![
        print_stmt(cmp),
        print_stmt(binary(num(7), BinOp::Divide, num(2), 144)),
        print_stmt(binary(num(7), BinOp::Modulo, num(2), 145)),
        print_stmt(binary(num(0), BinOp::Minus, num(7), 146)),
        print_stmt(Expr::Unary { op: UnaryOp::Minus, expr: Box::new(num(5)), token: t(147) }),
        print_stmt(Expr::Unary { op: UnaryOp::Bang, expr: Box::new(strlit("")), token: t(148) }),
    ];
    let out = run(&program).unwrap();
    assert_eq!(
        out,
        vec![
            "false".to_owned(),
            "3".to_owned(),
            "1".to_owned(),
            "-7".to_owned(),
            "-5".to_owned(),
            "true".to_owned(),
        ]
    );
}

#[test]
fn division_by_zero_is_an_error() {
    let program = vec![print_stmt(binary(num(1), BinOp::Divide, num(0), 150))];
    let errs = run(&program).unwrap_err();
    assert!(matches!(errs[0].error_type, ErrorType::DivisionByZero));
}

#[test]
fn mixed_operands_are_a_type_error() {
    let program = vec![print_stmt(binary(num(1), BinOp::Plus, strlit("x"), 160))];
    let errs = run(&program).unwrap_err();
    assert!(matches!(errs[0].error_type, ErrorType::WrongType));
}

#[test]
fn string_concatenation() {
    let program = vec![print_stmt(binary(strlit("foo"), BinOp::Plus, strlit("bar"), 170))];
    let out = run(&program).unwrap();
    assert_eq!(out, vec!["foobar".to_owned()]);
}

#[test]
fn undefined_variable_fails() {
    let program = vec![print_stmt(var("ghost_name", 180))];
    let errs = run(&program).unwrap_err();
    assert!(matches!(errs[0].error_type, ErrorType::UndefinedVariable));
}

#[test]
fn assignment_to_undeclared_name_fails() {
    let program = vec![Stmt::Expr { expr: assign("nope", num(1), 190) }];
    let errs = run(&program).unwrap_err();
    assert!(matches!(errs[0].error_type, ErrorType::UndefinedVariable));
}

#[test]
fn calling_a_number_fails() {
    let program = vec![Stmt::Expr { expr: call(num(5), vec![], 200) }];
    let errs = run(&program).unwrap_err();
    assert!(matches!(errs[0].error_type, ErrorType::ValueNotCallable));
}

#[test]
fn property_access_on_non_instance_fails() {
    let program = vec![Stmt::Expr {
        expr: Expr::Get { name: "p".to_owned(), token: t(210), expr: Box::new(num(5)) },
    }];
    let errs = run(&program).unwrap_err();
    assert!(matches!(errs[0].error_type, ErrorType::ValueNotInstance));
}

#[test]
fn instance_properties_are_private_copies() {
    // class C { var p = 5; } var a = C(); var b = C();
    // a.p = 7; print a.p; print b.p;
    let program = vec![
        class_decl("C", vec![decl("p", Some(num(5)))], None, 220),
        decl("a", Some(call(var("C", 221), vec![], 222))),
        decl("b", Some(call(var("C", 223), vec![], 224))),
        Stmt::Expr {
            expr: Expr::SetProp {
                name: "p".to_owned(),
                token: t(225),
                value: Box::new(num(7)),
                obj: Box::new(var("a", 226)),
            },
        },
        print_stmt(Expr::Get { name: "p".to_owned(), token: t(227), expr: Box::new(var("a", 228)) }),
        print_stmt(Expr::Get { name: "p".to_owned(), token: t(229), expr: Box::new(var("b", 230)) }),
    ];
    let out = run(&program).unwrap();
    assert_eq!(out, vec!["7".to_owned(), "5".to_owned()]);
}

#[test]
fn constructor_runs_on_instantiation() {
    // class C { constructor(v) { this.p = v; } } var c = C(9); print c.p;
    let ctor_body = vec![Stmt::Expr {
        expr: Expr::SetProp {
            name: "p".to_owned(),
            token: t(240),
            value: Box::new(var("v", 241)),
            obj: Box::new(Expr::This { token: t(242) }),
        },
    }];
    let program = vec![
        class_decl("C", vec![fun_decl("constructor", vec!["v"], ctor_body, 243)], None, 244),
        decl("c", Some(call(var("C", 245), vec![num(9)], 246))),
        print_stmt(Expr::Get { name: "p".to_owned(), token: t(247), expr: Box::new(var("c", 248)) }),
    ];
    let out = run(&program).unwrap();
    assert_eq!(out, vec!["9".to_owned()]);
}

#[test]
fn inheriting_from_a_non_class_fails() {
    // var x = 5; class B : x {}
    let program = vec![
        decl("x", Some(num(5))),
        class_decl("B", vec![], Some(var("x", 250)), 251),
    ];
    let errs = run(&program).unwrap_err();
    assert!(matches!(errs[0].error_type, ErrorType::CanOnlyInheritFromClass));
}

#[test]
fn class_inheriting_from_itself_is_rejected() {
    let program = vec![class_decl("A", vec![], Some(var("A", 260)), 261)];
    let errs = run(&program).unwrap_err();
    assert!(matches!(errs[0].error_type, ErrorType::CantInheritFromItself));
}

#[test]
fn break_outside_loop_is_rejected() {
    let program = vec![Stmt::Break { token: t(270) }, Stmt::Continue { token: t(271) }];
    let errs = run(&program).unwrap_err();
    // Resolution continues after reporting, so both faults surface.
    assert_eq!(errs.len(), 2);
    assert!(matches!(errs[0].error_type, ErrorType::NotAllowedOutsideLoop));
    assert!(matches!(errs[1].error_type, ErrorType::NotAllowedOutsideLoop));
}

#[test]
fn this_outside_class_is_rejected() {
    let program = vec![Stmt::Expr { expr: Expr::This { token: t(280) } }];
    let errs = run(&program).unwrap_err();
    assert!(matches!(errs[0].error_type, ErrorType::CantUseThis));
}

#[test]
fn super_outside_subclass_is_rejected() {
    let program = vec![Stmt::Expr {
        expr: Expr::Super { token: t(290), method_name: "m".to_owned() },
    }];
    let errs = run(&program).unwrap_err();
    assert!(matches!(errs[0].error_type, ErrorType::CantUseSuper));
}

#[test]
fn missing_superclass_method_fails() {
    // class A {} class B : A { m() { return super.nope(); } }
    // var b = B(); b.m();
    let m_body = vec![Stmt::Return {
        token: t(300),
        value: Some(call(
            Expr::Super { token: t(301), method_name: "nope".to_owned() },
            vec![],
            302,
        )),
    }];
    let program = vec![
        class_decl("A", vec![], None, 303),
        class_decl("B", vec![fun_decl("m", vec![], m_body, 304)], Some(var("A", 305)), 306),
        decl("b", Some(call(var("B", 307), vec![], 308))),
        Stmt::Expr {
            expr: call(
                Expr::Get { name: "m".to_owned(), token: t(309), expr: Box::new(var("b", 310)) },
                vec![],
                311,
            ),
        },
    ];
    let errs = run(&program).unwrap_err();
    assert!(matches!(errs[0].error_type, ErrorType::MethodNotFound));
}

#[test]
fn runaway_recursion_hits_the_execution_limit() {
    // fn f() { return f(); } f();
    let program = vec![
        fun_decl(
            "f",
            vec![],
            vec![Stmt::Return { token: t(320), value: Some(call(var("f", 321), vec![], 322)) }],
            323,
        ),
        Stmt::Expr { expr: call(var("f", 324), vec![], 325) },
    ];
    let errs = run(&program).unwrap_err();
    assert!(matches!(errs[0].error_type, ErrorType::ExecutionLimitReached));
}

#[test]
fn wrapping_arithmetic_on_the_edges() {
    // i64::MAX + 1 wraps to i64::MIN.
    let program = vec![print_stmt(binary(num(i64::MAX), BinOp::Plus, num(1), 330))];
    let out = run(&program).unwrap();
    assert_eq!(out, vec![i64::MIN.to_string()]);
}

#[test]
fn truncated_division_toward_zero() {
    // -7 / 2 is -3 and -7 % 2 is -1 under truncation.
    let neg7 = Expr::Unary { op: UnaryOp::Minus, expr: Box::new(num(7)), token: t(340) };
    let neg7b = Expr::Unary { op: UnaryOp::Minus, expr: Box::new(num(7)), token: t(341) };
    let program = vec![
        print_stmt(binary(neg7, BinOp::Divide, num(2), 342)),
        print_stmt(binary(neg7b, BinOp::Modulo, num(2), 343)),
    ];
    let out = run(&program).unwrap();
    assert_eq!(out, vec!["-3".to_owned(), "-1".to_owned()]);
}

#[test]
fn native_clock_is_callable() {
    let program = vec![print_stmt(call(var("clock", 350), vec![], 351))];
    let out = run(&program).unwrap();
    assert_eq!(out, vec!["100".to_owned()]);
}

#[test]
fn value_displays() {
    // A function shows by name, a class by its name, an instance by
    // "<name> instance", and null as null.
    let program = vec![
        fun_decl("f", vec![], vec![], 360),
        class_decl("K", vec![], None, 361),
        decl("k", Some(call(var("K", 362), vec![], 363))),
        print_stmt(var("f", 364)),
        print_stmt(var("K", 365)),
        print_stmt(var("k", 366)),
        print_stmt(Expr::Literal { value: Literal::Null }),
        print_stmt(boolean(true)),
    ];
    let out = run(&program).unwrap();
    assert_eq!(
        out,
        vec![
            "<f function>".to_owned(),
            "K".to_owned(),
            "K instance".to_owned(),
            "null".to_owned(),
            "true".to_owned(),
        ]
    );
}

#[test]
fn function_declarations_recurse() {
    // fn fact(n) { if (n < 2) { return 1; } return n * fact(n - 1); }
    // print fact(5);
    let body = vec![
        Stmt::If {
            condition: binary(var("n", 370), BinOp::Less, num(2), 371),
            then_body: Box::new(Stmt::Block {
                stmts: vec![Stmt::Return { token: t(372), value: Some(num(1)) }],
            }),
            else_body: None,
        },
        Stmt::Return {
            token: t(373),
            value: Some(binary(
                var("n", 374),
                BinOp::Star,
                call(var("fact", 375), vec![binary(var("n", 376), BinOp::Minus, num(1), 377)], 378),
                379,
            )),
        },
    ];
    let program = vec![
        fun_decl("fact", vec!["n"], body, 380),
        print_stmt(call(var("fact", 381), vec![num(5)], 382)),
    ];
    let out = run(&program).unwrap();
    assert_eq!(out, vec!["120".to_owned()]);
}

#[test]
fn assignment_evaluates_to_previous_value() {
    // var x = 1; print (x = 5); print x;  -- an assignment's value is the
    // binding's previous value, and the write still happens.
    let program = vec![
        decl("x", Some(num(1))),
        print_stmt(assign("x", num(5), 400)),
        print_stmt(var("x", 401)),
    ];
    let out = run(&program).unwrap();
    assert_eq!(out, vec!["1".to_owned(), "5".to_owned()]);
}

#[test]
fn property_initializers_see_enclosing_bindings() {
    // var x = 40; class C { var p = x + 2; } print C().p;
    // Initializer references are not resolved to a distance; they fall
    // back to a whole-chain walk at class-declaration time.
    let program = vec![
        decl("x", Some(num(40))),
        class_decl(
            "C",
            vec![decl("p", Some(binary(var("x", 410), BinOp::Plus, num(2), 411)))],
            None,
            412,
        ),
        print_stmt(Expr::Get {
            name: "p".to_owned(),
            token: t(413),
            expr: Box::new(call(var("C", 414), vec![], 415)),
        }),
    ];
    let out = run(&program).unwrap();
    assert_eq!(out, vec!["42".to_owned()]);
}

#[test]
fn long_loops_run_to_completion() {
    // var i = 0; while (i < 20000) { i = i + 1; } print i;  -- loop
    // iterations are not bounded by the call-depth budget.
    let program = vec![
        decl("i", Some(num(0))),
        Stmt::While {
            condition: binary(var("i", 420), BinOp::Less, num(20000), 421),
            body: Box::new(Stmt::Expr {
                expr: assign("i", binary(var("i", 422), BinOp::Plus, num(1), 423), 424),
            }),
        },
        print_stmt(var("i", 425)),
    ];
    let out = run(&program).unwrap();
    assert_eq!(out, vec!["20000".to_owned()]);
}

#[test]
fn return_escapes_a_loop_with_its_value() {
    // fn f() { while (true) { return 7; } } print f();
    let body = vec![Stmt::While {
        condition: boolean(true),
        body: Box::new(Stmt::Block {
            stmts: vec![Stmt::Return { token: t(430), value: Some(num(7)) }],
        }),
    }];
    let program = vec![
        fun_decl("f", vec![], body, 431),
        print_stmt(call(var("f", 432), vec![], 433)),
    ];
    let out = run(&program).unwrap();
    assert_eq!(out, vec!["7".to_owned()]);
}
