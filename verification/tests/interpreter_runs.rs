//! End-to-end runs of whole programs through the resolve-then-interpret
//! pipeline: arithmetic, shadowing, closures, recursion, control flow,
//! and the runtime error taxonomy.

use std::rc::Rc;

use rlox::ast::{Expr, Stmt};
use rlox::errors::RuntimeError;
use rlox::interpreter::Interpreter;
use rlox::lox::Lox;
use rlox::token::{Token, TokenType};
use rlox::value::{ClockFn, LoxCallable, LoxFunction, Object};

fn tok(tt: TokenType, lexeme: &str, line: usize) -> Token {
    Token::new(tt, lexeme, Object::Nil, line)
}

fn ident(name: &str, line: usize) -> Token {
    tok(TokenType::Identifier, name, line)
}

fn num(n: i64) -> Expr {
    Expr::Literal { value: Object::Num(n) }
}

fn lit_str(s: &str) -> Expr {
    Expr::Literal { value: Object::Str(s.to_string()) }
}

fn lit_bool(b: bool) -> Expr {
    Expr::Literal { value: Object::Bool(b) }
}

fn var(name: &str, id: u64) -> Expr {
    Expr::Variable { name: ident(name, 1), id }
}

fn assign(name: &str, id: u64, v: Expr) -> Expr {
    Expr::Assign { name: ident(name, 1), id, value: Box::new(v) }
}

fn binary(l: Expr, tt: TokenType, lexeme: &str, r: Expr) -> Expr {
    Expr::Binary { left: Box::new(l), operator: tok(tt, lexeme, 1), right: Box::new(r) }
}

fn logical(l: Expr, tt: TokenType, lexeme: &str, r: Expr) -> Expr {
    Expr::Logical { left: Box::new(l), operator: tok(tt, lexeme, 1), right: Box::new(r) }
}

fn unary(tt: TokenType, lexeme: &str, r: Expr) -> Expr {
    Expr::Unary { operator: tok(tt, lexeme, 1), right: Box::new(r) }
}

fn call(callee: Expr, args: Vec<Expr>) -> Expr {
    Expr::Call { callee: Box::new(callee), paren: tok(TokenType::RightParen, ")", 1), arguments: args }
}

fn print_stmt(e: Expr) -> Stmt {
    Stmt::Print { expression: e }
}

fn var_stmt(name: &str, init: Option<Expr>) -> Stmt {
    Stmt::Var { name: ident(name, 1), initializer: init }
}

fn block(ss: Vec<Stmt>) -> Stmt {
    Stmt::Block { statements: ss }
}

fn fun_stmt(name: &str, params: Vec<&str>, body: Vec<Stmt>) -> Stmt {
    Stmt::Function {
        name: ident(name, 1),
        params: Rc::new(params.iter().map(|p| ident(p, 1)).collect()),
        body: Rc::new(body),
    }
}

fn ret(v: Option<Expr>) -> Stmt {
    Stmt::Return { keyword: tok(TokenType::Return, "return", 1), value: v }
}

fn if_stmt(cond: Expr, then_branch: Stmt, else_branch: Option<Stmt>) -> Stmt {
    Stmt::If {
        condition: cond,
        then_branch: Box::new(then_branch),
        else_branch: else_branch.map(Box::new),
    }
}

fn while_stmt(cond: Expr, body: Stmt) -> Stmt {
    Stmt::While { condition: cond, body: Box::new(body) }
}

fn run_program(prog: Vec<Stmt>) -> (Vec<String>, Vec<RuntimeError>) {
    let mut lox = Lox::new();
    let errs = lox.run(&prog, 100_000).expect("the resolver rejected the program");
    (lox.output().clone(), errs)
}

fn run_clean(prog: Vec<Stmt>) -> Vec<String> {
    let (out, errs) = run_program(prog);
    assert!(errs.is_empty(), "unexpected runtime errors");
    out
}

#[test]
fn arithmetic_matches_integer_semantics() {
    // print 6 / 2;  print 1 + 2 * 3;  print 7 - 10;
    let prog = vec![
        print_stmt(binary(num(6), TokenType::Slash, "/", num(2))),
        print_stmt(binary(
            num(1),
            TokenType::Plus,
            "+",
            binary(num(2), TokenType::Star, "*", num(3)),
        )),
        print_stmt(binary(num(7), TokenType::Minus, "-", num(10))),
    ];
    assert_eq!(run_clean(prog), vec!["3", "7", "-3"]);
}

#[test]
fn string_concatenation() {
    // print "a" + "b";
    let prog = vec![print_stmt(binary(lit_str("a"), TokenType::Plus, "+", lit_str("b")))];
    assert_eq!(run_clean(prog), vec!["ab"]);
}

#[test]
fn mixed_addition_is_a_type_mismatch() {
    // "a" + 1;
    let prog = vec![Stmt::Expression {
        expression: binary(lit_str("a"), TokenType::Plus, "+", num(1)),
    }];
    let (_, errs) = run_program(prog);
    assert_eq!(errs.len(), 1);
    assert!(matches!(errs[0], RuntimeError::TypeMismatch { .. }));
}

#[test]
fn comparisons_and_equality() {
    let prog = vec![
        print_stmt(binary(num(1), TokenType::Less, "<", num(2))),
        print_stmt(binary(lit_str("abc"), TokenType::Less, "<", lit_str("abd"))),
        print_stmt(binary(num(3), TokenType::EqualEqual, "==", num(3))),
        print_stmt(binary(num(3), TokenType::BangEqual, "!=", lit_str("3"))),
        print_stmt(binary(
            Expr::Literal { value: Object::Nil },
            TokenType::EqualEqual,
            "==",
            Expr::Literal { value: Object::Nil },
        )),
    ];
    assert_eq!(run_clean(prog), vec!["true", "true", "true", "true", "true"]);
}

#[test]
fn ordering_of_bool_pair_is_a_type_mismatch() {
    let prog = vec![Stmt::Expression {
        expression: binary(lit_bool(true), TokenType::Less, "<", lit_bool(false)),
    }];
    let (_, errs) = run_program(prog);
    assert_eq!(errs.len(), 1);
    assert!(matches!(errs[0], RuntimeError::TypeMismatch { .. }));
}

#[test]
fn unary_operators() {
    let prog = vec![
        print_stmt(unary(TokenType::Minus, "-", num(5))),
        print_stmt(unary(TokenType::Bang, "!", Expr::Literal { value: Object::Nil })),
        print_stmt(unary(TokenType::Bang, "!", num(0))),
    ];
    // zero is truthy, so !0 is false
    assert_eq!(run_clean(prog), vec!["-5", "true", "false"]);
}

#[test]
fn shadowing_prints_inner_then_outer() {
    // var a = 1; { var a = 2; print a; } print a;
    let prog = vec![
        var_stmt("a", Some(num(1))),
        block(vec![var_stmt("a", Some(num(2))), print_stmt(var("a", 1))]),
        print_stmt(var("a", 2)),
    ];
    assert_eq!(run_clean(prog), vec!["2", "1"]);
}

#[test]
fn closures_capture_the_defining_frame() {
    // fun makeCounter() { var i = 0; fun count() { i = i + 1; return i; }
    //   return count; }
    // var counter = makeCounter(); print counter(); print counter();
    let prog = vec![
        fun_stmt(
            "makeCounter",
            vec![],
            vec![
                var_stmt("i", Some(num(0))),
                fun_stmt(
                    "count",
                    vec![],
                    vec![
                        Stmt::Expression {
                            expression: assign(
                                "i",
                                1,
                                binary(var("i", 2), TokenType::Plus, "+", num(1)),
                            ),
                        },
                        ret(Some(var("i", 3))),
                    ],
                ),
                ret(Some(var("count", 4))),
            ],
        ),
        var_stmt("counter", Some(call(var("makeCounter", 5), vec![]))),
        print_stmt(call(var("counter", 6), vec![])),
        print_stmt(call(var("counter", 7), vec![])),
    ];
    assert_eq!(run_clean(prog), vec!["1", "2"]);
}

#[test]
fn uninitialized_read_is_an_error_not_nil() {
    // var a; print a;
    let prog = vec![var_stmt("a", None), print_stmt(var("a", 1))];
    let (out, errs) = run_program(prog);
    assert!(out.is_empty());
    assert_eq!(errs.len(), 1);
    match &errs[0] {
        RuntimeError::UninitializedVariable { name, .. } => assert_eq!(name, "a"),
        other => panic!("wrong error kind: {:?}", kind_of(other)),
    }
}

#[test]
fn fib_ten_is_fifty_five() {
    // fun fib(n) { if (n < 2) return n; return fib(n-1) + fib(n-2); }
    // print fib(10);
    let fib_body = vec![
        if_stmt(
            binary(var("n", 1), TokenType::Less, "<", num(2)),
            ret(Some(var("n", 2))),
            None,
        ),
        ret(Some(binary(
            call(var("fib", 3), vec![binary(var("n", 4), TokenType::Minus, "-", num(1))]),
            TokenType::Plus,
            "+",
            call(var("fib", 5), vec![binary(var("n", 6), TokenType::Minus, "-", num(2))]),
        ))),
    ];
    let prog = vec![
        fun_stmt("fib", vec!["n"], fib_body),
        print_stmt(call(var("fib", 7), vec![num(10)])),
    ];
    assert_eq!(run_clean(prog), vec!["55"]);
}

#[test]
fn return_unwinds_nested_if_and_while_but_not_past_the_call() {
    // fun f() { while (true) { if (true) { return 7; } } } print f(); print 9;
    let prog = vec![
        fun_stmt(
            "f",
            vec![],
            vec![while_stmt(
                lit_bool(true),
                block(vec![if_stmt(lit_bool(true), block(vec![ret(Some(num(7)))]), None)]),
            )],
        ),
        print_stmt(call(var("f", 1), vec![])),
        print_stmt(num(9)),
    ];
    assert_eq!(run_clean(prog), vec!["7", "9"]);
}

#[test]
fn arity_mismatch_names_both_counts() {
    // fun add2(a, b) { return a + b; } add2(1); add2(1, 2, 3);
    let add_body = vec![ret(Some(binary(var("a", 1), TokenType::Plus, "+", var("b", 2))))];
    let prog = vec![
        fun_stmt("add2", vec!["a", "b"], add_body),
        Stmt::Expression { expression: call(var("add2", 3), vec![num(1)]) },
        Stmt::Expression { expression: call(var("add2", 4), vec![num(1), num(2), num(3)]) },
    ];
    let (_, errs) = run_program(prog);
    assert_eq!(errs.len(), 2);
    match &errs[0] {
        RuntimeError::ArityMismatch { expected, actual, .. } => {
            assert_eq!(*expected, 2);
            assert_eq!(*actual, 1);
        },
        other => panic!("wrong error kind: {:?}", kind_of(other)),
    }
    match &errs[1] {
        RuntimeError::ArityMismatch { expected, actual, .. } => {
            assert_eq!(*expected, 2);
            assert_eq!(*actual, 3);
        },
        other => panic!("wrong error kind: {:?}", kind_of(other)),
    }
}

#[test]
fn calling_a_number_is_not_callable() {
    let prog = vec![Stmt::Expression { expression: call(num(4), vec![]) }];
    let (_, errs) = run_program(prog);
    assert_eq!(errs.len(), 1);
    assert!(matches!(errs[0], RuntimeError::NotCallable { .. }));
}

#[test]
fn callee_check_precedes_argument_errors() {
    // 4(ghostly);  — the callee fails first, not the undefined argument
    let prog = vec![Stmt::Expression { expression: call(num(4), vec![var("ghostly", 1)]) }];
    let (_, errs) = run_program(prog);
    assert_eq!(errs.len(), 1);
    assert!(matches!(errs[0], RuntimeError::NotCallable { .. }));
}

#[test]
fn callee_check_precedes_argument_side_effects() {
    // var a = 1; 4(a = 99); print a;  — the assignment never runs
    let prog = vec![
        var_stmt("a", Some(num(1))),
        Stmt::Expression { expression: call(num(4), vec![assign("a", 1, num(99))]) },
        print_stmt(var("a", 2)),
    ];
    let (out, errs) = run_program(prog);
    assert_eq!(out, vec!["1"]);
    assert_eq!(errs.len(), 1);
    assert!(matches!(errs[0], RuntimeError::NotCallable { .. }));
}

#[test]
fn undefined_variable_read_and_assignment() {
    // print ghostly; nope = 3;
    let prog = vec![
        print_stmt(var("ghostly", 1)),
        Stmt::Expression { expression: assign("nope", 2, num(3)) },
    ];
    let (_, errs) = run_program(prog);
    assert_eq!(errs.len(), 2);
    assert!(matches!(&errs[0], RuntimeError::UndefinedVariable { name, .. } if name == "ghostly"));
    assert!(matches!(&errs[1], RuntimeError::UndefinedVariable { name, .. } if name == "nope"));
}

#[test]
fn assignment_is_an_expression_with_the_assigned_value() {
    // var a = 1; print a = 5; print a;
    let prog = vec![
        var_stmt("a", Some(num(1))),
        print_stmt(assign("a", 1, num(5))),
        print_stmt(var("a", 2)),
    ];
    assert_eq!(run_clean(prog), vec!["5", "5"]);
}

#[test]
fn logical_operators_short_circuit_and_keep_operand_values() {
    // print "hi" or 2;   print nil or "yes";   print nil and 2;   print 1 and 2;
    let prog = vec![
        print_stmt(logical(lit_str("hi"), TokenType::Or, "or", num(2))),
        print_stmt(logical(Expr::Literal { value: Object::Nil }, TokenType::Or, "or", lit_str("yes"))),
        print_stmt(logical(Expr::Literal { value: Object::Nil }, TokenType::And, "and", num(2))),
        print_stmt(logical(num(1), TokenType::And, "and", num(2))),
    ];
    assert_eq!(run_clean(prog), vec!["hi", "yes", "nil", "2"]);
}

#[test]
fn short_circuit_skips_the_right_operand_effects() {
    // var a = 1; true or (a = 99); false and (a = 98); print a;
    let prog = vec![
        var_stmt("a", Some(num(1))),
        Stmt::Expression {
            expression: logical(
                lit_bool(true),
                TokenType::Or,
                "or",
                Expr::Grouping { expression: Box::new(assign("a", 1, num(99))) },
            ),
        },
        Stmt::Expression {
            expression: logical(
                lit_bool(false),
                TokenType::And,
                "and",
                Expr::Grouping { expression: Box::new(assign("a", 2, num(98))) },
            ),
        },
        print_stmt(var("a", 3)),
    ];
    assert_eq!(run_clean(prog), vec!["1"]);
}

#[test]
fn while_loop_counts() {
    // var i = 0; while (i < 3) { print i; i = i + 1; }
    let prog = vec![
        var_stmt("i", Some(num(0))),
        while_stmt(
            binary(var("i", 1), TokenType::Less, "<", num(3)),
            block(vec![
                print_stmt(var("i", 2)),
                Stmt::Expression {
                    expression: assign("i", 3, binary(var("i", 4), TokenType::Plus, "+", num(1))),
                },
            ]),
        ),
    ];
    assert_eq!(run_clean(prog), vec!["0", "1", "2"]);
}

#[test]
fn runaway_recursion_exhausts_the_depth_guard() {
    // fun spin() { return spin(); } spin();
    let prog = vec![
        fun_stmt("spin", vec![], vec![ret(Some(call(var("spin", 1), vec![])))]),
        Stmt::Expression { expression: call(var("spin", 2), vec![]) },
    ];
    let mut lox = Lox::new();
    let errs = lox.run(&prog, 100).expect("the resolver rejected the program");
    assert_eq!(errs.len(), 1);
    assert!(matches!(errs[0], RuntimeError::DepthExceeded));
}

#[test]
fn an_error_abandons_only_its_own_statement() {
    // print 1; print nothere; print 2;
    let prog = vec![
        print_stmt(num(1)),
        print_stmt(var("nothere", 1)),
        print_stmt(num(2)),
    ];
    let (out, errs) = run_program(prog);
    assert_eq!(out, vec!["1", "2"]);
    assert_eq!(errs.len(), 1);
}

#[test]
fn division_by_zero_is_an_error() {
    let prog = vec![Stmt::Expression { expression: binary(num(1), TokenType::Slash, "/", num(0)) }];
    let (_, errs) = run_program(prog);
    assert_eq!(errs.len(), 1);
    assert!(matches!(errs[0], RuntimeError::TypeMismatch { .. }));
}

#[test]
fn clock_builtin_returns_a_number() {
    // var t = clock(); print t >= 0;
    let prog = vec![
        var_stmt("t", Some(call(var("clock", 1), vec![]))),
        print_stmt(binary(var("t", 2), TokenType::GreaterEqual, ">=", num(0))),
    ];
    assert_eq!(run_clean(prog), vec!["true"]);
}

#[test]
fn function_values_print_with_their_name() {
    let prog = vec![fun_stmt("greet", vec![], vec![]), print_stmt(var("greet", 1))];
    assert_eq!(run_clean(prog), vec!["<fn> greet"]);
}

fn kind_of(e: &RuntimeError) -> &'static str {
    match e {
        RuntimeError::UndefinedVariable { .. } => "UndefinedVariable",
        RuntimeError::UninitializedVariable { .. } => "UninitializedVariable",
        RuntimeError::TypeMismatch { .. } => "TypeMismatch",
        RuntimeError::NotCallable { .. } => "NotCallable",
        RuntimeError::ArityMismatch { .. } => "ArityMismatch",
        RuntimeError::ResolutionFault => "ResolutionFault",
        RuntimeError::DepthExceeded => "DepthExceeded",
    }
}

#[test]
fn addition_wraps_at_the_numeric_bounds() {
    // print 9223372036854775807 + 1;  print -(-9223372036854775807 - 1);
    let prog = vec![
        print_stmt(binary(num(i64::MAX), TokenType::Plus, "+", num(1))),
        print_stmt(unary(TokenType::Minus, "-", num(i64::MIN))),
    ];
    assert_eq!(
        run_clean(prog),
        vec!["-9223372036854775808", "-9223372036854775808"]
    );
}

#[test]
fn empty_program_runs_silently() {
    let (out, errs) = run_program(vec![]);
    assert!(out.is_empty());
    assert!(errs.is_empty());
}

#[test]
fn a_bad_binding_table_is_a_fatal_internal_fault() {
    // a table claiming `a` lives five scopes up, against a bare global
    // frame; the fault stops the run, so the final print never happens
    let mut it = Interpreter::new();
    it.resolve(vec![(1, 5)]);
    let prog = vec![
        var_stmt("a", Some(num(1))),
        print_stmt(var("a", 1)),
        print_stmt(num(7)),
    ];
    let errs = it.interpret(&prog, 100);
    assert_eq!(errs.len(), 1);
    assert!(matches!(errs[0], RuntimeError::ResolutionFault));
    assert!(it.output.is_empty());
}

#[test]
fn callables_report_their_arity() {
    assert_eq!(LoxCallable::Clock(ClockFn).arity(), 0);
    let f = LoxFunction {
        name: "add2".to_string(),
        params: Rc::new(vec![ident("a", 1), ident("b", 1)]),
        body: Rc::new(vec![]),
        closure: 0,
    };
    assert_eq!(LoxCallable::Function(f).arity(), 2);
}

#[test]
fn only_callables_convert_to_callables() {
    assert!(matches!(Object::Num(1).as_callable(), Err(RuntimeError::NotCallable { .. })));
    let c = Object::Callable(LoxCallable::Clock(ClockFn));
    assert!(c.as_callable().is_ok());
}

#[test]
fn resolver_errors_skip_execution_entirely() {
    // { var x = 1; var x = 2; print x; }
    let prog = vec![block(vec![
        var_stmt("x", Some(num(1))),
        var_stmt("x", Some(num(2))),
        print_stmt(var("x", 1)),
    ])];
    let mut lox = Lox::new();
    let res = lox.run(&prog, 1000);
    assert!(res.is_err());
    assert!(lox.output().is_empty());
}

#[test]
fn two_closures_alias_one_frame() {
    // var bump; var read;
    // fun setup() { var i = 0; fun f() { i = i + 1; return i; }
    //   fun g() { return i; } bump = f; read = g; }
    // setup(); bump(); bump(); print read();
    let prog = vec![
        var_stmt("bump", None),
        var_stmt("read", None),
        fun_stmt(
            "setup",
            vec![],
            vec![
                var_stmt("i", Some(num(0))),
                fun_stmt(
                    "f",
                    vec![],
                    vec![
                        Stmt::Expression {
                            expression: assign(
                                "i",
                                1,
                                binary(var("i", 2), TokenType::Plus, "+", num(1)),
                            ),
                        },
                        ret(Some(var("i", 3))),
                    ],
                ),
                fun_stmt("g", vec![], vec![ret(Some(var("i", 4)))]),
                Stmt::Expression { expression: assign("bump", 5, var("f", 6)) },
                Stmt::Expression { expression: assign("read", 7, var("g", 8)) },
            ],
        ),
        Stmt::Expression { expression: call(var("setup", 9), vec![]) },
        Stmt::Expression { expression: call(var("bump", 10), vec![]) },
        Stmt::Expression { expression: call(var("bump", 11), vec![]) },
        print_stmt(call(var("read", 12), vec![])),
    ];
    assert_eq!(run_clean(prog), vec!["2"]);
}

#[test]
fn a_closure_keeps_its_block_frame_alive() {
    // var f; { var a = 10; fun g() { return a; } f = g; } print f();
    let prog = vec![
        var_stmt("f", None),
        block(vec![
            var_stmt("a", Some(num(10))),
            fun_stmt("g", vec![], vec![ret(Some(var("a", 1)))]),
            Stmt::Expression { expression: assign("f", 2, var("g", 3)) },
        ]),
        print_stmt(call(var("f", 4), vec![])),
    ];
    assert_eq!(run_clean(prog), vec!["10"]);
}

#[test]
fn if_else_takes_the_right_branch() {
    let prog = vec![
        if_stmt(lit_bool(false), print_stmt(num(1)), Some(print_stmt(num(2)))),
        if_stmt(lit_bool(true), print_stmt(num(3)), Some(print_stmt(num(4)))),
        if_stmt(lit_bool(false), print_stmt(num(5)), None),
    ];
    assert_eq!(run_clean(prog), vec!["2", "3"]);
}

#[test]
fn grouping_overrides_precedence() {
    // print (1 + 2) * 3;
    let prog = vec![print_stmt(binary(
        Expr::Grouping {
            expression: Box::new(binary(num(1), TokenType::Plus, "+", num(2))),
        },
        TokenType::Star,
        "*",
        num(3),
    ))];
    assert_eq!(run_clean(prog), vec!["9"]);
}

#[test]
fn string_ordering_edges() {
    let prog = vec![
        print_stmt(binary(lit_str("ab"), TokenType::Less, "<", lit_str("b"))),
        print_stmt(binary(lit_str(""), TokenType::Less, "<", lit_str("a"))),
        print_stmt(binary(lit_str("a"), TokenType::LessEqual, "<=", lit_str("a"))),
        print_stmt(binary(lit_str("ab"), TokenType::Greater, ">", lit_str("aa"))),
    ];
    assert_eq!(run_clean(prog), vec!["true", "true", "true", "true"]);
}

#[test]
fn a_session_keeps_its_globals_across_runs() {
    let mut lox = Lox::new();
    let first = vec![var_stmt("a", Some(num(41)))];
    assert!(lox.run(&first, 1000).unwrap().is_empty());
    let second = vec![print_stmt(binary(var("a", 1), TokenType::Plus, "+", num(1)))];
    assert!(lox.run(&second, 1000).unwrap().is_empty());
    assert_eq!(lox.output().clone(), vec!["42"]);
}
