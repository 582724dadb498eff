//! The static pass on its own: recorded distances, the errors it
//! reports, and the stability of the binding table across re-runs.

use std::rc::Rc;

use rlox::ast::{Expr, Stmt};
use rlox::errors::ResolveError;
use rlox::resolver::Resolver;
use rlox::token::{Token, TokenType};
use rlox::value::Object;

fn ident(name: &str, line: usize) -> Token {
    Token::new(TokenType::Identifier, name, Object::Nil, line)
}

fn var(name: &str, id: u64) -> Expr {
    Expr::Variable { name: ident(name, 1), id }
}

fn var_stmt(name: &str, init: Option<Expr>) -> Stmt {
    Stmt::Var { name: ident(name, 1), initializer: init }
}

fn block(ss: Vec<Stmt>) -> Stmt {
    Stmt::Block { statements: ss }
}

fn print_stmt(e: Expr) -> Stmt {
    Stmt::Print { expression: e }
}

fn fun_stmt(name: &str, params: Vec<&str>, body: Vec<Stmt>) -> Stmt {
    Stmt::Function {
        name: ident(name, 1),
        params: Rc::new(params.iter().map(|p| ident(p, 1)).collect()),
        body: Rc::new(body),
    }
}

fn resolve(prog: &Vec<Stmt>) -> Resolver {
    let mut r = Resolver::new();
    r.resolve_stmts(prog);
    r
}

/// The last recorded distance for a node identity, as the evaluator
/// reads the table.
fn lookup(locals: &Vec<(u64, usize)>, id: u64) -> Option<usize> {
    locals.iter().rev().find(|p| p.0 == id).map(|p| p.1)
}

#[test]
fn distances_count_scopes_between_use_and_declaration() {
    // var g = 1;
    // { var a = 2; { var b = 3; print a; print b; print g; } }
    let prog = vec![
        var_stmt("g", Some(Expr::Literal { value: Object::Num(1) })),
        block(vec![
            var_stmt("a", Some(Expr::Literal { value: Object::Num(2) })),
            block(vec![
                var_stmt("b", Some(Expr::Literal { value: Object::Num(3) })),
                print_stmt(var("a", 1)),
                print_stmt(var("b", 2)),
                print_stmt(var("g", 3)),
            ]),
        ]),
    ];
    let r = resolve(&prog);
    assert!(r.errors.is_empty());
    assert_eq!(lookup(&r.locals, 1), Some(1));
    assert_eq!(lookup(&r.locals, 2), Some(0));
    // top-level names are not tracked: they resolve at run time instead
    assert_eq!(lookup(&r.locals, 3), None);
}

#[test]
fn self_referential_initializer_is_reported_and_not_resolved_outward() {
    // var a = 1; { var a = a; }
    let prog = vec![
        var_stmt("a", Some(Expr::Literal { value: Object::Num(1) })),
        block(vec![var_stmt("a", Some(var("a", 1)))]),
    ];
    let r = resolve(&prog);
    assert_eq!(r.errors.len(), 1);
    assert!(
        matches!(&r.errors[0], ResolveError::SelfReferentialInitializer { name, .. } if name == "a")
    );
    // the reference binds to the declaration in its own scope, never to
    // the outer variable one scope up
    assert_eq!(lookup(&r.locals, 1), Some(0));
}

#[test]
fn duplicate_declaration_in_one_scope_is_reported() {
    // { var x = 1; var x = 2; }
    let prog = vec![block(vec![
        var_stmt("x", Some(Expr::Literal { value: Object::Num(1) })),
        var_stmt("x", Some(Expr::Literal { value: Object::Num(2) })),
    ])];
    let r = resolve(&prog);
    assert_eq!(r.errors.len(), 1);
    assert!(matches!(&r.errors[0], ResolveError::DuplicateDeclaration { name, .. } if name == "x"));
}

#[test]
fn top_level_redeclaration_is_allowed() {
    // var x = 1; var x = 2;
    let prog = vec![
        var_stmt("x", Some(Expr::Literal { value: Object::Num(1) })),
        var_stmt("x", Some(Expr::Literal { value: Object::Num(2) })),
    ];
    let r = resolve(&prog);
    assert!(r.errors.is_empty());
}

#[test]
fn return_outside_a_function_is_reported() {
    let prog = vec![Stmt::Return {
        keyword: Token::new(TokenType::Return, "return", Object::Nil, 4),
        value: None,
    }];
    let r = resolve(&prog);
    assert_eq!(r.errors.len(), 1);
    assert!(matches!(&r.errors[0], ResolveError::ReturnOutsideFunction { line } if *line == 4));
}

#[test]
fn return_inside_a_function_is_fine() {
    let prog = vec![fun_stmt("f", vec![], vec![Stmt::Return {
        keyword: Token::new(TokenType::Return, "return", Object::Nil, 1),
        value: None,
    }])];
    let r = resolve(&prog);
    assert!(r.errors.is_empty());
}

#[test]
fn parameters_resolve_to_the_function_scope() {
    // fun f(p) { print p; }
    let prog = vec![fun_stmt("f", vec!["p"], vec![print_stmt(var("p", 1))])];
    let r = resolve(&prog);
    assert!(r.errors.is_empty());
    assert_eq!(lookup(&r.locals, 1), Some(0));
}

#[test]
fn resolving_twice_gives_the_same_table() {
    let make = || {
        vec![
            var_stmt("g", Some(Expr::Literal { value: Object::Num(1) })),
            block(vec![
                var_stmt("a", Some(Expr::Literal { value: Object::Num(2) })),
                print_stmt(var("a", 1)),
                print_stmt(var("g", 2)),
            ]),
            fun_stmt("f", vec!["p"], vec![print_stmt(var("p", 3))]),
        ]
    };
    // two fresh passes agree exactly
    let first = resolve(&make());
    let second = resolve(&make());
    assert_eq!(first.locals, second.locals);
    assert_eq!(first.errors.len(), second.errors.len());

    // re-running the pass on one resolver appends a second copy of the
    // same entries, so every lookup answers as before
    let mut rerun = resolve(&make());
    rerun.resolve_stmts(&make());
    assert_eq!(rerun.locals.len(), 2 * first.locals.len());
    for (id, _) in first.locals.iter() {
        assert_eq!(lookup(&rerun.locals, *id), lookup(&first.locals, *id));
    }
}
