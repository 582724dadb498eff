//! The value type and the frame arena on their own: display forms,
//! truthiness, equality, and the environment operations.

use rlox::environment::Env;
use rlox::numfmt::i64_to_string;
use rlox::token::{Token, TokenType};
use rlox::value::Object;

fn name_tok(name: &str, line: usize) -> Token {
    Token::new(TokenType::Identifier, name, Object::Nil, line)
}

#[test]
fn numbers_display_in_decimal() {
    assert_eq!(i64_to_string(0), "0");
    assert_eq!(i64_to_string(42), "42");
    assert_eq!(i64_to_string(-7), "-7");
    assert_eq!(i64_to_string(1000), "1000");
    assert_eq!(i64_to_string(i64::MAX), "9223372036854775807");
    assert_eq!(i64_to_string(i64::MIN), "-9223372036854775808");
}

#[test]
fn display_forms() {
    assert_eq!(Object::Num(3).to_display(), "3");
    assert_eq!(Object::Str("hi".to_string()).to_display(), "hi");
    assert_eq!(Object::Bool(true).to_display(), "true");
    assert_eq!(Object::Bool(false).to_display(), "false");
    assert_eq!(Object::Nil.to_display(), "nil");
}

#[test]
fn truthiness_rules() {
    assert!(!Object::Nil.to_bool());
    assert!(!Object::Bool(false).to_bool());
    assert!(Object::Bool(true).to_bool());
    assert!(Object::Num(0).to_bool());
    assert!(Object::Str(String::new()).to_bool());
}

#[test]
fn equality_rules() {
    assert!(Object::Num(3).equals(&Object::Num(3)));
    assert!(!Object::Num(3).equals(&Object::Num(4)));
    assert!(Object::Str("a".to_string()).equals(&Object::Str("a".to_string())));
    assert!(Object::Nil.equals(&Object::Nil));
    assert!(!Object::Num(3).equals(&Object::Str("3".to_string())));
    assert!(!Object::Bool(false).equals(&Object::Nil));
}

#[test]
fn accessors_and_token_basics() {
    assert_eq!(Object::Num(5).to_num(), Some(5));
    assert_eq!(Object::Str("x".to_string()).to_num(), None);
    assert!(Object::Num(5).is_num());
    assert!(Object::Str("x".to_string()).is_str());
    assert_eq!(Object::Str("x".to_string()).to_str(), Some("x".to_string()));
    assert_eq!(Object::Num(5).to_str(), None);

    let t = Token::new(TokenType::Eof, "", Object::Nil, 9);
    assert!(t.is_eof());
    assert_eq!(t.line, 9);
    let u = name_tok("abc", 2);
    assert!(!u.is_eof());
    assert_eq!(u.lexeme, "abc");
}

#[test]
fn define_get_and_shadowing_in_frames() {
    let mut env = Env::new();
    let a = name_tok("a", 1);
    env.define(0, &"a".to_string(), Object::Num(1));
    let inner = env.new_enclosing(0);
    // the inner frame sees the outer binding through the chain
    let got = env.get(inner, &a).unwrap();
    assert!(got.equals(&Object::Num(1)));
    // an inner definition shadows without touching the outer one
    env.define(inner, &"a".to_string(), Object::Num(2));
    assert!(env.get(inner, &a).unwrap().equals(&Object::Num(2)));
    assert!(env.get(0, &a).unwrap().equals(&Object::Num(1)));
    // redeclaration in one frame overwrites
    env.define(inner, &"a".to_string(), Object::Num(3));
    assert!(env.get(inner, &a).unwrap().equals(&Object::Num(3)));
}

#[test]
fn assign_mutates_the_innermost_frame_that_binds() {
    let mut env = Env::new();
    let a = name_tok("a", 1);
    env.define(0, &"a".to_string(), Object::Num(1));
    let inner = env.new_enclosing(0);
    // no inner binding: assignment reaches the outer frame
    env.assign(inner, &a, Object::Num(5)).unwrap();
    assert!(env.get(0, &a).unwrap().equals(&Object::Num(5)));
    // assignment never creates a binding
    let missing = name_tok("b", 1);
    assert!(env.assign(inner, &missing, Object::Num(9)).is_err());
    assert!(env.get(inner, &missing).is_err());
}

#[test]
fn distance_addressing_walks_exact_links() {
    let mut env = Env::new();
    env.define(0, &"x".to_string(), Object::Num(10));
    let f1 = env.new_enclosing(0);
    let f2 = env.new_enclosing(f1);
    env.define(f1, &"x".to_string(), Object::Num(20));
    // distance 0 from f2: nothing bound there
    assert!(env.get_at(0, f2, &"x".to_string()).is_none());
    // distance 1 from f2: the f1 binding
    assert!(env.get_at(1, f2, &"x".to_string()).unwrap().equals(&Object::Num(20)));
    // distance 2 from f2: the global binding
    assert!(env.get_at(2, f2, &"x".to_string()).unwrap().equals(&Object::Num(10)));
    // distance past the root: no frame there
    assert!(env.ancestor(f2, 3).is_none());
    assert!(!env.assign_at(3, f2, &"x".to_string(), Object::Num(1)));
    // assign_at hits exactly the addressed frame
    assert!(env.assign_at(1, f2, &"x".to_string(), Object::Num(21)));
    assert!(env.get_at(1, f2, &"x".to_string()).unwrap().equals(&Object::Num(21)));
    assert!(env.get_at(2, f2, &"x".to_string()).unwrap().equals(&Object::Num(10)));
}
