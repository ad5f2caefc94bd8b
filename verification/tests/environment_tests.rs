use rlox::environment::Environment;
use rlox::interpreter::ErrorKind;
use rlox::object::Object;
use rlox::token::{Literal, Token, TokenType};
use rlox::{lox_error, report};

fn name_token(name: &str, line: usize) -> Token {
    Token::new(TokenType::Identifier, name, Literal::Nil, line)
}

fn as_number(obj: Object) -> i64 {
    match obj {
        Object::Number(n) => n,
        _ => panic!("expected a number"),
    }
}

#[test]
fn define_then_get_in_same_frame() {
    let mut env = Environment::new();
    env.define(String::from("x"), Object::Number(1));
    let got = env.get(&name_token("x", 1)).ok().expect("x should be bound");
    assert_eq!(as_number(got), 1);
}

#[test]
fn get_walks_the_chain_outward() {
    let mut env = Environment::new();
    env.define(String::from("x"), Object::Number(1));
    env.push_frame();
    let got = env.get(&name_token("x", 1)).ok().expect("x visible from child");
    assert_eq!(as_number(got), 1);
    env.pop_frame();
}

#[test]
fn nearest_binding_shadows_outer_one() {
    let mut env = Environment::new();
    env.define(String::from("x"), Object::Number(1));
    env.push_frame();
    env.define(String::from("x"), Object::Number(2));
    assert_eq!(as_number(env.get(&name_token("x", 1)).ok().unwrap()), 2);
    env.pop_frame();
    assert_eq!(as_number(env.get(&name_token("x", 1)).ok().unwrap()), 1);
}

#[test]
fn assign_overwrites_nearest_existing_binding() {
    let mut env = Environment::new();
    env.define(String::from("x"), Object::Number(1));
    env.push_frame();
    assert!(env.assign(&name_token("x", 3), Object::Number(9)).is_ok());
    env.pop_frame();
    assert_eq!(as_number(env.get(&name_token("x", 1)).ok().unwrap()), 9);
}

#[test]
fn assign_never_declares() {
    let mut env = Environment::new();
    let err = env
        .assign(&name_token("ghostly", 7), Object::Number(1))
        .err()
        .expect("assignment to an unbound name must fail");
    assert_eq!(err.line, 7);
    match err.kind {
        ErrorKind::UndefinedVariable(n) => assert_eq!(n, "ghostly"),
        _ => panic!("expected an undefined-variable error"),
    }
    // And the name is still unbound afterwards.
    assert!(env.get(&name_token("ghostly", 8)).is_err());
}

#[test]
fn get_reports_the_reference_line() {
    let env = Environment::new();
    let err = env.get(&name_token("nope", 12)).err().unwrap();
    assert_eq!(err.line, 12);
    assert_eq!(err.render(), "[line 12] Undefined variable 'nope'.");
}

#[test]
fn redefinition_overwrites_within_a_frame() {
    let mut env = Environment::new();
    env.define(String::from("x"), Object::Number(1));
    env.define(String::from("x"), Object::Boolean(true));
    match env.get(&name_token("x", 1)).ok().unwrap() {
        Object::Boolean(b) => assert!(b),
        _ => panic!("expected the later binding"),
    }
}

#[test]
fn report_renders_the_diagnostic_shape() {
    assert_eq!(report(3, " at 'x'", "bad thing"), "line 3 Error  at 'x': bad thing");
    assert_eq!(lox_error(9, "Unexpected character."), "line 9 Error : Unexpected character.");
}
