use lispy::data::{c_int, c_list, c_symbol, AtomError, AtomType};
use lispy::data::Env;
use lispy::env::Runtime;
use lispy::eval::{build, eval};

fn print(v: Result<AtomType, AtomError>) -> String {
    match v {
        Ok(ref atom) => atom.format(false),
        Err(err) => format!("{:?}", err),
    }
}

fn env() -> (Runtime, Env) {
    let mut rt = Runtime::new();
    let env = build(&mut rt);
    (rt, env)
}

#[test]
fn eval_symbol() {
    let (mut rt, env) = env();
    eval(&mut rt, &c_symbol("Test"), env).unwrap_err();
}

#[test]
fn eval_int() {
    let (mut rt, env) = env();
    assert_eq!("2", print(eval(&mut rt, &c_int(2), env)));
}

#[test]
fn eval_list_invalid_type_because_operation_is_int() {
    let (mut rt, env) = env();
    match eval(&mut rt, &c_list(vec![c_int(1), c_int(2)]), env) {
        Err(AtomError::InvalidOperation(_)) => {}
        Err(_) => unreachable!(),
        Ok(_) => unreachable!(),
    }
}

#[test]
fn eval_list_invalid_operation() {
    let (mut rt, env) = env();
    match eval(&mut rt, &c_list(vec![c_symbol("undefined"), c_int(2)]), env) {
        Err(AtomError::UndefinedSymbol(_)) => {}
        Err(_) => unreachable!(),
        Ok(_) => unreachable!(),
    }
}

#[test]
fn eval_list_add() {
    let (mut rt, env) = env();
    assert_eq!("3", print(eval(&mut rt, &c_list(vec![c_symbol("+"), c_int(1), c_int(2)]), env)));
}

#[test]
fn eval_list_div() {
    let (mut rt, env) = env();
    assert_eq!("2", print(eval(&mut rt, &c_list(vec![c_symbol("/"), c_int(4), c_int(2)]), env)));
}
