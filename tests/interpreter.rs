use lispy::data::{c_afunc, c_int, c_list, c_macro, c_nil, c_symbol, AtomError, AtomType, Env, HostFn};
use lispy::env::{c_env, env_dump, env_get, env_set, Runtime};
use lispy::eval::{build, eval};

fn sym(s: &str) -> AtomType {
    c_symbol(s)
}

fn num(i: i64) -> AtomType {
    c_int(i)
}

fn list(items: Vec<AtomType>) -> AtomType {
    c_list(items)
}

fn setup() -> (Runtime, Env) {
    let mut rt = Runtime::new();
    let env = build(&mut rt);
    (rt, env)
}

fn run(rt: &mut Runtime, env: Env, ast: AtomType) -> String {
    match eval(rt, &ast, env) {
        Ok(v) => v.format(false),
        Err(e) => format!("{:?}", e),
    }
}

#[test]
fn integers_and_nil_evaluate_to_themselves() {
    let (mut rt, env) = setup();
    assert_eq!(run(&mut rt, env, num(-7)), "-7");
    assert_eq!(run(&mut rt, env, c_nil()), "nil");
    assert_eq!(run(&mut rt, env, list(vec![])), "()");
}

#[test]
fn unbound_symbol_is_undefined() {
    let (mut rt, env) = setup();
    match eval(&mut rt, &sym("nowhere"), env) {
        Err(AtomError::UndefinedSymbol(name)) => assert_eq!(name, "nowhere"),
        other => panic!("unexpected {:?}", other),
    }
}

#[test]
fn symbol_takes_nearest_binding() {
    let (mut rt, env) = setup();
    let child = c_env(&mut rt, Some(env));
    env_set(&mut rt, env, &sym("x"), num(1));
    env_set(&mut rt, child, &sym("x"), num(2));
    assert_eq!(run(&mut rt, child, sym("x")), "2");
    assert_eq!(run(&mut rt, env, sym("x")), "1");
}

#[test]
fn arithmetic_folds() {
    let (mut rt, env) = setup();
    assert_eq!(run(&mut rt, env, list(vec![sym("+")])), "0");
    assert_eq!(run(&mut rt, env, list(vec![sym("*")])), "1");
    assert_eq!(run(&mut rt, env, list(vec![sym("+"), num(1), num(2), num(3)])), "6");
    assert_eq!(run(&mut rt, env, list(vec![sym("-"), num(10), num(1), num(2)])), "7");
    assert_eq!(run(&mut rt, env, list(vec![sym("/"), num(100), num(5), num(2)])), "10");
    assert_eq!(run(&mut rt, env, list(vec![sym("-")])), "0");
    assert_eq!(run(&mut rt, env, list(vec![sym("/")])), "1");
    assert_eq!(run(&mut rt, env, list(vec![sym("*"), num(-3), num(4)])), "-12");
    assert_eq!(run(&mut rt, env, list(vec![sym("/"), num(-7), num(2)])), "-3");
}

#[test]
fn arithmetic_errors() {
    let (mut rt, env) = setup();
    match eval(&mut rt, &list(vec![sym("/"), num(1), num(0)]), env) {
        Err(AtomError::InvalidArgument(m)) => assert_eq!(m, "division by zero"),
        other => panic!("unexpected {:?}", other),
    }
    match eval(&mut rt, &list(vec![sym("+"), num(i64::MAX), num(1)]), env) {
        Err(AtomError::InvalidArgument(m)) => assert_eq!(m, "integer overflow"),
        other => panic!("unexpected {:?}", other),
    }
    match eval(&mut rt, &list(vec![sym("/"), num(i64::MIN), num(-1)]), env) {
        Err(AtomError::InvalidArgument(m)) => assert_eq!(m, "integer overflow"),
        other => panic!("unexpected {:?}", other),
    }
    let quoted = list(vec![sym("quote"), sym("a")]);
    match eval(&mut rt, &list(vec![sym("+"), num(1), quoted]), env) {
        Err(AtomError::InvalidType(expected, got)) => {
            assert_eq!(expected, "Int");
            assert_eq!(got, "Symbol(a)");
        }
        other => panic!("unexpected {:?}", other),
    }
}

fn list_of_123() -> AtomType {
    list(vec![sym("list"), num(1), num(2), num(3)])
}

#[test]
fn list_functions() {
    let (mut rt, env) = setup();
    assert_eq!(run(&mut rt, env, list(vec![sym("count"), list_of_123()])), "3");
    assert_eq!(run(&mut rt, env, list(vec![sym("nth"), list_of_123(), num(5)])), "nil");
    assert_eq!(run(&mut rt, env, list(vec![sym("nth"), list_of_123(), num(1)])), "2");
    assert_eq!(run(&mut rt, env, list(vec![sym("nth"), list_of_123(), num(-1)])), "nil");
    assert_eq!(run(&mut rt, env, list(vec![sym("rest"), list_of_123()])), "(2 3)");
    assert_eq!(run(&mut rt, env, list(vec![sym("rest"), list(vec![sym("list")])])), "()");
    assert_eq!(run(&mut rt, env, list(vec![sym("rest"), num(4)])), "nil");
    assert_eq!(run(&mut rt, env, list(vec![sym("cons"), num(0), list_of_123()])), "(0 1 2 3)");
    assert_eq!(run(&mut rt, env, list(vec![sym("list?"), list_of_123()])), "1");
    assert_eq!(run(&mut rt, env, list(vec![sym("list?"), num(1)])), "nil");
    assert_eq!(run(&mut rt, env, list(vec![sym("nil?"), c_nil()])), "1");
    assert_eq!(run(&mut rt, env, list(vec![sym("nil?"), num(0)])), "nil");
    match eval(&mut rt, &list(vec![sym("count"), num(3)]), env) {
        Err(AtomError::InvalidType(expected, got)) => {
            assert_eq!(expected, "List");
            assert_eq!(got, "Int(3)");
        }
        other => panic!("unexpected {:?}", other),
    }
}

#[test]
fn chained_equality() {
    let (mut rt, env) = setup();
    assert_eq!(run(&mut rt, env, list(vec![sym("="), num(1), num(1), num(1)])), "1");
    assert_eq!(run(&mut rt, env, list(vec![sym("="), num(1), num(1), num(2)])), "nil");
    assert_eq!(run(&mut rt, env, list(vec![sym("=")])), "1");
    assert_eq!(run(&mut rt, env, list(vec![sym("="), list_of_123(), list_of_123()])), "1");
    assert_eq!(run(&mut rt, env, list(vec![sym("="), sym("+"), sym("+")])), "nil");
}

#[test]
fn closure_reads_rebound_variable() {
    let (mut rt, env) = setup();
    run(&mut rt, env, list(vec![sym("def"), sym("x"), num(1)]));
    run(&mut rt, env, list(vec![sym("def"), sym("f"), list(vec![sym("fn*"), list(vec![]), sym("x")])]));
    run(&mut rt, env, list(vec![sym("def"), sym("x"), num(2)]));
    assert_eq!(run(&mut rt, env, list(vec![sym("f")])), "2");
}

#[test]
fn closure_binds_parameters() {
    let (mut rt, env) = setup();
    let add = list(vec![
        sym("fn*"),
        list(vec![sym("a"), sym("b")]),
        list(vec![sym("+"), sym("a"), sym("b")]),
    ]);
    assert_eq!(run(&mut rt, env, list(vec![add, num(2), num(3)])), "5");
    let first_missing = list(vec![sym("fn*"), list(vec![sym("a"), sym("b")]), sym("b")]);
    assert_eq!(run(&mut rt, env, list(vec![first_missing, num(2)])), "nil");
}

#[test]
fn variadic_rest_binding() {
    let (mut rt, env) = setup();
    let f = list(vec![sym("fn*"), list(vec![sym("a"), sym("&"), sym("rest")]), sym("rest")]);
    run(&mut rt, env, list(vec![sym("def"), sym("f"), f]));
    assert_eq!(run(&mut rt, env, list(vec![sym("f"), num(1)])), "nil");
    assert_eq!(run(&mut rt, env, list(vec![sym("f"), num(1), num(2), num(3)])), "(2 3)");
}

#[test]
fn quote_does_not_evaluate() {
    let (mut rt, env) = setup();
    let q = list(vec![sym("quote"), list(vec![sym("undefined-symbol")])]);
    assert_eq!(run(&mut rt, env, q), "(undefined-symbol)");
}

#[test]
fn def_returns_nil_and_rebinds() {
    let (mut rt, env) = setup();
    assert_eq!(run(&mut rt, env, list(vec![sym("def"), sym("x"), num(5)])), "nil");
    assert_eq!(run(&mut rt, env, sym("x")), "5");
    assert_eq!(run(&mut rt, env, list(vec![sym("def"), sym("x"), num(6)])), "nil");
    assert_eq!(run(&mut rt, env, sym("x")), "6");
}

#[test]
fn def_needs_a_symbol() {
    let (mut rt, env) = setup();
    match eval(&mut rt, &list(vec![sym("def"), num(1), num(2)]), env) {
        Err(AtomError::InvalidType(expected, got)) => {
            assert_eq!(expected, "Symbol as name of def");
            assert_eq!(got, "Int(1)");
        }
        other => panic!("unexpected {:?}", other),
    }
}

#[test]
fn closure_parameter_errors() {
    let (mut rt, env) = setup();
    let not_list = list(vec![sym("fn*"), num(1), num(2)]);
    match eval(&mut rt, &list(vec![not_list]), env) {
        Err(AtomError::InvalidType(expected, got)) => {
            assert_eq!(expected, "list");
            assert_eq!(got, "Int(1)");
        }
        other => panic!("unexpected {:?}", other),
    }
    let bad_param = list(vec![sym("fn*"), list(vec![num(1)]), num(2)]);
    match eval(&mut rt, &list(vec![bad_param]), env) {
        Err(AtomError::InvalidArgument(m)) => assert_eq!(m, "parameters must be symbols"),
        other => panic!("unexpected {:?}", other),
    }
}

#[test]
fn not_callable_keeps_operator() {
    let (mut rt, env) = setup();
    match eval(&mut rt, &list(vec![num(1), num(2)]), env) {
        Err(AtomError::InvalidOperation(op)) => assert_eq!(op, "1"),
        other => panic!("unexpected {:?}", other),
    }
}

#[test]
fn runaway_recursion_is_cut_off() {
    let (mut rt, env) = setup();
    let f = list(vec![sym("fn*"), list(vec![]), list(vec![sym("f")])]);
    run(&mut rt, env, list(vec![sym("def"), sym("f"), f]));
    match eval(&mut rt, &list(vec![sym("f")]), env) {
        Err(AtomError::DepthExceeded) => {}
        other => panic!("unexpected {:?}", other),
    }
}

#[test]
fn macro_expands_then_evaluates() {
    let (mut rt, env) = setup();
    let body = sym("form");
    let closure = c_afunc(env, list(vec![sym("form")]), body);
    let mac = match &closure {
        AtomType::AFunc(d) => c_macro(d),
        _ => unreachable!(),
    };
    assert_eq!(mac.format(true), "#macro()");
    env_set(&mut rt, env, &sym("id-macro"), mac);
    let call = list(vec![sym("id-macro"), list(vec![sym("+"), num(1), num(2)])]);
    assert_eq!(run(&mut rt, env, call), "3");
}

#[test]
fn apply_calls_host_and_closures() {
    let (mut rt, env) = setup();
    let plus = env_get(&rt, env, &sym("+")).unwrap();
    assert_eq!(plus.apply(&mut rt, &vec![num(4), num(5)]).unwrap().format(false), "9");
    let closure = c_afunc(env, list(vec![sym("n")]), list(vec![sym("*"), sym("n"), sym("n")]));
    assert_eq!(closure.apply(&mut rt, &vec![num(7)]).unwrap().format(false), "49");
    match num(3).apply(&mut rt, &vec![]) {
        Err(AtomError::InvalidOperation(op)) => assert_eq!(op, "3"),
        other => panic!("unexpected {:?}", other),
    }
}

#[test]
fn printing_writes_output() {
    let (mut rt, env) = setup();
    let r = run(&mut rt, env, list(vec![sym("println"), num(1), list_of_123()]));
    assert_eq!(r, "1");
    assert_eq!(rt.take_output(), "1 (1 2 3)\n");
    run(&mut rt, env, list(vec![sym("_print"), num(-1), c_nil()]));
    assert_eq!(rt.output(), "Int(-1) Nil()");
}

#[test]
fn print_env_dumps_local_frame() {
    let (mut rt, env) = setup();
    let child = c_env(&mut rt, Some(env));
    run(&mut rt, child, list(vec![sym("def"), sym("b"), num(2)]));
    run(&mut rt, child, list(vec![sym("def"), sym("a"), list_of_123()]));
    assert_eq!(run(&mut rt, child, list(vec![sym("print_env")])), "nil");
    assert_eq!(rt.take_output(), "{a List(Int(1) Int(2) Int(3)) b Int(2)}\n");
}

#[test]
fn tagged_formats() {
    let (mut rt, env) = setup();
    assert_eq!(sym("s").format(true), "Symbol(s)");
    assert_eq!(num(-42).format(true), "Int(-42)");
    assert_eq!(num(i64::MIN).format(false), "-9223372036854775808");
    let plus = env_get(&rt, env, &sym("+")).unwrap();
    assert_eq!(plus.format(true), "#func()");
    let f = run(&mut rt, env, list(vec![sym("fn*"), list(vec![]), num(1)]));
    assert_eq!(f, "#builtin_func()");
    assert!(matches!(plus, AtomType::Func(ref g) if g.0 == HostFn::Add));
}

#[test]
fn error_messages() {
    let (mut rt, env) = setup();
    let e = eval(&mut rt, &sym("ghost"), env).unwrap_err();
    assert_eq!(e.message(), "undefined symbol: ghost");
    let e = eval(&mut rt, &list(vec![sym("count"), num(1)]), env).unwrap_err();
    assert_eq!(e.message(), "expected: List, received: Int(1)");
    assert_eq!(AtomError::DepthExceeded.message(), "evaluation nested too deeply");
}

#[test]
fn dump_orders_names_by_text() {
    let mut rt = Runtime::new();
    let env = c_env(&mut rt, None);
    env_set(&mut rt, env, &sym("zeta"), num(1));
    env_set(&mut rt, env, &sym("ab"), num(2));
    env_set(&mut rt, env, &sym("a"), num(3));
    env_set(&mut rt, env, &sym("B"), num(4));
    env_set(&mut rt, env, &sym("ab"), num(5));
    assert_eq!(env_dump(&rt, env, false), "{B 4 a 3 ab 5 zeta 1}");
    assert_eq!(env_dump(&rt, env, true), "{B Int(4) a Int(3) ab Int(5) zeta Int(1)}");
}
