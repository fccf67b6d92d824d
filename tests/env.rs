use lispy::data::{c_int, c_symbol};
use lispy::env::{c_env, env_dump, env_get, env_set, Runtime};

#[test]
fn test_c_env() {
    let mut rt = Runtime::new();
    let env = c_env(&mut rt, None);

    assert_eq!(env_dump(&rt, env, false), "{}");
}

#[test]
fn test_set() {
    let mut rt = Runtime::new();
    let env = c_env(&mut rt, None);
    env_set(&mut rt, env, &c_symbol("Test"), c_int(10));
    env_set(&mut rt, env, &c_symbol("Gra"), c_int(5));

    assert_eq!(env_dump(&rt, env, false), "{Gra 5 Test 10}");
}

#[test]
fn test_get() {
    let mut rt = Runtime::new();
    let env = c_env(&mut rt, None);
    let key = c_symbol("Test");
    env_set(&mut rt, env, &key, c_int(10));

    let child = c_env(&mut rt, Some(env));
    env_set(&mut rt, child, &c_symbol("TestChild"), c_int(20));

    let grandchild = c_env(&mut rt, Some(child));

    assert_eq!(env_get(&rt, grandchild, &key).unwrap().format(false), "10");
    assert_eq!(env_get(&rt, grandchild, &c_symbol("TestChild")).unwrap().format(false), "20");
}

#[test]
fn test_get_missing_value() {
    let mut rt = Runtime::new();
    let env = c_env(&mut rt, None);

    assert!(env_get(&rt, env, &c_symbol("Missing")).is_none());
}
