use vstd::prelude::*;
use crate::data::{AtomErrorView, Env, Value};
use crate::env::{RtView, empty_frame, lemma_bind_parent, all_symbols, frames_wf, lookup};
use crate::eval::{apply_spec, closure_frame, eval_spec, find_amp, form_spec, push_frame, set_spec};

verus! {

/// Integers and nil evaluate to themselves and leave the runtime unchanged.
pub proof fn lemma_self_evaluating(st: RtView, ast: Value, env: Env, fuel: nat)
    requires
        fuel > 0,
        ast is Int || ast is Nil,
    ensures
        eval_spec(st, ast, env, fuel) == (st, Ok::<Value, AtomErrorView>(ast)),
{
}

/// A symbol evaluates to the value of its nearest binding; with none in the
/// whole chain it fails with `UndefinedSymbol`.
pub proof fn lemma_symbol_lookup(st: RtView, name: Seq<char>, env: Env, fuel: nat)
    requires
        fuel > 0,
        env < st.frames.len(),
    ensures
        lookup(st.frames, env as int, name) is None ==> eval_spec(st, Value::Symbol(name), env, fuel)
            == (st, Err::<Value, AtomErrorView>(AtomErrorView::UndefinedSymbol(name))),
        st.frames[env as int].data.contains_key(name) ==> eval_spec(st, Value::Symbol(name), env, fuel)
            == (st, Ok::<Value, AtomErrorView>(st.frames[env as int].data[name])),
        lookup(st.frames, env as int, name) is Some ==> eval_spec(st, Value::Symbol(name), env, fuel)
            == (st, Ok::<Value, AtomErrorView>(lookup(st.frames, env as int, name)->0)),
{
}

/// `(quote x)` yields `x` itself, unevaluated, whatever `x` holds.
pub proof fn lemma_quote(st: RtView, x: Value, env: Env, fuel: nat)
    requires
        fuel > 0,
    ensures
        eval_spec(st, Value::List(seq![Value::Symbol("quote"@), x]), env, fuel) == (st, Ok::<
            Value,
            AtomErrorView,
        >(x)),
{
    assert(seq![Value::Symbol("quote"@), x][1] == x);
}

/// `def` returns nil whenever its value evaluates without error.
pub proof fn lemma_def_returns_nil(st: RtView, name: Seq<char>, rhs: Value, env: Env, fuel: nat)
    requires
        fuel > 0,
        eval_spec(push_frame(st, env), rhs, st.frames.len() as usize, (fuel - 1) as nat).1 is Ok,
    ensures
        eval_spec(st, Value::List(seq![Value::Symbol("def"@), Value::Symbol(name), rhs]), env, fuel).1
            == Ok::<Value, AtomErrorView>(Value::Nil),
{
    let items = seq![Value::Symbol("def"@), Value::Symbol(name), rhs];
    assert(items[1] == Value::Symbol(name));
    assert(items[2] == rhs);
    reveal_strlit("def");
    reveal_strlit("quote");
    assert("def"@.len() != "quote"@.len());
    assert(items[0] != Value::Symbol("quote"@));
}

/// After `(def x n)` the symbol evaluates to `n` in the same environment, and
/// a later `(def x m)` makes it evaluate to `m`.
pub proof fn lemma_def_then_lookup(st: RtView, name: Seq<char>, n: i64, m: i64, env: Env, fuel: nat)
    requires
        fuel > 1,
        env < st.frames.len(),
    ensures
        ({
            let (s1, r1) = eval_spec(
                st,
                Value::List(seq![Value::Symbol("def"@), Value::Symbol(name), Value::Int(n)]),
                env,
                fuel,
            );
            let (s2, r2) = eval_spec(
                s1,
                Value::List(seq![Value::Symbol("def"@), Value::Symbol(name), Value::Int(m)]),
                env,
                fuel,
            );
            &&& r1 == Ok::<Value, AtomErrorView>(Value::Nil)
            &&& eval_spec(s1, Value::Symbol(name), env, fuel).1 == Ok::<Value, AtomErrorView>(Value::Int(n))
            &&& r2 == Ok::<Value, AtomErrorView>(Value::Nil)
            &&& eval_spec(s2, Value::Symbol(name), env, fuel).1 == Ok::<Value, AtomErrorView>(Value::Int(m))
        }),
{
    reveal_strlit("def");
    reveal_strlit("quote");
    let d1 = seq![Value::Symbol("def"@), Value::Symbol(name), Value::Int(n)];
    let d2 = seq![Value::Symbol("def"@), Value::Symbol(name), Value::Int(m)];
    assert("def"@.len() != "quote"@.len());
    assert(d1[0] != Value::Symbol("quote"@));
    assert(d2[0] != Value::Symbol("quote"@));
    assert(d1[1] == Value::Symbol(name) && d1[2] == Value::Int(n));
    assert(d2[1] == Value::Symbol(name) && d2[2] == Value::Int(m));
    let s1 = set_spec(push_frame(st, env), env, name, Value::Int(n));
    let f1 = (fuel - 1) as nat;
    assert(eval_spec(push_frame(st, env), Value::Int(n), st.frames.len() as usize, f1).1 is Ok);
    assert(form_spec(st, d1, env, f1).0 == s1);
    assert(eval_spec(st, Value::List(d1), env, fuel).0 == s1);
    assert(s1.frames[env as int].data.contains_key(name));
    let s2 = set_spec(push_frame(s1, env), env, name, Value::Int(m));
    assert(eval_spec(push_frame(s1, env), Value::Int(m), s1.frames.len() as usize, f1).1 is Ok);
    assert(form_spec(s1, d2, env, f1).0 == s2);
    assert(eval_spec(s1, Value::List(d2), env, fuel).0 == s2);
    assert(s2.frames[env as int].data.contains_key(name));
}

/// `(fn* params body)` builds a closure over the current environment without
/// evaluating anything.
pub proof fn lemma_fn_captures(st: RtView, params: Value, body: Value, env: Env, fuel: nat)
    requires
        fuel > 0,
    ensures
        eval_spec(st, Value::List(seq![Value::Symbol("fn*"@), params, body]), env, fuel) == (st, Ok::<
            Value,
            AtomErrorView,
        >(Value::Closure { exp: Box::new(body), env, params: Box::new(params), is_macro: false })),
{
    reveal_strlit("fn*");
    reveal_strlit("def");
    reveal_strlit("quote");
    let items = seq![Value::Symbol("fn*"@), params, body];
    assert("fn*"@.len() != "quote"@.len());
    assert("fn*"@[0] != "def"@[0]);
    reveal_strlit("print_env");
    assert("fn*"@.len() != "print_env"@.len());
    assert(items[0] != Value::Symbol("print_env"@));
    assert(items[0] != Value::Symbol("quote"@));
    assert(items[0] != Value::Symbol("def"@));
    assert(items[1] == params && items[2] == body);
}

/// A closure reads its free variables when it is called: a symbol that is not
/// one of its parameters resolves, in the frame of the call, to what the
/// captured environment holds at that moment, even if it was rebound after the
/// closure was built.
pub proof fn lemma_closure_sees_rebinding(
    st: RtView,
    env: Env,
    ps: Seq<Value>,
    body: Value,
    args: Seq<Value>,
    name: Seq<char>,
    v: Value,
    fuel: nat,
)
    requires
        frames_wf(st.frames),
        env < st.frames.len(),
        all_symbols(ps),
        !closure_frame(env, ps, args).data.contains_key(name),
    ensures
        ({
            let clo = Value::Closure {
                exp: Box::new(body),
                env,
                params: Box::new(Value::List(ps)),
                is_macro: false,
            };
            let later = set_spec(st, env, name, v);
            let call = RtView {
                frames: later.frames.push(closure_frame(env, ps, args)),
                ..later
            };
            &&& apply_spec(later, clo, args, fuel) == eval_spec(call, body, st.frames.len() as usize, fuel)
            &&& lookup(call.frames, st.frames.len() as int, name) == Some(v)
        }),
{
    let later = set_spec(st, env, name, v);
    let call = RtView {
        frames: later.frames.push(closure_frame(env, ps, args)),
        ..later
    };
    let child = st.frames.len() as int;
    lemma_bind_parent(empty_frame(Some(env)), ps, args, ps.len() as int);
    assert(call.frames[child].parent == Some(env));
    assert(call.frames[env as int] == later.frames[env as int]);
    assert(call.frames[env as int].data.contains_key(name));
    assert(later.frames.len() == st.frames.len());
    assert(lookup(call.frames, env as int, name) == Some(v));
    assert(!call.frames[child].data.contains_key(name));
}

/// With parameters `(a & rest)`, `rest` is bound to nil when only one argument
/// is given and to the list of the extra arguments otherwise.
pub proof fn lemma_variadic_rest(env: Env, a: Seq<char>, rest: Seq<char>, args: Seq<Value>)
    requires
        a != "&"@,
    ensures
        ({
            let m = closure_frame(env, seq![Value::Symbol(a), Value::Symbol("&"@), Value::Symbol(rest)], args).data;
            &&& m.contains_key(rest)
            &&& args.len() <= 1 ==> m[rest] == Value::Nil
            &&& args.len() > 1 ==> m[rest] == Value::List(args.subrange(1, args.len() as int))
        }),
{
    let ps = seq![Value::Symbol(a), Value::Symbol("&"@), Value::Symbol(rest)];
    assert(ps[0] != Value::Symbol("&"@));
    assert(ps[1] == Value::Symbol("&"@));
    assert(find_amp(ps, 0) == 1) by {
        assert(find_amp(ps, 1) == 1);
    }
    assert(ps[2] == Value::Symbol(rest));
}

} // verus!
