use vstd::prelude::*;
use vstd::string::StringExecFns;
use crate::builtins::{arg_or_nil, call_host, host_output, host_result, safe_get};
use crate::data::{
    AtomError, HostFn, c_func, c_symbol, AtomErrorView, AtomType, Env, Value, c_afunc, c_list, c_nil, copy_from, format_spec,
    lemma_seq_view, mismatch, ret_view, seq_view, type_error,
};
use crate::env::{
    Frame, RtView, Runtime, all_symbols, bind_spec, c_env, dump_spec, empty_frame, env_dump, env_bind, env_get, env_set,
    frame_set, lookup,
};

verus! {

/// How deeply evaluations may nest before `eval` gives up with `DepthExceeded`.
pub const MAX_DEPTH: u64 = 200;

/// `st` with a new empty frame nested in `parent`.
pub open spec fn push_frame(st: RtView, parent: Env) -> RtView {
    RtView { frames: st.frames.push(empty_frame(Some(parent))), ..st }
}

/// `st` with `key` bound to `v` in the frame `env` itself.
pub open spec fn set_spec(st: RtView, env: Env, key: Seq<char>, v: Value) -> RtView {
    RtView {
        frames: st.frames.update(env as int, frame_set(st.frames[env as int], key, v)),
        ..st
    }
}

/// The position of the first `&` marker at or after `i`, or -1.
pub open spec fn find_amp(ps: Seq<Value>, i: int) -> int
    decreases ps.len() - i,
{
    if i < 0 || i >= ps.len() {
        -1
    } else if ps[i] == Value::Symbol("&"@) {
        i
    } else {
        find_amp(ps, i + 1)
    }
}

/// The frame a closure's body runs in, nested in the captured `env`: each
/// parameter bound positionally, then the symbol after `&` bound to the
/// trailing arguments (a list when there are some, nil when there are none).
pub open spec fn closure_frame(env: Env, ps: Seq<Value>, args: Seq<Value>) -> Frame {
    let m = bind_spec(empty_frame(Some(env)), ps, args, ps.len() as int);
    let k = find_amp(ps, 0);
    if 0 <= k && k + 1 < ps.len() {
        frame_set(
            m,
            ps[k + 1]->Symbol_0,
            if k < args.len() {
                Value::List(args.subrange(k, args.len() as int))
            } else {
                Value::Nil
            },
        )
    } else {
        m
    }
}

/// Prefixes the values already evaluated to the outcome of evaluating the rest.
pub open spec fn glue(done: Seq<Value>, p: (RtView, Result<Seq<Value>, AtomErrorView>)) -> (
    RtView,
    Result<Seq<Value>, AtomErrorView>,
) {
    (
        p.0,
        match p.1 {
            Ok(vs) => Ok(done + vs),
            Err(e) => Err(e),
        },
    )
}

/// Evaluating `ast` in `env` with `fuel` levels of nesting left: the state
/// afterwards and the value or error.
pub open spec fn eval_spec(st: RtView, ast: Value, env: Env, fuel: nat) -> (
    RtView,
    Result<Value, AtomErrorView>,
)
    decreases fuel, 0int, 0int,
{
    if fuel == 0 {
        (st, Err(AtomErrorView::DepthExceeded))
    } else {
        match ast {
            Value::Symbol(name) => match lookup(st.frames, env as int, name) {
                Some(v) => (st, Ok(v)),
                None => (st, Err(AtomErrorView::UndefinedSymbol(name))),
            },
            Value::List(items) => if items.len() == 0 {
                (st, Ok(ast))
            } else {
                form_spec(st, items, env, (fuel - 1) as nat)
            },
            _ => (st, Ok(ast)),
        }
    }
}

/// Evaluating a non-empty list: a special form, a macro call or an application.
pub open spec fn form_spec(st: RtView, items: Seq<Value>, env: Env, fuel: nat) -> (
    RtView,
    Result<Value, AtomErrorView>,
)
    decreases fuel, 3int, 0int,
{
    let head = items[0];
    if head == Value::Symbol("quote"@) {
        (st, Ok(arg_or_nil(items, 1)))
    } else if head == Value::Symbol("def"@) {
        match arg_or_nil(items, 1) {
            Value::Symbol(name) => {
                let child = st.frames.len() as usize;
                let (s1, r) = eval_spec(push_frame(st, env), arg_or_nil(items, 2), child, fuel);
                match r {
                    Ok(v) => (set_spec(s1, env, name, v), Ok(Value::Nil)),
                    Err(e) => (s1, Err(e)),
                }
            },
            other => (st, Err(mismatch("Symbol as name of def"@, other))),
        }
    } else if head == Value::Symbol("print_env"@) {
        (RtView { out: st.out + dump_spec(st.frames[env as int], true) + "\n"@, ..st }, Ok(Value::Nil))
    } else if head == Value::Symbol("fn*"@) {
        (
            st,
            Ok(
                Value::Closure {
                    exp: Box::new(arg_or_nil(items, 2)),
                    env,
                    params: Box::new(arg_or_nil(items, 1)),
                    is_macro: false,
                },
            ),
        )
    } else {
        let (s1, h) = eval_spec(st, head, env, fuel);
        match h {
            Err(e) => (s1, Err(e)),
            Ok(f) => if f is Closure && f->is_macro {
                let (s2, x) = apply_spec(s1, f, items.subrange(1, items.len() as int), fuel);
                match x {
                    Ok(expansion) => eval_spec(s2, expansion, env, fuel),
                    Err(e) => (s2, Err(e)),
                }
            } else {
                let (s2, rs) = each_spec(s1, items, 1, env, fuel);
                match rs {
                    Err(e) => (s2, Err(e)),
                    Ok(vals) => if f is Func || f is Closure {
                        apply_spec(s2, f, vals, fuel)
                    } else {
                        (s2, Err(AtomErrorView::InvalidOperation(format_spec(head, false))))
                    },
                }
            },
        }
    }
}

/// Evaluating the items from position `i` on, left to right, stopping at
/// the first error.
pub open spec fn each_spec(st: RtView, items: Seq<Value>, i: int, env: Env, fuel: nat) -> (
    RtView,
    Result<Seq<Value>, AtomErrorView>,
)
    decreases fuel, 1int, items.len() - i,
{
    if i < 0 || i >= items.len() {
        (st, Ok(Seq::empty()))
    } else {
        let (s1, r) = eval_spec(st, items[i], env, fuel);
        match r {
            Err(e) => (s1, Err(e)),
            Ok(v) => glue(seq![v], each_spec(s1, items, i + 1, env, fuel)),
        }
    }
}

/// Applying `f` to already evaluated (or, for a macro, raw) arguments.
pub open spec fn apply_spec(st: RtView, f: Value, args: Seq<Value>, fuel: nat) -> (
    RtView,
    Result<Value, AtomErrorView>,
)
    decreases fuel, 2int, 0int,
{
    match f {
        Value::Func(h) => (RtView { out: st.out + host_output(h, args), ..st }, host_result(h, args)),
        Value::Closure { exp, env, params, is_macro } => if env >= st.frames.len() {
            (st, Err(AtomErrorView::InvalidArgument("closure environment is gone"@)))
        } else {
            match *params {
                Value::List(ps) => if !all_symbols(ps) {
                    (st, Err(AtomErrorView::InvalidArgument("parameters must be symbols"@)))
                } else {
                    let child = st.frames.len() as usize;
                    let s1 = RtView {
                        frames: st.frames.push(closure_frame(env, ps, args)),
                        ..st
                    };
                    eval_spec(s1, *exp, child, fuel)
                },
                other => (st, Err(mismatch("list"@, other))),
            }
        },
        _ => (st, Err(AtomErrorView::InvalidOperation(format_spec(f, false)))),
    }
}

/// The evaluated values, seen through the models.
pub open spec fn vals_view(r: Result<Vec<AtomType>, AtomError>) -> Result<Seq<Value>, AtomErrorView> {
    match r {
        Ok(v) => Ok(seq_view(v@)),
        Err(e) => Err(e@),
    }
}

/// Evaluates `ast` in `env` with at most `fuel` levels of nesting.
fn eval_fuel(rt: &mut Runtime, ast: &AtomType, env: Env, fuel: u64) -> (r: Result<AtomType, AtomError>)
    requires
        old(rt).wf(),
        env < old(rt)@.frames.len(),
    ensures
        final(rt).wf(),
        final(rt)@.frames.len() >= old(rt)@.frames.len(),
        (final(rt)@, ret_view(r)) == eval_spec(old(rt)@, ast@, env, fuel as nat),
    decreases fuel, 0int, 0int,
{
    if fuel == 0 {
        return Err(AtomError::DepthExceeded);
    }
    match ast {
        AtomType::Symbol(name) => match env_get(rt, env, ast) {
            Some(v) => Ok(v),
            None => Err(AtomError::UndefinedSymbol(name.clone())),
        },
        AtomType::List(items) => {
            proof {
                lemma_seq_view(items@);
            }
            if items.len() == 0 {
                Ok(ast.copy())
            } else {
                eval_form(rt, items, env, fuel - 1)
            }
        },
        _ => Ok(ast.copy()),
    }
}

/// Evaluates a non-empty list: special forms first, then a macro call or an
/// application whose operator and arguments are evaluated left to right.
fn eval_form(rt: &mut Runtime, items: &Vec<AtomType>, env: Env, fuel: u64) -> (r: Result<AtomType, AtomError>)
    requires
        old(rt).wf(),
        env < old(rt)@.frames.len(),
        items.len() > 0,
    ensures
        final(rt).wf(),
        final(rt)@.frames.len() >= old(rt)@.frames.len(),
        (final(rt)@, ret_view(r)) == form_spec(old(rt)@, seq_view(items@), env, fuel as nat),
    decreases fuel, 3int, 0int,
{
    proof {
        lemma_seq_view(items@);
    }
    let head = &items[0];
    if head.is_symbol("quote") {
        return Ok(safe_get(items, 1));
    }
    if head.is_symbol("def") {
        let name = safe_get(items, 1);
        match name {
            AtomType::Symbol(_) => {
                let child = c_env(rt, Some(env));
                let rhs = safe_get(items, 2);
                match eval_fuel(rt, &rhs, child, fuel) {
                    Ok(value) => {
                        env_set(rt, env, &name, value);
                        return Ok(c_nil());
                    },
                    Err(e) => {
                        return Err(e);
                    },
                }
            },
            _ => {
                return Err(type_error("Symbol as name of def", &name));
            },
        }
    }
    if head.is_symbol("print_env") {
        let dump = env_dump(rt, env, true);
        rt.write(dump.as_str());
        rt.write("\n");
        proof {
            assert(rt@.out =~= old(rt)@.out + dump_spec(old(rt)@.frames[env as int], true) + "\n"@);
        }
        return Ok(c_nil());
    }
    if head.is_symbol("fn*") {
        return Ok(c_afunc(env, safe_get(items, 1), safe_get(items, 2)));
    }
    let f = match eval_fuel(rt, head, env, fuel) {
        Ok(f) => f,
        Err(e) => {
            return Err(e);
        },
    };
    let is_macro = match &f {
        AtomType::AFunc(d) => d.is_macro,
        _ => false,
    };
    if is_macro {
        let raw = copy_from(items, 1);
        let expansion = match apply_fuel(rt, &f, &raw, fuel) {
            Ok(x) => x,
            Err(e) => {
                return Err(e);
            },
        };
        return eval_fuel(rt, &expansion, env, fuel);
    }
    let vals = match eval_each(rt, items, 1, env, fuel) {
        Ok(vals) => vals,
        Err(e) => {
            return Err(e);
        },
    };
    match f {
        AtomType::Func(_) | AtomType::AFunc(_) => apply_fuel(rt, &f, &vals, fuel),
        _ => Err(AtomError::InvalidOperation(head.format(false))),
    }
}

/// Evaluates the items from position `start` on, left to right, stopping at
/// the first error.
fn eval_each(rt: &mut Runtime, items: &Vec<AtomType>, start: usize, env: Env, fuel: u64) -> (r: Result<
    Vec<AtomType>,
    AtomError,
>)
    requires
        old(rt).wf(),
        env < old(rt)@.frames.len(),
        start <= items.len(),
    ensures
        final(rt).wf(),
        final(rt)@.frames.len() >= old(rt)@.frames.len(),
        (final(rt)@, vals_view(r)) == each_spec(old(rt)@, seq_view(items@), start as int, env, fuel as nat),
    decreases fuel, 1int, 0int,
{
    proof {
        lemma_seq_view(items@);
    }
    let ghost s = seq_view(items@);
    let mut out: Vec<AtomType> = Vec::new();
    let mut i: usize = start;
    proof {
        lemma_seq_view(out@);
        assert(seq_view(out@) + each_spec(rt@, s, i as int, env, fuel as nat).1->Ok_0
            =~= each_spec(rt@, s, i as int, env, fuel as nat).1->Ok_0);
        assert(glue(seq_view(out@), each_spec(rt@, s, i as int, env, fuel as nat))
            == each_spec(rt@, s, i as int, env, fuel as nat));
    }
    while i < items.len()
        invariant
            rt.wf(),
            env < rt@.frames.len(),
            rt@.frames.len() >= old(rt)@.frames.len(),
            start <= i <= items.len(),
            s == seq_view(items@),
            s.len() == items.len(),
            forall|k: int| 0 <= k < items.len() ==> #[trigger] s[k] == items@[k]@,
            each_spec(old(rt)@, s, start as int, env, fuel as nat) == glue(
                seq_view(out@),
                each_spec(rt@, s, i as int, env, fuel as nat),
            ),
        decreases items.len() - i,
    {
        match eval_fuel(rt, &items[i], env, fuel) {
            Ok(v) => {
                proof {
                    lemma_seq_view(out@);
                }
                let ghost done = seq_view(out@);
                let ghost old_out = out@;
                out.push(v);
                proof {
                    lemma_seq_view(out@);
                    assert forall|k: int| 0 <= k < out.len() implies seq_view(out@)[k] == done.push(v@)[k] by {
                        if k < out.len() - 1 {
                            assert(out@[k] == old_out[k]);
                        }
                    }
                    assert(seq_view(out@) =~= done.push(v@));
                    let p = each_spec(rt@, s, i + 1, env, fuel as nat);
                    match p.1 {
                        Ok(vs) => {
                            assert(done + (seq![v@] + vs) =~= done.push(v@) + vs);
                        },
                        Err(_) => {},
                    }
                }
                i = i + 1;
            },
            Err(e) => {
                return Err(e);
            },
        }
    }
    proof {
        assert(seq_view(out@) + Seq::<Value>::empty() =~= seq_view(out@));
    }
    Ok(out)
}

/// The first position of the `&` marker among the parameters.
fn amp_position(ps: &Vec<AtomType>) -> (r: Option<usize>)
    ensures
        match r {
            Some(k) => k < ps.len() && k as int == find_amp(seq_view(ps@), 0),
            None => find_amp(seq_view(ps@), 0) == -1,
        },
{
    proof {
        lemma_seq_view(ps@);
    }
    let mut i: usize = 0;
    while i < ps.len()
        invariant
            i <= ps.len(),
            seq_view(ps@).len() == ps.len(),
            forall|k: int| 0 <= k < ps.len() ==> #[trigger] seq_view(ps@)[k] == ps@[k]@,
            find_amp(seq_view(ps@), 0) == find_amp(seq_view(ps@), i as int),
        decreases ps.len() - i,
    {
        if ps[i].is_symbol("&") {
            return Some(i);
        }
        i = i + 1;
    }
    None
}

/// Calls `f` on `args` with at most `fuel` levels of nesting left.
fn apply_fuel(rt: &mut Runtime, f: &AtomType, args: &Vec<AtomType>, fuel: u64) -> (r: Result<AtomType, AtomError>)
    requires
        old(rt).wf(),
    ensures
        final(rt).wf(),
        final(rt)@.frames.len() >= old(rt)@.frames.len(),
        (final(rt)@, ret_view(r)) == apply_spec(old(rt)@, f@, seq_view(args@), fuel as nat),
    decreases fuel, 2int, 0int,
{
    match f {
        AtomType::Func(h) => {
            let r = call_host(rt, h.0, args);
            proof {
                assert(f@ == Value::Func(h.0));
            }
            r
        },
        AtomType::AFunc(d) => {
            if d.env >= rt.frame_count() {
                return Err(AtomError::InvalidArgument(String::from_str("closure environment is gone")));
            }
            match &*d.params {
                AtomType::List(ps) => {
                    proof {
                        lemma_seq_view(ps@);
                        lemma_seq_view(args@);
                    }
                    let mut i: usize = 0;
                    while i < ps.len()
                        invariant
                            rt.wf(),
                            rt@ == old(rt)@,
                            *f == AtomType::AFunc(*d),
                            *d.params == AtomType::List(*ps),
                            d.env < rt@.frames.len(),
                            i <= ps.len(),
                            seq_view(ps@).len() == ps.len(),
                            forall|k: int| 0 <= k < ps.len() ==> #[trigger] seq_view(ps@)[k] == ps@[k]@,
                            forall|k: int| 0 <= k < i ==> (#[trigger] seq_view(ps@)[k]) is Symbol,
                        decreases ps.len() - i,
                    {
                        match &ps[i] {
                            AtomType::Symbol(_) => {},
                            _ => {
                                proof {
                                    assert(!(seq_view(ps@)[i as int] is Symbol));
                                    assert(!all_symbols(seq_view(ps@)));
                                    assert(d.params@ == Value::List(seq_view(ps@)));
                                }
                                return Err(AtomError::InvalidArgument(String::from_str("parameters must be symbols")));
                            },
                        }
                        i = i + 1;
                    }
                    let ghost st = rt@;
                    let child = c_env(rt, Some(d.env));
                    env_bind(rt, child, ps, args);
                    match amp_position(ps) {
                        Some(k) => {
                            if k + 1 < ps.len() {
                                let rest = if k < args.len() {
                                    c_list(copy_from(args, k))
                                } else {
                                    c_nil()
                                };
                                env_set(rt, child, &ps[k + 1], rest);
                            }
                        },
                        None => {},
                    }
                    proof {
                        assert(rt@.frames =~= st.frames.push(
                            closure_frame(d.env, seq_view(ps@), seq_view(args@)),
                        ));
                        assert(rt@ == (RtView {
                            frames: st.frames.push(closure_frame(d.env, seq_view(ps@), seq_view(args@))),
                            ..st
                        }));
                        assert(child == st.frames.len());
                    }
                    let ghost setup = rt@;
                    proof {
                        assert(all_symbols(seq_view(ps@)));
                        assert(*f == AtomType::AFunc(*d));
                        assert(*d.params == AtomType::List(*ps));
                        assert(d.params@ == Value::List(seq_view(ps@)));
                        assert(f@->params == Box::new(Value::List(seq_view(ps@))));
                        assert(apply_spec(old(rt)@, f@, seq_view(args@), fuel as nat) == eval_spec(
                            setup,
                            d.exp@,
                            child,
                            fuel as nat,
                        ));
                    }
                    eval_fuel(rt, &d.exp, child, fuel)
                },
                other => Err(type_error("list", other)),
            }
        },
        _ => Err(AtomError::InvalidOperation(f.format(false))),
    }
}

/// The global frame: the host functions, by name, in this order.
pub open spec fn host_frame() -> Frame {
    let f = empty_frame(None);
    let f = frame_set(f, "print"@, Value::Func(HostFn::Print));
    let f = frame_set(f, "println"@, Value::Func(HostFn::Println));
    let f = frame_set(f, "_print"@, Value::Func(HostFn::PrintTagged));
    let f = frame_set(f, "_println"@, Value::Func(HostFn::PrintlnTagged));
    let f = frame_set(f, "+"@, Value::Func(HostFn::Add));
    let f = frame_set(f, "-"@, Value::Func(HostFn::Sub));
    let f = frame_set(f, "*"@, Value::Func(HostFn::Mul));
    let f = frame_set(f, "/"@, Value::Func(HostFn::Div));
    let f = frame_set(f, "cons"@, Value::Func(HostFn::Cons));
    let f = frame_set(f, "list"@, Value::Func(HostFn::List));
    let f = frame_set(f, "list?"@, Value::Func(HostFn::IsList));
    let f = frame_set(f, "nil?"@, Value::Func(HostFn::IsNil));
    let f = frame_set(f, "nth"@, Value::Func(HostFn::Nth));
    let f = frame_set(f, "rest"@, Value::Func(HostFn::Rest));
    let f = frame_set(f, "count"@, Value::Func(HostFn::Count));
    let f = frame_set(f, "="@, Value::Func(HostFn::Equal));
    f
}

/// Evaluates `ast` in `env`.
pub fn eval(rt: &mut Runtime, ast: &AtomType, env: Env) -> (r: Result<AtomType, AtomError>)
    requires
        old(rt).wf(),
        env < old(rt)@.frames.len(),
    ensures
        final(rt).wf(),
        final(rt)@.frames.len() >= old(rt)@.frames.len(),
        (final(rt)@, ret_view(r)) == eval_spec(old(rt)@, ast@, env, MAX_DEPTH as nat),
{
    eval_fuel(rt, ast, env, MAX_DEPTH)
}

impl AtomType {
    /// Calls this value with `args`: a host function directly, a closure by
    /// evaluating its body in a new frame holding the bound parameters.
    pub fn apply(&self, rt: &mut Runtime, args: &Vec<AtomType>) -> (r: Result<AtomType, AtomError>)
        requires
            old(rt).wf(),
        ensures
            final(rt).wf(),
            final(rt)@.frames.len() >= old(rt)@.frames.len(),
            (final(rt)@, ret_view(r)) == apply_spec(old(rt)@, self@, seq_view(args@), MAX_DEPTH as nat),
    {
        apply_fuel(rt, self, args, MAX_DEPTH)
    }
}

/// Creates the global environment: a root frame holding the host functions.
pub fn build(rt: &mut Runtime) -> (r: Env)
    requires
        old(rt).wf(),
    ensures
        final(rt).wf(),
        r == old(rt)@.frames.len(),
        final(rt)@.frames == old(rt)@.frames.push(host_frame()),
        final(rt)@.out == old(rt)@.out,
{
    let env = c_env(rt, None);
    env_set(rt, env, &c_symbol("print"), c_func(HostFn::Print));
    env_set(rt, env, &c_symbol("println"), c_func(HostFn::Println));
    env_set(rt, env, &c_symbol("_print"), c_func(HostFn::PrintTagged));
    env_set(rt, env, &c_symbol("_println"), c_func(HostFn::PrintlnTagged));
    env_set(rt, env, &c_symbol("+"), c_func(HostFn::Add));
    env_set(rt, env, &c_symbol("-"), c_func(HostFn::Sub));
    env_set(rt, env, &c_symbol("*"), c_func(HostFn::Mul));
    env_set(rt, env, &c_symbol("/"), c_func(HostFn::Div));
    env_set(rt, env, &c_symbol("cons"), c_func(HostFn::Cons));
    env_set(rt, env, &c_symbol("list"), c_func(HostFn::List));
    env_set(rt, env, &c_symbol("list?"), c_func(HostFn::IsList));
    env_set(rt, env, &c_symbol("nil?"), c_func(HostFn::IsNil));
    env_set(rt, env, &c_symbol("nth"), c_func(HostFn::Nth));
    env_set(rt, env, &c_symbol("rest"), c_func(HostFn::Rest));
    env_set(rt, env, &c_symbol("count"), c_func(HostFn::Count));
    env_set(rt, env, &c_symbol("="), c_func(HostFn::Equal));
    proof {
        assert(rt@.frames =~= old(rt)@.frames.push(host_frame()));
    }
    env
}

} // verus!
