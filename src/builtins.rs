use vstd::prelude::*;
use vstd::string::StringExecFns;
use crate::data::{
    AtomError, AtomErrorView, AtomFn, AtomType, HostFn, Value, atom_eq, c_int, c_list, c_nil,
    copy_from, join_spec, lemma_seq_view, mismatch, ret_view, seq_view, type_error,
};
use crate::env::{Runtime, RtView};

verus! {

/// The `i`-th argument, or nil where there is none.
pub open spec fn arg_or_nil(args: Seq<Value>, i: int) -> Value {
    if 0 <= i < args.len() {
        args[i]
    } else {
        Value::Nil
    }
}

/// One step of an arithmetic fold; `None` where `i64` cannot hold the result
/// or the divisor is zero.
pub open spec fn step_spec(f: HostFn, a: i64, b: i64) -> Option<i64> {
    match f {
        HostFn::Add => a.checked_add(b),
        HostFn::Sub => a.checked_sub(b),
        HostFn::Mul => a.checked_mul(b),
        _ => a.checked_div(b),
    }
}

/// The error of a failed arithmetic step.
pub open spec fn step_error(f: HostFn, b: i64) -> AtomErrorView {
    if f == HostFn::Div && b == 0 {
        AtomErrorView::InvalidArgument("division by zero"@)
    } else {
        AtomErrorView::InvalidArgument("integer overflow"@)
    }
}

/// The left fold of the first `n` arguments (`n >= 1`).
pub open spec fn fold_spec(f: HostFn, args: Seq<Value>, n: int) -> Result<i64, AtomErrorView>
    decreases n,
{
    if n <= 1 {
        match args[0] {
            Value::Int(x) => Ok(x),
            other => Err(mismatch("Int"@, other)),
        }
    } else {
        match fold_spec(f, args, n - 1) {
            Err(e) => Err(e),
            Ok(acc) => match args[n - 1] {
                Value::Int(x) => match step_spec(f, acc, x) {
                    Some(r) => Ok(r),
                    None => Err(step_error(f, x)),
                },
                other => Err(mismatch("Int"@, other)),
            },
        }
    }
}

/// An arithmetic host function: the identity on no arguments, else the fold.
pub open spec fn arith_spec(f: HostFn, args: Seq<Value>) -> Result<Value, AtomErrorView> {
    if args.len() == 0 {
        Ok(Value::Int(if f == HostFn::Add || f == HostFn::Sub { 0 } else { 1 }))
    } else {
        match fold_spec(f, args, args.len() as int) {
            Ok(r) => Ok(Value::Int(r)),
            Err(e) => Err(e),
        }
    }
}

/// Each argument equals the next one.
pub open spec fn chain_eq(args: Seq<Value>) -> bool {
    forall|i: int| 0 <= i < args.len() - 1 ==> #[trigger] atom_eq(args[i], args[i + 1])
}

/// `Int(1)` for true, nil for false.
pub open spec fn truth(b: bool) -> Value {
    if b {
        Value::Int(1)
    } else {
        Value::Nil
    }
}

/// What a host function returns.
pub open spec fn host_result(f: HostFn, args: Seq<Value>) -> Result<Value, AtomErrorView> {
    match f {
        HostFn::Add | HostFn::Sub | HostFn::Mul | HostFn::Div => arith_spec(f, args),
        HostFn::Cons => match arg_or_nil(args, 1) {
            Value::List(items) => Ok(Value::List(seq![arg_or_nil(args, 0)] + items)),
            other => Err(mismatch("List"@, other)),
        },
        HostFn::List => Ok(Value::List(args)),
        HostFn::IsList => Ok(truth(arg_or_nil(args, 0) is List)),
        HostFn::IsNil => Ok(truth(arg_or_nil(args, 0) is Nil)),
        HostFn::Count => match arg_or_nil(args, 0) {
            Value::List(items) => Ok(Value::Int(items.len() as i64)),
            other => Err(mismatch("List"@, other)),
        },
        HostFn::Nth => match arg_or_nil(args, 0) {
            Value::List(items) => Ok(
                match arg_or_nil(args, 1) {
                    Value::Int(n) => arg_or_nil(items, n as int),
                    _ => Value::Nil,
                },
            ),
            other => Err(mismatch("List"@, other)),
        },
        HostFn::Rest => match arg_or_nil(args, 0) {
            Value::List(items) => Ok(Value::List(if items.len() > 0 { items.drop_first() } else { items })),
            _ => Ok(Value::Nil),
        },
        HostFn::Equal => Ok(truth(chain_eq(args))),
        _ => Ok(arg_or_nil(args, 0)),
    }
}

/// What a host function writes to the console.
pub open spec fn host_output(f: HostFn, args: Seq<Value>) -> Seq<char> {
    match f {
        HostFn::Print => join_spec(args, args.len() as int, false),
        HostFn::Println => join_spec(args, args.len() as int, false) + "\n"@,
        HostFn::PrintTagged => join_spec(args, args.len() as int, true),
        HostFn::PrintlnTagged => join_spec(args, args.len() as int, true) + "\n"@,
        _ => Seq::empty(),
    }
}

pub(crate) fn safe_get(args: &Vec<AtomType>, index: usize) -> (r: AtomType)
    ensures
        r@ == arg_or_nil(seq_view(args@), index as int),
{
    proof {
        lemma_seq_view(args@);
    }
    if index < args.len() {
        args[index].copy()
    } else {
        c_nil()
    }
}

fn int_fold_op(f: HostFn, empty: i64, args: &Vec<AtomType>) -> (r: Result<AtomType, AtomError>)
    requires
        f == HostFn::Add || f == HostFn::Sub || f == HostFn::Mul || f == HostFn::Div,
        empty == (if f == HostFn::Add || f == HostFn::Sub { 0i64 } else { 1i64 }),
    ensures
        ret_view(r) == arith_spec(f, seq_view(args@)),
{
    proof {
        lemma_seq_view(args@);
    }
    let ghost s = seq_view(args@);
    if args.len() == 0 {
        return Ok(c_int(empty));
    }
    let mut acc = match args[0].get_int() {
        Ok(x) => x,
        Err(e) => {
            proof {
                lemma_fold_err(f, s, 1, s.len() as int);
            }
            return Err(e);
        },
    };
    let mut i: usize = 1;
    while i < args.len()
        invariant
            1 <= i <= args.len(),
            s == seq_view(args@),
            s.len() == args.len(),
            forall|k: int| 0 <= k < args.len() ==> #[trigger] s[k] == args@[k]@,
            fold_spec(f, s, i as int) == Ok::<i64, AtomErrorView>(acc),
        decreases args.len() - i,
    {
        let x = match args[i].get_int() {
            Ok(x) => x,
            Err(e) => {
                proof {
                    assert(fold_spec(f, s, i + 1) == Err::<i64, AtomErrorView>(e@));
                    lemma_fold_err(f, s, i + 1, s.len() as int);
                }
                return Err(e);
            },
        };
        let step = match f {
            HostFn::Add => acc.checked_add(x),
            HostFn::Sub => acc.checked_sub(x),
            HostFn::Mul => acc.checked_mul(x),
            _ => acc.checked_div(x),
        };
        match step {
            Some(v) => {
                acc = v;
            },
            None => {
                let e = if x == 0 && f == HostFn::Div {
                    AtomError::InvalidArgument(String::from_str("division by zero"))
                } else {
                    AtomError::InvalidArgument(String::from_str("integer overflow"))
                };
                proof {
                    reveal_strlit("division by zero");
                    reveal_strlit("integer overflow");
                    assert(fold_spec(f, s, i + 1) == Err::<i64, AtomErrorView>(e@));
                    lemma_fold_err(f, s, i + 1, s.len() as int);
                }
                return Err(e);
            },
        }
        i = i + 1;
    }
    Ok(c_int(acc))
}

/// Once the fold fails, the fold of a longer prefix fails the same way.
proof fn lemma_fold_err(f: HostFn, s: Seq<Value>, i: int, n: int)
    requires
        1 <= i <= n,
        fold_spec(f, s, i) is Err,
    ensures
        fold_spec(f, s, n) == fold_spec(f, s, i),
    decreases n - i,
{
    if i < n {
        lemma_fold_err(f, s, i, n - 1);
    }
}

fn cons(args: &Vec<AtomType>) -> (r: Result<AtomType, AtomError>)
    ensures
        ret_view(r) == host_result(HostFn::Cons, seq_view(args@)),
{
    let head = safe_get(args, 0);
    let tail = safe_get(args, 1);
    let items = match tail.get_list() {
        Ok(items) => items,
        Err(e) => return Err(e),
    };
    let mut list: Vec<AtomType> = Vec::new();
    list.push(head);
    proof {
        lemma_seq_view(items@);
    }
    let mut i: usize = 0;
    while i < items.len()
        invariant
            i <= items.len(),
            list.len() == i + 1,
            list@[0]@ == arg_or_nil(seq_view(args@), 0),
            seq_view(items@).len() == items.len(),
            forall|k: int| 0 <= k < items.len() ==> #[trigger] seq_view(items@)[k] == items@[k]@,
            forall|k: int| 0 <= k < i ==> #[trigger] list@[k + 1]@ == items@[k]@,
        decreases items.len() - i,
    {
        list.push(items[i].copy());
        i = i + 1;
    }
    proof {
        lemma_seq_view(list@);
        assert(seq_view(list@) =~= seq![arg_or_nil(seq_view(args@), 0)] + seq_view(items@)) by {
            assert forall|k: int| 1 <= k < list.len() implies seq_view(list@)[k] == seq_view(items@)[k - 1] by {
                assert(list@[(k - 1) + 1]@ == items@[k - 1]@);
            }
        }
    }
    Ok(c_list(list))
}

fn list(args: &Vec<AtomType>) -> (r: Result<AtomType, AtomError>)
    ensures
        ret_view(r) == host_result(HostFn::List, seq_view(args@)),
{
    let items = copy_from(args, 0);
    proof {
        lemma_seq_view(args@);
        assert(seq_view(args@).subrange(0, args@.len() as int) =~= seq_view(args@));
    }
    Ok(c_list(items))
}

fn is_list(args: &Vec<AtomType>) -> (r: Result<AtomType, AtomError>)
    ensures
        ret_view(r) == host_result(HostFn::IsList, seq_view(args@)),
{
    match safe_get(args, 0) {
        AtomType::List(_) => Ok(c_int(1)),
        _ => Ok(c_nil()),
    }
}

fn is_nil(args: &Vec<AtomType>) -> (r: Result<AtomType, AtomError>)
    ensures
        ret_view(r) == host_result(HostFn::IsNil, seq_view(args@)),
{
    match safe_get(args, 0) {
        AtomType::Nil => Ok(c_int(1)),
        _ => Ok(c_nil()),
    }
}

fn count(args: &Vec<AtomType>) -> (r: Result<AtomType, AtomError>)
    ensures
        ret_view(r) == host_result(HostFn::Count, seq_view(args@)),
{
    let a = safe_get(args, 0);
    match a.get_list() {
        Ok(items) => {
            proof {
                lemma_seq_view(items@);
            }
            Ok(c_int(items.len() as i64))
        },
        Err(e) => Err(e),
    }
}

fn nth(args: &Vec<AtomType>) -> (r: Result<AtomType, AtomError>)
    ensures
        ret_view(r) == host_result(HostFn::Nth, seq_view(args@)),
{
    let a = safe_get(args, 0);
    let index = safe_get(args, 1);
    match a.get_list() {
        Ok(items) => {
            proof {
                lemma_seq_view(items@);
            }
            match index {
                AtomType::Int(n) => {
                    if 0 <= n && (n as u64) < (items.len() as u64) {
                        Ok(items[n as usize].copy())
                    } else {
                        Ok(c_nil())
                    }
                },
                _ => Ok(c_nil()),
            }
        },
        Err(e) => Err(e),
    }
}

fn rest(args: &Vec<AtomType>) -> (r: Result<AtomType, AtomError>)
    ensures
        ret_view(r) == host_result(HostFn::Rest, seq_view(args@)),
{
    let a = safe_get(args, 0);
    match a.get_list() {
        Ok(items) => {
            proof {
                lemma_seq_view(items@);
            }
            if items.len() > 0 {
                let tail = copy_from(items, 1);
                proof {
                    assert(seq_view(items@).subrange(1, items@.len() as int) =~= seq_view(items@).drop_first());
                }
                Ok(c_list(tail))
            } else {
                let empty: Vec<AtomType> = Vec::new();
                proof {
                    lemma_seq_view(empty@);
                    assert(seq_view(empty@) =~= seq_view(items@));
                }
                Ok(c_list(empty))
            }
        },
        Err(_) => Ok(c_nil()),
    }
}

fn partialeq(args: &Vec<AtomType>) -> (r: Result<AtomType, AtomError>)
    ensures
        ret_view(r) == host_result(HostFn::Equal, seq_view(args@)),
{
    proof {
        lemma_seq_view(args@);
    }
    let ghost s = seq_view(args@);
    let mut same = true;
    let mut i: usize = 0;
    while i < args.len() && i + 1 < args.len()
        invariant
            s == seq_view(args@),
            s.len() == args.len(),
            forall|k: int| 0 <= k < args.len() ==> #[trigger] s[k] == args@[k]@,
            i <= args.len(),
            same == forall|k: int| 0 <= k < i && k < s.len() - 1 ==> #[trigger] atom_eq(s[k], s[k + 1]),
        decreases args.len() - i,
    {
        let e = args[i].equals(&args[i + 1]);
        proof {
            if !e {
                assert(!atom_eq(s[i as int], s[i + 1]));
            }
        }
        same = same && e;
        i = i + 1;
    }
    if same {
        Ok(c_int(1))
    } else {
        Ok(c_nil())
    }
}

/// The renderings of the arguments, separated by single spaces.
pub fn format_args(args: &Vec<AtomType>, tagged: bool) -> (r: String)
    ensures
        r@ == join_spec(seq_view(args@), args@.len() as int, tagged),
{
    proof {
        lemma_seq_view(args@);
    }
    let ghost s = seq_view(args@);
    let mut out = String::new();
    let mut i: usize = 0;
    while i < args.len()
        invariant
            i <= args.len(),
            s == seq_view(args@),
            s.len() == args.len(),
            forall|k: int| 0 <= k < args.len() ==> #[trigger] s[k] == args@[k]@,
            out@ == join_spec(s, i as int, tagged),
        decreases args.len() - i,
    {
        if i > 0 {
            out.append(" ");
        }
        let t = args[i].format(tagged);
        out.append(t.as_str());
        proof {
            assert(out@ =~= join_spec(s, i + 1, tagged));
        }
        i = i + 1;
    }
    out
}

/// Runs a host function: its result, and its console text appended to the runtime.
pub fn call_host(rt: &mut Runtime, f: HostFn, args: &Vec<AtomType>) -> (r: Result<AtomType, AtomError>)
    ensures
        ret_view(r) == host_result(f, seq_view(args@)),
        final(rt)@ == (RtView { out: old(rt)@.out + host_output(f, seq_view(args@)), ..old(rt)@ }),
        final(rt).wf() == old(rt).wf(),
{
    match f {
        HostFn::Add => int_fold_op(f, 0, args),
        HostFn::Sub => int_fold_op(f, 0, args),
        HostFn::Mul => int_fold_op(f, 1, args),
        HostFn::Div => int_fold_op(f, 1, args),
        HostFn::Cons => cons(args),
        HostFn::List => list(args),
        HostFn::IsList => is_list(args),
        HostFn::IsNil => is_nil(args),
        HostFn::Count => count(args),
        HostFn::Nth => nth(args),
        HostFn::Rest => rest(args),
        HostFn::Equal => partialeq(args),
        _ => {
            proof {
                lemma_seq_view(args@);
            }
            let tagged = f == HostFn::PrintTagged || f == HostFn::PrintlnTagged;
            let text = format_args(args, tagged);
            rt.write(text.as_str());
            if f == HostFn::Println || f == HostFn::PrintlnTagged {
                rt.write("\n");
                proof {
                    assert(rt@.out =~= old(rt)@.out + host_output(f, seq_view(args@)));
                }
            } else {
                proof {
                    assert(rt@.out =~= old(rt)@.out + host_output(f, seq_view(args@)));
                }
            }
            Ok(safe_get(args, 0))
        },
    }
}

} // verus!
