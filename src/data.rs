use vstd::prelude::*;
use vstd::string::StringExecFns;

verus! {

broadcast use vstd::std_specs::vec::group_vec_axioms;

/// Handle of an environment frame inside a `Runtime`.
pub type Env = usize;

/// The native operations that the global environment exposes.
#[derive(Clone, Copy, Debug, PartialEq, Eq, Structural)]
pub enum HostFn {
    Add,
    Sub,
    Mul,
    Div,
    Cons,
    List,
    IsList,
    IsNil,
    Count,
    Nth,
    Rest,
    Equal,
    Print,
    Println,
    PrintTagged,
    PrintlnTagged,
}

/// A reference to a native callable.
#[derive(Clone, Copy, Debug)]
pub struct AtomFn(pub HostFn);

/// A user-defined function or macro.
#[derive(Debug)]
pub struct AFuncData {
    pub exp: Box<AtomType>,
    pub env: Env,
    pub params: Box<AtomType>,
    pub is_macro: bool,
}

/// A runtime value.
#[derive(Debug)]
pub enum AtomType {
    Nil,
    Int(i64),
    Symbol(String),
    List(Vec<AtomType>),
    Func(AtomFn),
    AFunc(AFuncData),
}

/// Decimal digits of a natural number.
pub open spec fn nat_text(n: nat) -> Seq<char>
    decreases n,
{
    let d = (('0' as u8) + (n % 10) as u8) as char;
    if n < 10 {
        seq![d]
    } else {
        nat_text(n / 10) + seq![d]
    }
}

/// Decimal rendering of an integer, with a leading `-` when negative.
pub open spec fn int_text(n: int) -> Seq<char> {
    if n < 0 {
        seq!['-'] + nat_text((-n) as nat)
    } else {
        nat_text(n as nat)
    }
}

/// Relies on `i64`'s `Display` (via `to_string`): decimal digits, `-` for negatives.
#[verifier::external_body]
fn int_to_text(n: i64) -> (r: String)
    ensures
        r@ == int_text(n as int),
{
    n.to_string()
}

/// The mathematical model of a runtime value.
pub enum Value {
    Nil,
    Int(i64),
    Symbol(Seq<char>),
    List(Seq<Value>),
    Func(HostFn),
    Closure { exp: Box<Value>, env: Env, params: Box<Value>, is_macro: bool },
}

/// The model of a runtime value.
pub open spec fn value_of(a: AtomType) -> Value
    decreases a, 0int,
{
    match a {
        AtomType::Nil => Value::Nil,
        AtomType::Int(i) => Value::Int(i),
        AtomType::Symbol(s) => Value::Symbol(s@),
        AtomType::List(v) => Value::List(values_of(v@, v@.len() as int)),
        AtomType::Func(f) => Value::Func(f.0),
        AtomType::AFunc(d) => Value::Closure {
            exp: Box::new(value_of(*d.exp)),
            env: d.env,
            params: Box::new(value_of(*d.params)),
            is_macro: d.is_macro,
        },
    }
}

/// The models of the first `n` items of `s`.
pub open spec fn values_of(s: Seq<AtomType>, n: int) -> Seq<Value>
    decreases s, n,
{
    if n <= 0 || n > s.len() {
        Seq::empty()
    } else {
        values_of(s, n - 1).push(value_of(s[n - 1]))
    }
}

/// The models of all items of `s`.
pub open spec fn seq_view(s: Seq<AtomType>) -> Seq<Value> {
    values_of(s, s.len() as int)
}

pub proof fn lemma_values_of(s: Seq<AtomType>, n: int)
    requires
        0 <= n <= s.len(),
    ensures
        values_of(s, n).len() == n,
        forall|i: int| 0 <= i < n ==> #[trigger] values_of(s, n)[i] == value_of(s[i]),
    decreases n,
{
    if n > 0 {
        lemma_values_of(s, n - 1);
    }
}

/// The models of a sequence of values, item by item.
pub proof fn lemma_seq_view(s: Seq<AtomType>)
    ensures
        seq_view(s).len() == s.len(),
        forall|i: int| 0 <= i < s.len() ==> #[trigger] seq_view(s)[i] == value_of(s[i]),
{
    lemma_values_of(s, s.len() as int);
}

impl View for AtomType {
    type V = Value;

    open spec fn view(&self) -> Value {
        value_of(*self)
    }
}

/// The rendering of a value: plain for users, tagged for diagnostics.
pub open spec fn format_spec(a: Value, tagged: bool) -> Seq<char>
    decreases a, 0int,
{
    match a {
        Value::Nil => if tagged { "Nil()"@ } else { "nil"@ },
        Value::Int(i) => if tagged { "Int("@ + int_text(i as int) + ")"@ } else { int_text(i as int) },
        Value::Symbol(s) => if tagged { "Symbol("@ + s + ")"@ } else { s },
        Value::List(v) => {
            if tagged { "List("@ + join_spec(v, v.len() as int, tagged) + ")"@ }
            else { "("@ + join_spec(v, v.len() as int, tagged) + ")"@ }
        },
        Value::Func(_) => "#func()"@,
        Value::Closure { is_macro, .. } => if is_macro { "#macro()"@ } else { "#builtin_func()"@ },
    }
}

/// The renderings of the first `n` items, separated by single spaces.
pub open spec fn join_spec(s: Seq<Value>, n: int, tagged: bool) -> Seq<char>
    decreases s, n,
{
    if n <= 0 || n > s.len() {
        Seq::empty()
    } else if n == 1 {
        format_spec(s[0], tagged)
    } else {
        join_spec(s, n - 1, tagged) + " "@ + format_spec(s[n - 1], tagged)
    }
}

/// Structural equality of values; functions and closures are never equal.
pub open spec fn atom_eq(a: Value, b: Value) -> bool
    decreases a, 0int,
{
    match (a, b) {
        (Value::Nil, Value::Nil) => true,
        (Value::Int(x), Value::Int(y)) => x == y,
        (Value::Symbol(x), Value::Symbol(y)) => x == y,
        (Value::List(v), Value::List(w)) => v.len() == w.len() && items_eq(v, w, v.len() as int),
        _ => false,
    }
}

/// The first `n` items of `s` and `t` are pairwise equal.
pub open spec fn items_eq(s: Seq<Value>, t: Seq<Value>, n: int) -> bool
    decreases s, n,
{
    if n <= 0 {
        true
    } else if n > s.len() || n > t.len() {
        false
    } else {
        items_eq(s, t, n - 1) && atom_eq(s[n - 1], t[n - 1])
    }
}

/// What an error says, over plain text.
pub enum AtomErrorView {
    InvalidType(Seq<char>, Seq<char>),
    InvalidOperation(Seq<char>),
    InvalidArgument(Seq<char>),
    UndefinedSymbol(Seq<char>),
    DepthExceeded,
}

/// An evaluation failure.
#[derive(Debug)]
pub enum AtomError {
    /// Expected kind, then the tagged rendering of the value received.
    InvalidType(String, String),
    /// The operator of an application that is not callable.
    InvalidOperation(String),
    InvalidArgument(String),
    UndefinedSymbol(String),
    /// The nesting of evaluation went past the depth budget.
    DepthExceeded,
}

impl View for AtomError {
    type V = AtomErrorView;

    open spec fn view(&self) -> AtomErrorView {
        match self {
            AtomError::InvalidType(e, g) => AtomErrorView::InvalidType(e@, g@),
            AtomError::InvalidOperation(o) => AtomErrorView::InvalidOperation(o@),
            AtomError::InvalidArgument(m) => AtomErrorView::InvalidArgument(m@),
            AtomError::UndefinedSymbol(n) => AtomErrorView::UndefinedSymbol(n@),
            AtomError::DepthExceeded => AtomErrorView::DepthExceeded,
        }
    }
}

/// The human-readable text of an error.
pub open spec fn message_spec(e: AtomErrorView) -> Seq<char> {
    match e {
        AtomErrorView::InvalidType(expected, got) => "expected: "@ + expected + ", received: "@ + got,
        AtomErrorView::InvalidOperation(op) => "invalid operation: "@ + op,
        AtomErrorView::InvalidArgument(m) => "invalid argument: "@ + m,
        AtomErrorView::UndefinedSymbol(n) => "undefined symbol: "@ + n,
        AtomErrorView::DepthExceeded => "evaluation nested too deeply"@,
    }
}

impl AtomError {
    /// The human-readable text of this error.
    pub fn message(&self) -> (r: String)
        ensures
            r@ == message_spec(self@),
    {
        match self {
            AtomError::InvalidType(expected, got) => {
                let mut r = String::from_str("expected: ");
                r.append(expected.as_str());
                r.append(", received: ");
                r.append(got.as_str());
                r
            },
            AtomError::InvalidOperation(op) => {
                let mut r = String::from_str("invalid operation: ");
                r.append(op.as_str());
                r
            },
            AtomError::InvalidArgument(m) => {
                let mut r = String::from_str("invalid argument: ");
                r.append(m.as_str());
                r
            },
            AtomError::UndefinedSymbol(n) => {
                let mut r = String::from_str("undefined symbol: ");
                r.append(n.as_str());
                r
            },
            AtomError::DepthExceeded => String::from_str("evaluation nested too deeply"),
        }
    }
}

/// The outcome of an evaluation, seen through the models.
pub open spec fn ret_view(r: Result<AtomType, AtomError>) -> Result<Value, AtomErrorView> {
    match r {
        Ok(v) => Ok(v@),
        Err(e) => Err(e@),
    }
}

/// The type error raised when `a` is not of kind `expected`.
pub open spec fn mismatch(expected: Seq<char>, a: Value) -> AtomErrorView {
    AtomErrorView::InvalidType(expected, format_spec(a, true))
}

pub fn type_error(expected: &str, a: &AtomType) -> (r: AtomError)
    ensures
        r@ == mismatch(expected@, a@),
{
    AtomError::InvalidType(String::from_str(expected), a.format(true))
}

impl AFuncData {
    pub fn copy(&self) -> (r: AFuncData)
        ensures
            AtomType::AFunc(r)@ == AtomType::AFunc(*self)@,
        decreases self,
    {
        AFuncData {
            exp: Box::new(self.exp.copy()),
            env: self.env,
            params: Box::new(self.params.copy()),
            is_macro: self.is_macro,
        }
    }
}

impl AtomType {
    pub fn format(&self, with_type: bool) -> (r: String)
        ensures
            r@ == format_spec(self@, with_type),
        decreases self,
    {
        match self {
            AtomType::Nil => if with_type { "Nil()".to_string() } else { "nil".to_string() },
            AtomType::Int(i) => {
                let t = int_to_text(*i);
                if with_type {
                    let mut r = "Int(".to_string();
                    r.append(t.as_str());
                    r.append(")");
                    r
                } else {
                    t
                }
            },
            AtomType::Symbol(s) => {
                if with_type {
                    let mut r = "Symbol(".to_string();
                    r.append(s.as_str());
                    r.append(")");
                    r
                } else {
                    s.clone()
                }
            },
            AtomType::List(v) => {
                let mut r = if with_type { "List(".to_string() } else { "(".to_string() };
                let ghost start = r@;
                let ghost items = seq_view(v@);
                proof {
                    lemma_seq_view(v@);
                }
                let mut i: usize = 0;
                while i < v.len()
                    invariant
                        i <= v.len(),
                        *self == AtomType::List(*v),
                        items == seq_view(v@),
                        items.len() == v.len(),
                        forall|k: int| 0 <= k < v.len() ==> #[trigger] items[k] == v@[k]@,
                        r@ == start + join_spec(items, i as int, with_type),
                    decreases v.len() - i,
                {
                    proof {
                        assert(decreases_to!(*self => self->List_0@));
                        assert(decreases_to!(v@ => v@[i as int]));
                    }
                    if i > 0 {
                        r.append(" ");
                    }
                    let t = v[i].format(with_type);
                    r.append(t.as_str());
                    proof {
                        assert(r@ == start + join_spec(items, i + 1, with_type));
                    }
                    i = i + 1;
                }
                r.append(")");
                r
            },
            AtomType::Func(_) => "#func()".to_string(),
            AtomType::AFunc(d) => if d.is_macro { "#macro()".to_string() } else { "#builtin_func()".to_string() },
        }
    }

    /// An independent value with the same model.
    pub fn copy(&self) -> (r: AtomType)
        ensures
            r@ == self@,
        decreases self,
    {
        match self {
            AtomType::Nil => AtomType::Nil,
            AtomType::Int(i) => AtomType::Int(*i),
            AtomType::Symbol(s) => AtomType::Symbol(s.clone()),
            AtomType::List(v) => {
                let mut r: Vec<AtomType> = Vec::new();
                proof {
                    lemma_seq_view(v@);
                }
                let mut i: usize = 0;
                while i < v.len()
                    invariant
                        i <= v.len(),
                        *self == AtomType::List(*v),
                        r.len() == i,
                        forall|k: int| 0 <= k < i ==> #[trigger] r@[k]@ == v@[k]@,
                    decreases v.len() - i,
                {
                    proof {
                        assert(decreases_to!(*self => self->List_0@));
                        assert(decreases_to!(v@ => v@[i as int]));
                    }
                    r.push(v[i].copy());
                    i = i + 1;
                }
                proof {
                    lemma_seq_view(v@);
                    lemma_seq_view(r@);
                    assert forall|k: int| 0 <= k < v.len() implies seq_view(r@)[k] == seq_view(v@)[k] by {
                        assert(r@[k]@ == v@[k]@);
                    }
                    assert(seq_view(r@) =~= seq_view(v@));
                }
                AtomType::List(r)
            },
            AtomType::Func(f) => AtomType::Func(AtomFn(f.0)),
            AtomType::AFunc(d) => AtomType::AFunc(d.copy()),
        }
    }

    /// Value equality: integers, symbols and nil by value, lists item by item,
    /// functions never.
    pub fn equals(&self, other: &AtomType) -> (r: bool)
        ensures
            r == atom_eq(self@, other@),
        decreases self,
    {
        match (self, other) {
            (AtomType::Nil, AtomType::Nil) => true,
            (AtomType::Int(x), AtomType::Int(y)) => *x == *y,
            (AtomType::Symbol(x), AtomType::Symbol(y)) => *x == *y,
            (AtomType::List(v), AtomType::List(w)) => {
                proof {
                    lemma_seq_view(v@);
                    lemma_seq_view(w@);
                }
                if v.len() != w.len() {
                    return false;
                }
                let mut ok = true;
                let mut i: usize = 0;
                while i < v.len()
                    invariant
                        i <= v.len(),
                        v.len() == w.len(),
                        *self == AtomType::List(*v),
                        seq_view(v@).len() == v.len(),
                        seq_view(w@).len() == w.len(),
                        forall|k: int| 0 <= k < v.len() ==> #[trigger] seq_view(v@)[k] == v@[k]@,
                        forall|k: int| 0 <= k < w.len() ==> #[trigger] seq_view(w@)[k] == w@[k]@,
                        ok == items_eq(seq_view(v@), seq_view(w@), i as int),
                    decreases v.len() - i,
                {
                    proof {
                        assert(decreases_to!(*self => self->List_0@));
                        assert(decreases_to!(v@ => v@[i as int]));
                    }
                    let e = v[i].equals(&w[i]);
                    ok = ok && e;
                    i = i + 1;
                }
                ok
            },
            _ => false,
        }
    }
    pub fn get_int(&self) -> (r: Result<i64, AtomError>)
        ensures
            match *self {
                AtomType::Int(i) => r is Ok && r->Ok_0 == i,
                _ => r is Err && r->Err_0@ == mismatch("Int"@, self@),
            },
    {
        match self {
            AtomType::Int(i) => Ok(*i),
            _ => Err(type_error("Int", self)),
        }
    }

    pub fn get_list(&self) -> (r: Result<&Vec<AtomType>, AtomError>)
        ensures
            match *self {
                AtomType::List(v) => r is Ok && *r->Ok_0 == v,
                _ => r is Err && r->Err_0@ == mismatch("List"@, self@),
            },
    {
        match self {
            AtomType::List(v) => Ok(v),
            _ => Err(type_error("List", self)),
        }
    }

    pub fn get_symbol(&self) -> (r: Result<&str, AtomError>)
        ensures
            match *self {
                AtomType::Symbol(s) => r is Ok && r->Ok_0@ == s@,
                _ => r is Err && r->Err_0@ == mismatch("Symbol"@, self@),
            },
    {
        match self {
            AtomType::Symbol(s) => Ok(s.as_str()),
            _ => Err(type_error("Symbol", self)),
        }
    }

    pub fn is_symbol(&self, sym: &str) -> (r: bool)
        ensures
            r == (*self is Symbol && self->Symbol_0@ == sym@),
    {
        match self {
            AtomType::Symbol(s) => *s == String::from_str(sym),
            _ => false,
        }
    }
}

pub fn c_nil() -> (r: AtomType)
    ensures
        r@ == Value::Nil,
{
    AtomType::Nil
}

pub fn c_int(num: i64) -> (r: AtomType)
    ensures
        r@ == Value::Int(num),
{
    AtomType::Int(num)
}

pub fn c_symbol(symbol: &str) -> (r: AtomType)
    ensures
        r@ == Value::Symbol(symbol@),
{
    AtomType::Symbol(String::from_str(symbol))
}

pub fn c_list(seq: Vec<AtomType>) -> (r: AtomType)
    ensures
        r@ == Value::List(seq_view(seq@)),
{
    AtomType::List(seq)
}

pub fn c_func(f: HostFn) -> (r: AtomType)
    ensures
        r@ == Value::Func(f),
{
    AtomType::Func(AtomFn(f))
}

/// A closure over `env` that is applied as a function.
pub fn c_afunc(env: Env, params: AtomType, exp: AtomType) -> (r: AtomType)
    ensures
        r@ == (Value::Closure { exp: Box::new(exp@), env, params: Box::new(params@), is_macro: false }),
{
    AtomType::AFunc(AFuncData { exp: Box::new(exp), env, params: Box::new(params), is_macro: false })
}

/// The same closure, marked as a macro.
pub fn c_macro(fd: &AFuncData) -> (r: AtomType)
    ensures
        r@ == (Value::Closure {
            exp: Box::new(fd.exp@),
            env: fd.env,
            params: Box::new(fd.params@),
            is_macro: true,
        }),
{
    let mut d = fd.copy();
    d.is_macro = true;
    AtomType::AFunc(d)
}

/// Independent copies of the items of `v` from position `from` on.
pub fn copy_from(v: &Vec<AtomType>, from: usize) -> (r: Vec<AtomType>)
    requires
        from <= v.len(),
    ensures
        seq_view(r@) == seq_view(v@).subrange(from as int, v@.len() as int),
{
    let mut out: Vec<AtomType> = Vec::new();
    let mut i: usize = from;
    while i < v.len()
        invariant
            from <= i <= v.len(),
            out.len() == i - from,
            forall|k: int| 0 <= k < i - from ==> #[trigger] out@[k]@ == v@[k + from]@,
        decreases v.len() - i,
    {
        out.push(v[i].copy());
        i = i + 1;
    }
    proof {
        lemma_seq_view(out@);
        lemma_seq_view(v@);
        assert forall|k: int| 0 <= k < out.len() implies seq_view(out@)[k]
            == seq_view(v@).subrange(from as int, v@.len() as int)[k] by {
            assert(out@[k]@ == v@[k + from]@);
        }
        assert(seq_view(out@) =~= seq_view(v@).subrange(from as int, v@.len() as int));
    }
    out
}

} // verus!
