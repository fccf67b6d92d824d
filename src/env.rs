use vstd::prelude::*;
use vstd::string::{StrSliceExecFns, StringExecFns};
use fnv::FnvHashMap;
use crate::data::{AtomType, Env, Value, c_nil, format_spec, seq_view, lemma_seq_view};

verus! {

/// The bindings of one frame, kept in an FNV-hashed map.
#[verifier::external_body]
pub struct Bindings {
    map: FnvHashMap<String, AtomType>,
}

/// What a frame's map holds: symbol name to the model of its value.
pub uninterp spec fn bindings_of(b: Bindings) -> Map<Seq<char>, Value>;

impl Bindings {
    /// Relies on `FnvHashMap::default`: a map with no entries.
    #[verifier::external_body]
    fn empty() -> (r: Bindings)
        ensures
            bindings_of(r).dom() == Set::<Seq<char>>::empty(),
    {
        Bindings { map: FnvHashMap::default() }
    }

    /// Relies on `HashMap::insert`: the key now maps to the value, the others are kept.
    #[verifier::external_body]
    fn put(&mut self, key: String, value: AtomType)
        ensures
            bindings_of(*final(self)) == bindings_of(*old(self)).insert(key@, value@),
    {
        self.map.insert(key, value);
    }

    /// Relies on `HashMap::get`: the value stored under the key, if any.
    #[verifier::external_body]
    fn find(&self, key: &str) -> (r: Option<&AtomType>)
        ensures
            match r {
                Some(v) => bindings_of(*self).contains_key(key@) && bindings_of(*self)[key@] == v@,
                None => !bindings_of(*self).contains_key(key@),
            },
    {
        self.map.get(key)
    }
}

/// One scope: its bindings, the order in which its names were first bound,
/// and the scope it is nested in.
pub struct EnvType {
    pub parent: Option<Env>,
    data: Bindings,
    order: Vec<String>,
}

/// The model of a frame.
pub struct Frame {
    pub parent: Option<Env>,
    pub data: Map<Seq<char>, Value>,
    /// Each bound name once, in the order of first binding.
    pub order: Seq<Seq<char>>,
}

/// The views of a sequence of strings.
pub open spec fn texts_of(s: Seq<String>) -> Seq<Seq<char>> {
    s.map_values(|t: String| t@)
}

impl View for EnvType {
    type V = Frame;

    closed spec fn view(&self) -> Frame {
        Frame { parent: self.parent, data: bindings_of(self.data), order: texts_of(self.order@) }
    }
}

/// An empty frame nested in `parent`.
pub open spec fn empty_frame(parent: Option<Env>) -> Frame {
    Frame { parent, data: Map::empty(), order: Seq::empty() }
}

/// `f` with `key` bound to `v`; a new name goes to the end of the order.
pub open spec fn frame_set(f: Frame, key: Seq<char>, v: Value) -> Frame {
    Frame {
        parent: f.parent,
        data: f.data.insert(key, v),
        order: if f.data.contains_key(key) { f.order } else { f.order.push(key) },
    }
}

/// The order lists exactly the bound names.
pub open spec fn frame_wf(f: Frame) -> bool {
    forall|k: Seq<char>| #[trigger] f.data.contains_key(k) <==> f.order.contains(k)
}

/// The model of a runtime: its frames and what it has written to the console.
pub struct RtView {
    pub frames: Seq<Frame>,
    pub out: Seq<char>,
}

/// All environment frames of an interpreter, addressed by index, and the
/// console text written so far.
pub struct Runtime {
    frames: Vec<EnvType>,
    output: String,
}

/// The models of the first `n` frames.
pub open spec fn frames_of(s: Seq<EnvType>) -> Seq<Frame> {
    s.map_values(|f: EnvType| f@)
}

impl View for Runtime {
    type V = RtView;

    closed spec fn view(&self) -> RtView {
        RtView { frames: frames_of(self.frames@), out: self.output@ }
    }
}

/// Every frame's parent was created before it, and every frame's order
/// lists exactly its bound names.
pub open spec fn frames_wf(fr: Seq<Frame>) -> bool {
    forall|i: int|
        0 <= i < fr.len() ==> ((#[trigger] fr[i]).parent is Some ==> fr[i].parent->0 < i) && frame_wf(
            fr[i],
        )
}

/// The value a name has in `env`: its own binding, else its parent's.
pub open spec fn lookup(fr: Seq<Frame>, env: int, key: Seq<char>) -> Option<Value>
    decreases env,
{
    if env < 0 || env >= fr.len() {
        None
    } else if fr[env].data.contains_key(key) {
        Some(fr[env].data[key])
    } else {
        match fr[env].parent {
            Some(p) => if p < env { lookup(fr, p as int, key) } else { None },
            None => None,
        }
    }
}

/// `f` after binding each of the first `n` parameters to its positional
/// argument, or to nil where arguments run out.
pub open spec fn bind_spec(f: Frame, params: Seq<Value>, args: Seq<Value>, n: int) -> Frame
    decreases n,
{
    if n <= 0 || n > params.len() {
        f
    } else {
        frame_set(
            bind_spec(f, params, args, n - 1),
            params[n - 1]->Symbol_0,
            if n - 1 < args.len() { args[n - 1] } else { Value::Nil },
        )
    }
}

/// Binding parameters keeps the frame's parent.
pub proof fn lemma_bind_parent(f: Frame, params: Seq<Value>, args: Seq<Value>, n: int)
    ensures
        bind_spec(f, params, args, n).parent == f.parent,
    decreases n,
{
    if n > 0 && n <= params.len() {
        lemma_bind_parent(f, params, args, n - 1);
    }
}

impl Runtime {
    pub open spec fn wf(&self) -> bool {
        frames_wf(self@.frames)
    }

    /// A runtime with no frames and no output.
    pub fn new() -> (r: Runtime)
        ensures
            r.wf(),
            r@.frames.len() == 0,
            r@.out.len() == 0,
    {
        Runtime { frames: Vec::new(), output: String::new() }
    }

    pub fn frame_count(&self) -> (r: usize)
        ensures
            r == self@.frames.len(),
    {
        self.frames.len()
    }

    /// The console text written so far.
    pub fn output(&self) -> (r: &str)
        ensures
            r@ == self@.out,
    {
        self.output.as_str()
    }

    /// Hands back the console text written so far and clears it.
    pub fn take_output(&mut self) -> (r: String)
        ensures
            r@ == old(self)@.out,
            final(self)@ == (RtView { out: Seq::empty(), ..old(self)@ }),
            final(self).wf() == old(self).wf(),
    {
        let mut fresh = String::new();
        std::mem::swap(&mut fresh, &mut self.output);
        fresh
    }

    /// Appends text to the console output.
    pub fn write(&mut self, text: &str)
        ensures
            final(self)@ == (RtView { out: old(self)@.out + text@, ..old(self)@ }),
            final(self).wf() == old(self).wf(),
    {
        self.output.append(text);
    }
}

/// A new empty frame nested in `env`; returns its handle.
pub fn c_env(rt: &mut Runtime, env: Option<Env>) -> (r: Env)
    requires
        old(rt).wf(),
        env is Some ==> env->0 < old(rt)@.frames.len(),
    ensures
        final(rt).wf(),
        r == old(rt)@.frames.len(),
        final(rt)@.frames == old(rt)@.frames.push(empty_frame(env)),
        final(rt)@.out == old(rt)@.out,
{
    let r = rt.frames.len();
    let data = Bindings::empty();
    proof {
        assert(bindings_of(data) =~= Map::empty());
    }
    let order: Vec<String> = Vec::new();
    proof {
        assert(texts_of(order@) =~= Seq::empty());
    }
    rt.frames.push(EnvType { parent: env, data, order });
    proof {
        assert(frames_of(rt.frames@) =~= frames_of(old(rt).frames@).push(empty_frame(env)));
    }
    r
}

/// Binds a symbol in the frame `env` itself; ancestors are not searched.
pub fn env_set(rt: &mut Runtime, env: Env, key: &AtomType, value: AtomType)
    requires
        old(rt).wf(),
        env < old(rt)@.frames.len(),
        key@ is Symbol,
    ensures
        final(rt).wf(),
        final(rt)@.frames == old(rt)@.frames.update(
            env as int,
            frame_set(old(rt)@.frames[env as int], key@->Symbol_0, value@),
        ),
        final(rt)@.out == old(rt)@.out,
{
    let ghost f0 = old(rt)@.frames[env as int];
    match key {
        AtomType::Symbol(name) => {
            proof {
                assert(f0 == rt.frames@[env as int]@);
            }
            let known = match rt.frames[env].data.find(name.as_str()) {
                Some(_) => true,
                None => false,
            };
            if !known {
                rt.frames[env].order.push(name.clone());
            }
            rt.frames[env].data.put(name.clone(), value);
            proof {
                let f1 = rt.frames@[env as int]@;
                assert(f1.order =~= frame_set(f0, name@, value@).order);
                assert(f1 == frame_set(f0, name@, value@));
                assert forall|k: Seq<char>| #[trigger] f1.data.contains_key(k) <==> f1.order.contains(k) by {
                    if k != name@ && f1.order.contains(k) {
                        let j = choose|j: int| 0 <= j < f1.order.len() && f1.order[j] == k;
                        if !known {
                            assert(j < f0.order.len());
                            assert(f0.order[j] == k);
                        }
                        assert(f0.order.contains(k));
                    }
                    if f0.order.contains(k) {
                        let j = choose|j: int| 0 <= j < f0.order.len() && f0.order[j] == k;
                        assert(f1.order[j] == k);
                    }
                    if k == name@ && !known {
                        assert(f1.order[f1.order.len() - 1] == k);
                    }
                }
            }
        },
        _ => {},
    }
    proof {
        assert(frames_of(rt.frames@) =~= old(rt)@.frames.update(
            env as int,
            frame_set(old(rt)@.frames[env as int], key@->Symbol_0, value@),
        ));
    }
}

/// The model of an optional value.
pub open spec fn opt_view(o: Option<AtomType>) -> Option<Value> {
    match o {
        Some(v) => Some(v@),
        None => None,
    }
}

/// The value that a symbol has in `env`, searching the nearest frame first.
pub fn env_get(rt: &Runtime, env: Env, key: &AtomType) -> (r: Option<AtomType>)
    requires
        rt.wf(),
    ensures
        opt_view(r) == match key@ {
            Value::Symbol(name) => lookup(rt@.frames, env as int, name),
            _ => None,
        },
{
    let name = match key {
        AtomType::Symbol(name) => name,
        _ => return None,
    };
    if env >= rt.frames.len() {
        return None;
    }
    let mut cur: usize = env;
    loop
        invariant
            rt.wf(),
            cur < rt@.frames.len(),
            key@ == Value::Symbol(name@),
            lookup(rt@.frames, env as int, name@) == lookup(rt@.frames, cur as int, name@),
        decreases cur,
    {
        let frame = &rt.frames[cur];
        proof {
            assert(rt@.frames[cur as int] == rt.frames@[cur as int]@);
        }
        match frame.data.find(name.as_str()) {
            Some(v) => {
                return Some(v.copy());
            },
            None => {},
        }
        match frame.parent {
            Some(p) => {
                if p < cur {
                    cur = p;
                } else {
                    return None;
                }
            },
            None => {
                return None;
            },
        }
    }
}

/// Every item of `s` is a symbol.
pub open spec fn all_symbols(s: Seq<Value>) -> bool {
    forall|i: int| 0 <= i < s.len() ==> (#[trigger] s[i]) is Symbol
}

/// Binds each parameter to its positional argument in `env`; missing
/// arguments bind to nil and surplus ones are ignored.
pub fn env_bind(rt: &mut Runtime, env: Env, params: &Vec<AtomType>, args: &Vec<AtomType>)
    requires
        old(rt).wf(),
        env < old(rt)@.frames.len(),
        all_symbols(seq_view(params@)),
    ensures
        final(rt).wf(),
        final(rt)@.frames == old(rt)@.frames.update(
            env as int,
            bind_spec(old(rt)@.frames[env as int], seq_view(params@), seq_view(args@), params@.len() as int),
        ),
        final(rt)@.out == old(rt)@.out,
{
    proof {
        lemma_seq_view(params@);
        lemma_seq_view(args@);
    }
    let ghost ps = seq_view(params@);
    let ghost az = seq_view(args@);
    let ghost f0 = old(rt)@.frames[env as int];
    let mut i: usize = 0;
    while i < params.len()
        invariant
            rt.wf(),
            env < rt@.frames.len(),
            env < old(rt)@.frames.len(),
            f0 == old(rt)@.frames[env as int],
            i <= params.len(),
            ps == seq_view(params@),
            az == seq_view(args@),
            ps.len() == params.len(),
            az.len() == args.len(),
            forall|k: int| 0 <= k < params.len() ==> #[trigger] ps[k] == params@[k]@,
            forall|k: int| 0 <= k < args.len() ==> #[trigger] az[k] == args@[k]@,
            all_symbols(ps),
            rt@.out == old(rt)@.out,
            rt@.frames == old(rt)@.frames.update(env as int, bind_spec(f0, ps, az, i as int)),
        decreases params.len() - i,
    {
        let value = if i < args.len() {
            args[i].copy()
        } else {
            c_nil()
        };
        proof {
            assert(ps[i as int] is Symbol);
            assert(value@ == if i < az.len() { az[i as int] } else { Value::Nil });
            assert(params@[i as int]@ == ps[i as int]);
        }
        let ghost prev = rt@.frames;
        env_set(rt, env, &params[i], value);
        i = i + 1;
        proof {
            assert(bind_spec(f0, ps, az, i as int) == frame_set(
                bind_spec(f0, ps, az, i - 1),
                ps[i - 1]->Symbol_0,
                if i - 1 < az.len() { az[i - 1] } else { Value::Nil },
            ));
            assert(prev[env as int] == bind_spec(f0, ps, az, i - 1));
            assert(rt@.frames =~= old(rt)@.frames.update(env as int, bind_spec(f0, ps, az, i as int)));
        }
    }
}

/// Text order from position `i` on: by the first differing character, and a
/// proper prefix before the longer text.
pub open spec fn lt_from(a: Seq<char>, b: Seq<char>, i: int) -> bool
    decreases a.len() - i,
{
    if i < 0 || i >= a.len() {
        0 <= i < b.len()
    } else if i >= b.len() {
        false
    } else if a[i] != b[i] {
        (a[i] as u32) < (b[i] as u32)
    } else {
        lt_from(a, b, i + 1)
    }
}

/// `a` sorts strictly before `b`.
pub open spec fn text_lt(a: Seq<char>, b: Seq<char>) -> bool {
    lt_from(a, b, 0)
}

/// `s` with `x` placed before its first item that does not sort before `x`.
pub open spec fn insert_sorted(s: Seq<Seq<char>>, x: Seq<char>) -> Seq<Seq<char>>
    decreases s.len(),
{
    if s.len() == 0 {
        seq![x]
    } else if !text_lt(s[0], x) {
        seq![x] + s
    } else {
        seq![s[0]] + insert_sorted(s.drop_first(), x)
    }
}

/// The names of `s` in text order.
pub open spec fn sort_texts(s: Seq<Seq<char>>) -> Seq<Seq<char>>
    decreases s.len(),
{
    if s.len() == 0 {
        s
    } else {
        insert_sorted(sort_texts(s.drop_last()), s.last())
    }
}

/// Whether `a` sorts strictly before `b`.
pub fn text_less(a: &str, b: &str) -> (r: bool)
    ensures
        r == text_lt(a@, b@),
{
    let n = a.unicode_len();
    let m = b.unicode_len();
    let mut i: usize = 0;
    while i < n && i < m
        invariant
            n == a@.len(),
            m == b@.len(),
            i <= n,
            i <= m,
            text_lt(a@, b@) == lt_from(a@, b@, i as int),
        decreases n - i,
    {
        let c = a.get_char(i);
        let d = b.get_char(i);
        if c != d {
            return (c as u32) < (d as u32);
        }
        i = i + 1;
    }
    i < m && i == n
}

/// Inserting before the first item that does not sort before `x`.
pub proof fn lemma_insert_sorted_at(s: Seq<Seq<char>>, x: Seq<char>, p: int)
    requires
        0 <= p <= s.len(),
        forall|i: int| 0 <= i < p ==> text_lt(#[trigger] s[i], x),
        p == s.len() || !text_lt(s[p], x),
    ensures
        insert_sorted(s, x) == s.subrange(0, p).push(x) + s.subrange(p, s.len() as int),
    decreases p,
{
    if p == 0 {
        assert(s.subrange(0, 0).push(x) + s.subrange(0, s.len() as int) =~= seq![x] + s);
    } else {
        let t = s.drop_first();
        assert forall|i: int| 0 <= i < p - 1 implies text_lt(#[trigger] t[i], x) by {
            assert(t[i] == s[i + 1]);
        }
        if p - 1 < t.len() {
            assert(t[p - 1] == s[p]);
        }
        lemma_insert_sorted_at(t, x, p - 1);
        assert(seq![s[0]] + (t.subrange(0, p - 1).push(x) + t.subrange(p - 1, t.len() as int))
            =~= s.subrange(0, p).push(x) + s.subrange(p, s.len() as int));
    }
}

/// The names of a frame in text order.
fn sorted_names(frame: &EnvType) -> (r: Vec<String>)
    ensures
        texts_of(r@) == sort_texts(frame@.order),
        forall|j: int| 0 <= j < r.len() ==> frame@.order.contains(#[trigger] r@[j]@),
{
    let ghost order = frame@.order;
    let mut out: Vec<String> = Vec::new();
    let mut i: usize = 0;
    proof {
        assert(order.subrange(0, 0) =~= Seq::<Seq<char>>::empty());
        assert(texts_of(out@) =~= Seq::<Seq<char>>::empty());
    }
    while i < frame.order.len()
        invariant
            order == frame@.order,
            order == texts_of(frame.order@),
            i <= frame.order.len(),
            texts_of(out@) == sort_texts(order.subrange(0, i as int)),
            forall|j: int| 0 <= j < out.len() ==> order.contains(#[trigger] out@[j]@),
        decreases frame.order.len() - i,
    {
        let key = &frame.order[i];
        let mut p: usize = 0;
        while p < out.len() && text_less(out[p].as_str(), key.as_str())
            invariant
                p <= out.len(),
                forall|k: int| 0 <= k < p ==> text_lt(#[trigger] texts_of(out@)[k], key@),
            decreases out.len() - p,
        {
            p = p + 1;
        }
        let ghost before = texts_of(out@);
        proof {
            lemma_insert_sorted_at(before, key@, p as int);
            assert(order.subrange(0, i + 1).drop_last() =~= order.subrange(0, i as int));
            assert(order[i as int] == key@);
            assert(order.contains(key@));
        }
        out.insert(p, key.clone());
        proof {
            assert(texts_of(out@) =~= before.subrange(0, p as int).push(key@) + before.subrange(
                p as int,
                before.len() as int,
            ));
            assert forall|j: int| 0 <= j < out.len() implies order.contains(#[trigger] out@[j]@) by {
                if j < p {
                    assert(out@[j]@ == before[j]);
                } else if j > p {
                    assert(out@[j]@ == before[j - 1]);
                }
            }
        }
        i = i + 1;
    }
    proof {
        assert(order.subrange(0, order.len() as int) =~= order);
    }
    out
}

/// One entry of a frame's rendering: a name and its value.
pub open spec fn entry_spec(f: Frame, key: Seq<char>, tagged: bool) -> Seq<char> {
    key + " "@ + format_spec(f.data[key], tagged)
}

/// The entries for the first `n` of `keys`, separated by single spaces.
pub open spec fn entries_spec(f: Frame, keys: Seq<Seq<char>>, n: int, tagged: bool) -> Seq<char>
    decreases n,
{
    if n <= 0 {
        Seq::empty()
    } else if n == 1 {
        entry_spec(f, keys[0], tagged)
    } else {
        entries_spec(f, keys, n - 1, tagged) + " "@ + entry_spec(f, keys[n - 1], tagged)
    }
}

/// A frame's bindings with names in text order, in braces.
pub open spec fn dump_spec(f: Frame, tagged: bool) -> Seq<char> {
    "{"@ + entries_spec(f, sort_texts(f.order), f.order.len() as int, tagged) + "}"@
}

/// The rendering of the frame `env`'s own bindings, names in text order:
/// values plain or tagged.
pub fn env_dump(rt: &Runtime, env: Env, tagged: bool) -> (r: String)
    requires
        rt.wf(),
        env < rt@.frames.len(),
    ensures
        r@ == dump_spec(rt@.frames[env as int], tagged),
{
    let frame = &rt.frames[env];
    let ghost f = rt@.frames[env as int];
    proof {
        assert(f == frame@);
        assert(frame_wf(f));
    }
    let names = sorted_names(frame);
    proof {
        lemma_sort_len(f.order);
    }
    let ghost keys = sort_texts(f.order);
    let mut out = String::from_str("{");
    let mut i: usize = 0;
    while i < names.len()
        invariant
            f == frame@,
            frame_wf(f),
            keys == sort_texts(f.order),
            keys == texts_of(names@),
            keys.len() == f.order.len(),
            forall|j: int| 0 <= j < names.len() ==> f.order.contains(#[trigger] names@[j]@),
            i <= names.len(),
            out@ == "{"@ + entries_spec(f, keys, i as int, tagged),
        decreases names.len() - i,
    {
        let key = &names[i];
        proof {
            assert(keys[i as int] == key@);
            assert(f.order.contains(key@));
        }
        match frame.data.find(key.as_str()) {
            Some(v) => {
                if i > 0 {
                    out.append(" ");
                }
                out.append(key.as_str());
                out.append(" ");
                let t = v.format(tagged);
                out.append(t.as_str());
                proof {
                    assert(out@ =~= "{"@ + entries_spec(f, keys, i + 1, tagged));
                }
            },
            None => {},
        }
        i = i + 1;
    }
    out.append("}");
    out
}

/// Sorting keeps the number of names.
pub proof fn lemma_sort_len(s: Seq<Seq<char>>)
    ensures
        sort_texts(s).len() == s.len(),
    decreases s.len(),
{
    if s.len() > 0 {
        lemma_sort_len(s.drop_last());
        lemma_insert_len(sort_texts(s.drop_last()), s.last());
    }
}

/// Inserting adds one name.
pub proof fn lemma_insert_len(s: Seq<Seq<char>>, x: Seq<char>)
    ensures
        insert_sorted(s, x).len() == s.len() + 1,
    decreases s.len(),
{
    if s.len() > 0 && text_lt(s[0], x) {
        lemma_insert_len(s.drop_first(), x);
    }
}

} // verus!
