use vstd::prelude::*;

verus! {

broadcast use vstd::std_specs::vec::group_vec_axioms;

/// Fixed-point scale of [`Number`]: a number's value is `scaled / SCALE`.
pub const SCALE: i128 = 1_000_000_000_000_000_000;

/// A JSON number held exactly as a fixed-point decimal with eighteen
/// fractional digits. `is_float` records whether the number was written
/// with a fraction or an exponent (a "double" rather than an "int").
#[derive(Clone, Copy, Debug, PartialEq, Eq, Structural)]
pub struct Number {
    pub scaled: i128,
    pub is_float: bool,
}

impl Number {
    /// An integral number.
    pub fn from_i64(i: i64) -> (r: Number)
        ensures
            r.scaled == i as int * SCALE as int,
            !r.is_float,
    {
        assert(i as int * SCALE as int <= i64::MAX as int * SCALE as int) by (nonlinear_arith)
            requires i <= i64::MAX;
        assert(i as int * SCALE as int >= i64::MIN as int * SCALE as int) by (nonlinear_arith)
            requires i >= i64::MIN;
        Number { scaled: (i as i128) * SCALE, is_float: false }
    }

    /// An integral number given as an unsigned integer.
    pub fn from_u64(u: u64) -> (r: Number)
        ensures
            r.scaled == u as int * SCALE as int,
            !r.is_float,
    {
        assert(u as int * SCALE as int <= u64::MAX as int * SCALE as int) by (nonlinear_arith)
            requires u <= u64::MAX;
        Number { scaled: (u as i128) * SCALE, is_float: false }
    }

    /// A number with a fraction, `mantissa / 10^frac_digits`, marked as a double.
    pub fn from_decimal(mantissa: i64, frac_digits: u32) -> (r: Number)
        requires
            frac_digits <= 18,
        ensures
            r.scaled == mantissa as int * pow10((18 - frac_digits) as nat),
            r.is_float,
    {
        let factor = pow10_exec(18 - frac_digits);
        proof {
            lemma_pow10_mono((18 - frac_digits) as nat, 18);
            assert(mantissa as int * factor as int <= i64::MAX as int * SCALE as int) by (nonlinear_arith)
                requires mantissa <= i64::MAX, 0 < factor as int <= SCALE as int;
            assert(mantissa as int * factor as int >= i64::MIN as int * SCALE as int) by (nonlinear_arith)
                requires mantissa >= i64::MIN, 0 < factor as int <= SCALE as int;
        }
        Number { scaled: (mantissa as i128) * factor, is_float: true }
    }
}

pub open spec fn pow10(n: nat) -> int
    decreases n,
{
    if n == 0 { 1 } else { 10 * pow10((n - 1) as nat) }
}

proof fn lemma_pow10_mono(a: nat, b: nat)
    requires
        a <= b,
    ensures
        1 <= pow10(a) <= pow10(b),
        pow10(18) == SCALE as int,
    decreases b,
{
    reveal_with_fuel(pow10, 19);
    if b > a {
        lemma_pow10_mono(a, (b - 1) as nat);
    } else if a > 0 {
        lemma_pow10_mono((a - 1) as nat, (a - 1) as nat);
    }
}

/// `10^n` for `n <= 18`.
fn pow10_exec(n: u32) -> (r: i128)
    requires
        n <= 18,
    ensures
        r as int == pow10(n as nat),
        1 <= r <= SCALE,
{
    let mut r: i128 = 1;
    let mut i: u32 = 0;
    while i < n
        invariant
            i <= n <= 18,
            r as int == pow10(i as nat),
        decreases n - i,
    {
        proof { lemma_pow10_mono((i + 1) as nat, 18); }
        r = r * 10;
        i = i + 1;
    }
    proof { lemma_pow10_mono(n as nat, 18); }
    r
}

/// The mathematical model of a JSON value.
pub enum JsonView {
    Null,
    Bool(bool),
    /// The fixed-point value (see [`SCALE`]) and whether it was written as a double.
    Num(int, bool),
    Str(Seq<char>),
    Arr(Seq<JsonView>),
    /// An object's keys and, at the same positions, their values.
    Obj(Seq<Seq<char>>, Seq<JsonView>),
}

/// A JSON value. An object keeps its entries in order; looking a key up
/// finds its first entry.
#[derive(Debug, PartialEq)]
pub enum Value {
    Null,
    Bool(bool),
    Number(Number),
    String(String),
    Array(Vec<Value>),
    Object(Vec<(String, Value)>),
}

impl View for Value {
    type V = JsonView;

    open spec fn view(&self) -> JsonView
        decreases self,
    {
        match *self {
            Value::Null => JsonView::Null,
            Value::Bool(b) => JsonView::Bool(b),
            Value::Number(n) => JsonView::Num(n.scaled as int, n.is_float),
            Value::String(s) => JsonView::Str(s@),
            Value::Array(v) => JsonView::Arr(
                Seq::new(v.len() as nat, |i: int| if 0 <= i < v.len() { v[i].view() } else { JsonView::Null }),
            ),
            Value::Object(v) => JsonView::Obj(
                Seq::new(v.len() as nat, |i: int| v[i].0@),
                Seq::new(v.len() as nat, |i: int| if 0 <= i < v.len() { v[i].1.view() } else { JsonView::Null }),
            ),
        }
    }
}

/// How an array's view is made of its elements' views.
pub proof fn lemma_array_view(xs: Vec<Value>)
    ensures
        Value::Array(xs)@ is Arr,
        Value::Array(xs)@->Arr_0.len() == xs.len(),
        forall|i: int| 0 <= i < xs.len() ==> #[trigger] Value::Array(xs)@->Arr_0[i] == xs[i]@,
{
}

/// How an object's view is made of its entries' keys and values.
pub proof fn lemma_object_view(es: Vec<(String, Value)>)
    ensures
        Value::Object(es)@ is Obj,
        Value::Object(es)@->Obj_0.len() == es.len(),
        Value::Object(es)@->Obj_1.len() == es.len(),
        forall|i: int| 0 <= i < es.len() ==> #[trigger] Value::Object(es)@->Obj_0[i] == es[i].0@,
        forall|i: int| 0 <= i < es.len() ==> #[trigger] Value::Object(es)@->Obj_1[i] == es[i].1@,
{
}

/// The view of a value has the value's own shape.
pub proof fn lemma_view_shape(v: &Value)
    ensures
        match *v {
            Value::Null => v@ is Null,
            Value::Bool(b) => v@ == JsonView::Bool(b),
            Value::Number(n) => v@ == JsonView::Num(n.scaled as int, n.is_float),
            Value::String(s) => v@ == JsonView::Str(s@),
            Value::Array(xs) => v@ is Arr && v@->Arr_0.len() == xs.len() && forall|i: int|
                0 <= i < xs.len() ==> #[trigger] v@->Arr_0[i] == xs[i]@,
            Value::Object(es) => v@ is Obj && v@->Obj_0.len() == es.len() && v@->Obj_1.len() == es.len()
                && (forall|i: int| 0 <= i < es.len() ==> #[trigger] v@->Obj_0[i] == es[i].0@)
                && (forall|i: int| 0 <= i < es.len() ==> #[trigger] v@->Obj_1[i] == es[i].1@),
        },
{
    match *v {
        Value::Array(xs) => lemma_array_view(xs),
        Value::Object(es) => lemma_object_view(es),
        _ => {},
    }
}

/// The position of the first of `ks` at or after `i` that equals `k`, or
/// `ks.len()` when there is none.
pub open spec fn first_key(ks: Seq<Seq<char>>, k: Seq<char>, i: int) -> int
    decreases ks.len() - i,
{
    if i < 0 || i >= ks.len() {
        ks.len() as int
    } else if ks[i] == k {
        i
    } else {
        first_key(ks, k, i + 1)
    }
}

/// The first matching position lies between the start and the end.
pub proof fn lemma_first_key_range(ks: Seq<Seq<char>>, k: Seq<char>, i: int)
    requires
        0 <= i <= ks.len(),
    ensures
        i <= first_key(ks, k, i) <= ks.len(),
        first_key(ks, k, i) < ks.len() ==> ks[first_key(ks, k, i)] == k,
    decreases ks.len() - i,
{
    if i < ks.len() && ks[i] != k {
        lemma_first_key_range(ks, k, i + 1);
    }
}

/// The value of key `k` in an object with keys `ks` and values `vs`: that of
/// its first entry with that key.
pub open spec fn lookup(ks: Seq<Seq<char>>, vs: Seq<JsonView>, k: Seq<char>) -> Option<JsonView> {
    let i = first_key(ks, k, 0);
    if 0 <= i < ks.len() && i < vs.len() {
        Some(vs[i])
    } else {
        None
    }
}

/// The value of key `k` when `v` is an object.
pub open spec fn field_of(v: JsonView, k: Seq<char>) -> Option<JsonView> {
    match v {
        JsonView::Obj(ks, vs) => lookup(ks, vs, k),
        _ => None,
    }
}

/// Whether every object inside `v` has as many values as keys, as the view
/// of every [`Value`] does.
pub open spec fn json_wf(v: JsonView) -> bool
    decreases v,
{
    match v {
        JsonView::Arr(xs) => forall|i: int| 0 <= i < xs.len() ==> json_wf(#[trigger] xs[i]),
        JsonView::Obj(ks, vs) => ks.len() == vs.len() && forall|i: int| 0 <= i < vs.len() ==> json_wf(#[trigger] vs[i]),
        _ => true,
    }
}

/// The view of a value is well formed.
pub proof fn lemma_view_wf(v: &Value)
    ensures
        json_wf(v@),
    decreases v,
{
    lemma_view_shape(v);
    match v {
        Value::Array(xs) => {
            assert forall|i: int| 0 <= i < xs.len() implies json_wf(#[trigger] v@->Arr_0[i]) by {
                assert(decreases_to!(*v => (*v)->Array_0));
                assert(decreases_to!(*xs => xs@));
                assert(decreases_to!(xs@ => xs@[i]));
                lemma_view_wf(&xs[i]);
            }
        },
        Value::Object(es) => {
            assert forall|i: int| 0 <= i < es.len() implies json_wf(#[trigger] v@->Obj_1[i]) by {
                assert(decreases_to!(*v => (*v)->Object_0));
                assert(decreases_to!(*es => es@));
                assert(decreases_to!(es@ => es@[i]));
                assert(decreases_to!(es@[i] => es@[i].1));
                lemma_view_wf(&es[i].1);
            }
        },
        _ => {},
    }
}

/// Whether key `k` is among `ks`.
pub open spec fn key_in(ks: Seq<Seq<char>>, k: Seq<char>) -> bool {
    first_key(ks, k, 0) < ks.len()
}

/// A key at position `i` is found at `i` or before.
pub proof fn lemma_first_key_le(ks: Seq<Seq<char>>, k: Seq<char>, m: int, i: int)
    requires
        0 <= m <= i < ks.len(),
        ks[i] == k,
    ensures
        m <= first_key(ks, k, m) <= i,
    decreases i - m,
{
    if m < i && ks[m] != k {
        lemma_first_key_le(ks, k, m + 1, i);
    }
}

/// Structural, type-aware equality of JSON values: numbers by value,
/// whatever their representation; arrays pairwise in order; objects by
/// their key sets and the values under each key (its first entry).
pub open spec fn json_eq(a: JsonView, b: JsonView) -> bool
    decreases a,
{
    match a {
        JsonView::Null => b is Null,
        JsonView::Bool(x) => b is Bool && b->Bool_0 == x,
        JsonView::Num(x, _) => b is Num && b->Num_0 == x,
        JsonView::Str(x) => b is Str && b->Str_0 == x,
        JsonView::Arr(xs) => match b {
            JsonView::Arr(ys) => xs.len() == ys.len() && forall|i: int|
                0 <= i < xs.len() ==> json_eq(#[trigger] xs[i], ys[i]),
            _ => false,
        },
        JsonView::Obj(xk, xv) => match b {
            JsonView::Obj(yk, yv) => (forall|i: int|
                0 <= i < xk.len() ==> match #[trigger] lookup(yk, yv, xk[i]) {
                    Some(w) => 0 <= first_key(xk, xk[i], 0) < xv.len() && json_eq(xv[first_key(xk, xk[i], 0)], w),
                    None => false,
                }) && (forall|j: int| 0 <= j < yk.len() ==> #[trigger] key_in(xk, yk[j])),
            _ => false,
        },
    }
}

/// Finds the position of the first entry with key `key`.
pub fn find_index(es: &Vec<(String, Value)>, key: &String) -> (r: Option<usize>)
    ensures
        match r {
            Some(i) => i < es.len() && es[i as int].0@ == key@ && field_of(Value::Object(*es)@, key@) == Some(
                es[i as int].1@,
            ) && first_key(Value::Object(*es)@->Obj_0, key@, 0) == i,
            None => field_of(Value::Object(*es)@, key@) is None && first_key(Value::Object(*es)@->Obj_0, key@, 0)
                >= es.len(),
        },
{
    let ghost ks = Value::Object(*es)@->Obj_0;
    let ghost vs = Value::Object(*es)@->Obj_1;
    proof { lemma_object_view(*es); }
    let mut i: usize = 0;
    while i < es.len()
        invariant
            i <= es.len(),
            ks == Value::Object(*es)@->Obj_0,
            vs == Value::Object(*es)@->Obj_1,
            ks.len() == es.len(),
            vs.len() == es.len(),
            forall|j: int| 0 <= j < es.len() ==> #[trigger] ks[j] == es[j].0@,
            forall|j: int| 0 <= j < es.len() ==> #[trigger] vs[j] == es[j].1@,
            first_key(ks, key@, 0) == first_key(ks, key@, i as int),
        decreases es.len() - i,
    {
        if es[i].0 == *key {
            return Some(i);
        }
        i = i + 1;
    }
    None
}

/// Finds the value under `key` in an object's entries (its first entry).
pub fn find_entry<'a>(es: &'a Vec<(String, Value)>, key: &String) -> (r: Option<&'a Value>)
    ensures
        match r {
            Some(v) => field_of(Value::Object(*es)@, key@) == Some(v@),
            None => field_of(Value::Object(*es)@, key@) is None,
        },
{
    let ghost ks = Value::Object(*es)@->Obj_0;
    let ghost vs = Value::Object(*es)@->Obj_1;
    proof { lemma_object_view(*es); }
    let mut i: usize = 0;
    while i < es.len()
        invariant
            i <= es.len(),
            ks == Value::Object(*es)@->Obj_0,
            vs == Value::Object(*es)@->Obj_1,
            ks.len() == es.len(),
            vs.len() == es.len(),
            forall|j: int| 0 <= j < es.len() ==> #[trigger] ks[j] == es[j].0@,
            forall|j: int| 0 <= j < es.len() ==> #[trigger] vs[j] == es[j].1@,
            first_key(ks, key@, 0) == first_key(ks, key@, i as int),
        decreases es.len() - i,
    {
        if es[i].0 == *key {
            return Some(&es[i].1);
        }
        i = i + 1;
    }
    None
}

/// Copies a value, entry by entry.
pub fn deep_clone(v: &Value) -> (r: Value)
    ensures
        r@ == v@,
    decreases v, 1nat,
{
    match v {
        Value::Null => Value::Null,
        Value::Bool(b) => Value::Bool(*b),
        Value::Number(n) => Value::Number(*n),
        Value::String(s) => Value::String(s.clone()),
        Value::Array(a) => {
            let mut out: Vec<Value> = Vec::new();
            let mut i: usize = 0;
            while i < a.len()
                invariant
                    i <= a.len(),
                    *v == Value::Array(*a),
                    out.len() == i,
                    forall|j: int| 0 <= j < i ==> out[j]@ == a[j]@,
                decreases a.len() - i,
            {
                proof {
                    assert(decreases_to!(*v => (*v)->Array_0));
                    assert(decreases_to!(*a => a@));
                    assert(decreases_to!(a@ => a@[i as int]));
                }
                let c = deep_clone(&a[i]);
                out.push(c);
                i += 1;
            }
            let r = Value::Array(out);
            assert(r@->Arr_0 =~= v@->Arr_0);
            r
        },
        Value::Object(a) => {
            let out = clone_entries(a);
            Value::Object(out)
        },
    }
}

/// Copies the entries of an object.
pub fn clone_entries(a: &Vec<(String, Value)>) -> (out: Vec<(String, Value)>)
    ensures
        out.len() == a.len(),
        forall|j: int| 0 <= j < a.len() ==> out[j].0@ == a[j].0@ && out[j].1@ == a[j].1@,
        Value::Object(out)@ == Value::Object(*a)@,
    decreases Value::Object(*a), 0nat,
{
    let ghost v = Value::Object(*a);
    let mut out: Vec<(String, Value)> = Vec::new();
    let mut i: usize = 0;
    while i < a.len()
        invariant
            i <= a.len(),
            v == Value::Object(*a),
            out.len() == i,
            forall|j: int| 0 <= j < i ==> out[j].0@ == a[j].0@ && out[j].1@ == a[j].1@,
        decreases a.len() - i,
    {
        proof {
            assert(decreases_to!(v => v->Object_0));
            assert(decreases_to!(*a => a@));
            assert(decreases_to!(a@ => a@[i as int]));
            assert(decreases_to!(a@[i as int] => a@[i as int].1));
        }
        let c = deep_clone(&a[i].1);
        out.push((a[i].0.clone(), c));
        i += 1;
    }
    proof {
        lemma_object_view(out);
        lemma_object_view(*a);
    }
    assert(Value::Object(out)@->Obj_0 =~= Value::Object(*a)@->Obj_0);
    assert(Value::Object(out)@->Obj_1 =~= Value::Object(*a)@->Obj_1);
    out
}

/// Structural equality of two values, as [`json_eq`] states it.
pub fn values_equal(a: &Value, b: &Value) -> (r: bool)
    ensures
        r == json_eq(a@, b@),
    decreases a,
{
    proof {
        lemma_view_shape(a);
        lemma_view_shape(b);
    }
    match a {
        Value::Null => match b {
            Value::Null => true,
            _ => false,
        },
        Value::Bool(x) => match b {
            Value::Bool(y) => *x == *y,
            _ => false,
        },
        Value::Number(x) => match b {
            Value::Number(y) => x.scaled == y.scaled,
            _ => false,
        },
        Value::String(x) => match b {
            Value::String(y) => *x == *y,
            _ => false,
        },
        Value::Array(xs) => match b {
            Value::Array(ys) => {
                if xs.len() != ys.len() {
                    return false;
                }
                let mut i: usize = 0;
                while i < xs.len()
                    invariant
                        i <= xs.len(),
                        xs.len() == ys.len(),
                        *a == Value::Array(*xs),
                        *b == Value::Array(*ys),
                        a@ is Arr && a@->Arr_0.len() == xs.len(),
                        b@ is Arr && b@->Arr_0.len() == ys.len(),
                        forall|j: int| 0 <= j < xs.len() ==> #[trigger] a@->Arr_0[j] == xs[j]@,
                        forall|j: int| 0 <= j < ys.len() ==> #[trigger] b@->Arr_0[j] == ys[j]@,
                        forall|j: int| 0 <= j < i ==> json_eq(#[trigger] a@->Arr_0[j], b@->Arr_0[j]),
                    decreases xs.len() - i,
                {
                    proof {
                        assert(decreases_to!(*a => (*a)->Array_0));
                        assert(decreases_to!(*xs => xs@));
                        assert(decreases_to!(xs@ => xs@[i as int]));
                    }
                    if !values_equal(&xs[i], &ys[i]) {
                        assert(!json_eq(a@->Arr_0[i as int], b@->Arr_0[i as int]));
                        return false;
                    }
                    i += 1;
                }
                true
            },
            _ => false,
        },
        Value::Object(xs) => match b {
            Value::Object(ys) => {
                let ghost ak = a@->Obj_0;
                let ghost av = a@->Obj_1;
                let ghost bk = b@->Obj_0;
                let ghost bv = b@->Obj_1;
                let mut i: usize = 0;
                while i < xs.len()
                    invariant
                        i <= xs.len(),
                        *a == Value::Object(*xs),
                        *b == Value::Object(*ys),
                        ak == a@->Obj_0,
                        av == a@->Obj_1,
                        bk == b@->Obj_0,
                        bv == b@->Obj_1,
                        ak.len() == xs.len(),
                        av.len() == xs.len(),
                        forall|j: int| 0 <= j < xs.len() ==> #[trigger] ak[j] == xs[j].0@,
                        forall|j: int| 0 <= j < xs.len() ==> #[trigger] av[j] == xs[j].1@,
                        forall|j: int| 0 <= j < i ==> match #[trigger] lookup(bk, bv, ak[j]) {
                            Some(w) => 0 <= first_key(ak, ak[j], 0) < av.len() && json_eq(av[first_key(ak, ak[j], 0)], w),
                            None => false,
                        },
                    decreases xs.len() - i,
                {
                    assert(ak[i as int] == xs[i as int].0@);
                    proof { lemma_first_key_le(ak, ak[i as int], 0, i as int); }
                    let ix = match find_index(xs, &xs[i].0) {
                        Some(ix) => ix,
                        None => i,
                    };
                    proof {
                        assert(decreases_to!(*a => (*a)->Object_0));
                        assert(decreases_to!(*xs => xs@));
                        assert(decreases_to!(xs@ => xs@[ix as int]));
                        assert(decreases_to!(xs@[ix as int] => xs@[ix as int].1));
                    }
                    match find_entry(ys, &xs[i].0) {
                        Some(w) => {
                            if !values_equal(&xs[ix].1, w) {
                                return false;
                            }
                        },
                        None => {
                            return false;
                        },
                    }
                    i += 1;
                }
                let mut j: usize = 0;
                while j < ys.len()
                    invariant
                        j <= ys.len(),
                        *a == Value::Object(*xs),
                        *b == Value::Object(*ys),
                        ak == a@->Obj_0,
                        bk == b@->Obj_0,
                        bk.len() == ys.len(),
                        forall|k: int| 0 <= k < ys.len() ==> #[trigger] bk[k] == ys[k].0@,
                        forall|k: int| 0 <= k < j ==> #[trigger] key_in(ak, bk[k]),
                    decreases ys.len() - j,
                {
                    assert(bk[j as int] == ys[j as int].0@);
                    if find_index(xs, &ys[j].0).is_none() {
                        assert(!key_in(ak, bk[j as int]));
                        return false;
                    }
                    j += 1;
                }
                true
            },
            _ => false,
        },
    }
}

} // verus!
