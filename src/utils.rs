use crate::text::{parse_index, parse_index_exec, split_dots, split_path, utf8_len, byte_len};
use crate::value::{find_index, first_key, lemma_view_shape, JsonView, Value};
use vstd::prelude::*;

verus! {

broadcast use vstd::std_specs::vec::group_vec_axioms;

/// Whether a value is a number.
pub fn is_numeric(value: &Value) -> (r: bool)
    ensures
        r == value@ is Num,
{
    proof { lemma_view_shape(value); }
    match value {
        Value::Number(_) => true,
        _ => false,
    }
}

/// Whether a value counts as true: not null, not `false`, not zero, and
/// not an empty string, array or object.
pub open spec fn truthy(v: JsonView) -> bool {
    match v {
        JsonView::Null => false,
        JsonView::Bool(b) => b,
        JsonView::Num(x, _) => x != 0,
        JsonView::Str(s) => s.len() > 0,
        JsonView::Arr(xs) => xs.len() > 0,
        JsonView::Obj(ks, _) => ks.len() > 0,
    }
}

/// Whether a value counts as true (see [`truthy`]).
pub fn is_truthy(value: &Value) -> (r: bool)
    ensures
        r == truthy(value@),
{
    proof { lemma_view_shape(value); }
    match value {
        Value::Null => false,
        Value::Bool(b) => *b,
        Value::Number(n) => n.scaled != 0,
        Value::String(s) => s.as_str().unicode_len() > 0,
        Value::Array(xs) => xs.len() > 0,
        Value::Object(es) => es.len() > 0,
    }
}

/// Whether a value can be indexed: an array or a string.
pub fn is_array_like(value: &Value) -> (r: bool)
    ensures
        r == (value@ is Arr || value@ is Str),
{
    proof { lemma_view_shape(value); }
    match value {
        Value::Array(_) => true,
        Value::String(_) => true,
        _ => false,
    }
}

/// The length of an array, or of a string in bytes; `None` for other values.
pub fn get_length(value: &Value) -> (r: Option<u128>)
    ensures
        r == match value@ {
            JsonView::Arr(xs) => Some(xs.len() as u128),
            JsonView::Str(s) => Some(utf8_len(s) as u128),
            _ => None::<u128>,
        },
{
    proof { lemma_view_shape(value); }
    match value {
        Value::Array(xs) => Some(xs.len() as u128),
        Value::String(s) => Some(byte_len(s)),
        _ => None,
    }
}

/// Whether two values are of the same kind (both null, both numbers, ...).
pub fn same_type(a: &Value, b: &Value) -> (r: bool)
    ensures
        r == ((a@ is Null && b@ is Null) || (a@ is Bool && b@ is Bool) || (a@ is Num && b@ is Num) || (a@ is Str
            && b@ is Str) || (a@ is Arr && b@ is Arr) || (a@ is Obj && b@ is Obj)),
{
    proof {
        lemma_view_shape(a);
        lemma_view_shape(b);
    }
    match (a, b) {
        (Value::Null, Value::Null) => true,
        (Value::Bool(_), Value::Bool(_)) => true,
        (Value::Number(_), Value::Number(_)) => true,
        (Value::String(_), Value::String(_)) => true,
        (Value::Array(_), Value::Array(_)) => true,
        (Value::Object(_), Value::Object(_)) => true,
        _ => false,
    }
}

/// The name of a value's kind.
pub open spec fn kind_name(v: JsonView) -> Seq<char> {
    match v {
        JsonView::Null => "null"@,
        JsonView::Bool(_) => "boolean"@,
        JsonView::Num(_, _) => "number"@,
        JsonView::Str(_) => "string"@,
        JsonView::Arr(_) => "array"@,
        JsonView::Obj(_, _) => "object"@,
    }
}

/// The name of a value's kind (see [`kind_name`]).
pub fn get_value_type(value: &Value) -> (r: &'static str)
    ensures
        r@ == kind_name(value@),
{
    proof { lemma_view_shape(value); }
    match value {
        Value::Null => "null",
        Value::Bool(_) => "boolean",
        Value::Number(_) => "number",
        Value::String(_) => "string",
        Value::Array(_) => "array",
        Value::Object(_) => "object",
    }
}

/// The value that the path segments `segs`, from `d` on, lead to from `v`:
/// an object's field, or an array's element at an index segment.
pub open spec fn nested(v: JsonView, segs: Seq<Seq<char>>, d: int) -> Option<JsonView>
    decreases v,
{
    if d < 0 || d >= segs.len() {
        Some(v)
    } else {
        match v {
            JsonView::Obj(ks, vs) => {
                let i = first_key(ks, segs[d], 0);
                if 0 <= i < vs.len() {
                    nested(vs[i], segs, d + 1)
                } else {
                    None
                }
            },
            JsonView::Arr(xs) => match parse_index(segs[d]) {
                Some(k) => if 0 <= k < xs.len() {
                    nested(xs[k], segs, d + 1)
                } else {
                    None
                },
                None => None,
            },
            _ => None,
        }
    }
}

/// The value at a dot-separated path, if there is one (see [`nested`]).
pub fn get_nested_value<'a>(value: &'a Value, path: &String) -> (r: Option<&'a Value>)
    ensures
        match r {
            Some(x) => nested(value@, split_dots(path@), 0) == Some(x@),
            None => nested(value@, split_dots(path@), 0) is None,
        },
{
    let segs = split_path(path);
    nested_from(value, &segs, 0)
}

fn nested_from<'a>(v: &'a Value, segs: &Vec<String>, d: usize) -> (r: Option<&'a Value>)
    ensures
        match r {
            Some(x) => nested(v@, segs@.map_values(|s: String| s@), d as int) == Some(x@),
            None => nested(v@, segs@.map_values(|s: String| s@), d as int) is None,
        },
    decreases v,
{
    let ghost sv = segs@.map_values(|s: String| s@);
    proof { lemma_view_shape(v); }
    if d >= segs.len() {
        return Some(v);
    }
    assert(sv[d as int] == segs[d as int]@);
    match v {
        Value::Object(es) => match find_index(es, &segs[d]) {
            Some(k) => {
                proof {
                    assert(decreases_to!(*v => (*v)->Object_0));
                    assert(decreases_to!(*es => es@));
                    assert(decreases_to!(es@ => es@[k as int]));
                    assert(decreases_to!(es@[k as int] => es@[k as int].1));
                }
                nested_from(&es[k].1, segs, d + 1)
            },
            None => None,
        },
        Value::Array(xs) => match parse_index_exec(&segs[d]) {
            Some(k) => {
                if k < xs.len() {
                    proof {
                        assert(decreases_to!(*v => (*v)->Array_0));
                        assert(decreases_to!(*xs => xs@));
                        assert(decreases_to!(xs@ => xs@[k as int]));
                    }
                    nested_from(&xs[k], segs, d + 1)
                } else {
                    None
                }
            },
            None => None,
        },
        _ => None,
    }
}


/// An object with the entry `k: v` set: the value of its first entry with
/// key `k` replaced, or the entry added at the end.
pub open spec fn set_entry(o: JsonView, k: Seq<char>, v: JsonView) -> JsonView {
    match o {
        JsonView::Obj(ks, vs) => {
            let i = first_key(ks, k, 0);
            if 0 <= i < ks.len() && i < vs.len() {
                JsonView::Obj(ks, vs.update(i, v))
            } else {
                JsonView::Obj(ks.push(k), vs.push(v))
            }
        },
        _ => o,
    }
}

/// The object `a` with the first `n` entries of `b` set into it in order.
pub open spec fn merged(a: JsonView, b: JsonView, n: int) -> JsonView
    decreases n,
{
    match b {
        JsonView::Obj(bk, bv) => if n <= 0 || n > bk.len() || n > bv.len() {
            a
        } else {
            set_entry(merged(a, b, n - 1), bk[n - 1], bv[n - 1])
        },
        _ => a,
    }
}

/// Merges two objects: the entries of `b` override or extend those of `a`.
/// When either is not an object, the result is `b`.
pub fn merge_objects(a: &Value, b: &Value) -> (r: Value)
    ensures
        r@ == if a@ is Obj && b@ is Obj {
            merged(a@, b@, b@->Obj_1.len() as int)
        } else {
            b@
        },
{
    proof {
        lemma_view_shape(a);
        lemma_view_shape(b);
    }
    match (a, b) {
        (Value::Object(ae), Value::Object(be)) => {
            let mut out = crate::value::clone_entries(ae);
            let mut i: usize = 0;
            while i < be.len()
                invariant
                    i <= be.len(),
                    *b == Value::Object(*be),
                    b@->Obj_0.len() == be.len(),
                    b@->Obj_1.len() == be.len(),
                    forall|k: int| 0 <= k < be.len() ==> #[trigger] b@->Obj_0[k] == be[k].0@,
                    forall|k: int| 0 <= k < be.len() ==> #[trigger] b@->Obj_1[k] == be[k].1@,
                    Value::Object(out)@ == merged(a@, b@, i as int),
                decreases be.len() - i,
            {
                proof { crate::value::lemma_object_view(out); }
                let ghost before = Value::Object(out)@;
                let v = crate::value::deep_clone(&be[i].1);
                match find_index(&out, &be[i].0) {
                    Some(k) => {
                        proof { crate::value::lemma_first_key_range(before->Obj_0, be[i as int].0@, 0); }
                        let key = out[k].0.clone();
                        out.set(k, (key, v));
                        proof { crate::value::lemma_object_view(out); }
                        assert(Value::Object(out)@->Obj_0 =~= before->Obj_0);
                        assert(Value::Object(out)@->Obj_1 =~= before->Obj_1.update(k as int, be[i as int].1@));
                    },
                    None => {
                        proof { crate::value::lemma_first_key_range(before->Obj_0, be[i as int].0@, 0); }
                        out.push((be[i].0.clone(), v));
                        proof { crate::value::lemma_object_view(out); }
                        assert(Value::Object(out)@->Obj_0 =~= before->Obj_0.push(be[i as int].0@));
                        assert(Value::Object(out)@->Obj_1 =~= before->Obj_1.push(be[i as int].1@));
                    },
                }
                i = i + 1;
            }
            Value::Object(out)
        },
        _ => crate::value::deep_clone(b),
    }
}

/// A value as display text: a string as itself, a number as its decimal
/// text, `null`, `true` and `false` as those words, and placeholders for
/// arrays and objects.
pub open spec fn display_text(v: JsonView) -> Seq<char> {
    match v {
        JsonView::Null => "null"@,
        JsonView::Bool(b) => if b { "true"@ } else { "false"@ },
        JsonView::Num(x, _) => crate::script::number_text(x),
        JsonView::Str(s) => s,
        JsonView::Arr(_) => "[Array]"@,
        JsonView::Obj(_, _) => "[Object]"@,
    }
}

/// A value as display text (see [`display_text`]).
pub fn value_to_string(value: &Value) -> (r: String)
    ensures
        r@ == display_text(value@),
{
    proof { lemma_view_shape(value); }
    match value {
        Value::Null => crate::compile::text("null"),
        Value::Bool(b) => if *b { crate::compile::text("true") } else { crate::compile::text("false") },
        Value::Number(n) => {
            let mut out: Vec<char> = Vec::new();
            crate::script::push_number(n.scaled, &mut out);
            assert(out@ =~= crate::script::number_text(n.scaled as int));
            crate::text::string_of(out.as_slice())
        },
        Value::String(s) => s.clone(),
        Value::Array(_) => crate::compile::text("[Array]"),
        Value::Object(_) => crate::compile::text("[Object]"),
    }
}
} // verus!
