//! JSON text of values, and the scripts that `$where` evaluates.
use crate::error::{ErrorKind, SiftError};
use crate::text::{chars_of, string_of};
use crate::value::{lemma_view_shape, JsonView, Value, SCALE};
use vstd::prelude::*;

verus! {

broadcast use vstd::std_specs::vec::group_vec_axioms;

/// The character of a decimal digit.
pub open spec fn digit_char(d: int) -> char {
    if d == 0 { '0' } else if d == 1 { '1' } else if d == 2 { '2' } else if d == 3 { '3' } else if d == 4 {
        '4'
    } else if d == 5 { '5' } else if d == 6 { '6' } else if d == 7 { '7' } else if d == 8 { '8' } else { '9' }
}

/// The character of a hexadecimal digit, in lower case.
pub open spec fn hex_char(d: int) -> char {
    if d < 10 { digit_char(d) } else if d == 10 { 'a' } else if d == 11 { 'b' } else if d == 12 { 'c' } else if d
        == 13 { 'd' } else if d == 14 { 'e' } else { 'f' }
}

/// The decimal digits of `n`, without leading zeros.
pub open spec fn digits_of(n: nat) -> Seq<char>
    decreases n,
{
    if n < 10 {
        seq![digit_char(n as int)]
    } else {
        digits_of(n / 10).push(digit_char((n % 10) as int))
    }
}

/// The last `k` decimal digits of `n`, with leading zeros.
pub open spec fn fixed_digits(n: nat, k: nat) -> Seq<char>
    decreases k,
{
    if k == 0 {
        Seq::empty()
    } else {
        fixed_digits(n / 10, (k - 1) as nat).push(digit_char((n % 10) as int))
    }
}

/// Digits without their trailing zeros.
pub open spec fn trim_zeros(s: Seq<char>) -> Seq<char>
    decreases s.len(),
{
    if s.len() > 0 && s.last() == '0' {
        trim_zeros(s.drop_last())
    } else {
        s
    }
}

/// The JSON text of a fixed-point number: its integer part, and, when it
/// has a fraction, its fractional digits without trailing zeros.
pub open spec fn number_text(x: int) -> Seq<char> {
    let a = if x < 0 { -x } else { x };
    let sign = if x < 0 { seq!['-'] } else { Seq::empty() };
    let whole = digits_of((a / (SCALE as int)) as nat);
    let frac = a % (SCALE as int);
    if frac == 0 {
        sign + whole
    } else {
        sign + whole + seq!['.'] + trim_zeros(fixed_digits(frac as nat, 18))
    }
}

/// A character as it stands inside a JSON string: quotes and backslashes
/// escaped, control characters as `\u00XX`.
pub open spec fn escaped_char(c: char) -> Seq<char> {
    if c == '"' {
        seq!['\\', '"']
    } else if c == '\\' {
        seq!['\\', '\\']
    } else if (c as u32) < 0x20 {
        seq!['\\', 'u', '0', '0', hex_char((c as u32) as int / 16), hex_char((c as u32) as int % 16)]
    } else {
        seq![c]
    }
}

/// The characters of a string as they stand inside a JSON string.
pub open spec fn escaped(s: Seq<char>) -> Seq<char>
    decreases s.len(),
{
    if s.len() == 0 {
        Seq::empty()
    } else {
        escaped(s.drop_last()) + escaped_char(s.last())
    }
}

/// A string as a JSON string literal.
pub open spec fn quoted(s: Seq<char>) -> Seq<char> {
    seq!['"'] + escaped(s) + seq!['"']
}

/// The JSON text of a value.
pub open spec fn json_text_of(v: JsonView) -> Seq<char>
    decreases v, 1nat, 0nat,
{
    match v {
        JsonView::Null => seq!['n', 'u', 'l', 'l'],
        JsonView::Bool(b) => if b { seq!['t', 'r', 'u', 'e'] } else { seq!['f', 'a', 'l', 's', 'e'] },
        JsonView::Num(x, _) => number_text(x),
        JsonView::Str(s) => quoted(s),
        JsonView::Arr(xs) => seq!['['] + items_text(xs, xs.len() as int) + seq![']'],
        JsonView::Obj(ks, vs) => seq!['{'] + entries_text(ks, vs, vs.len() as int) + seq!['}'],
    }
}

/// The JSON texts of the first `n` of `xs`, separated by commas.
pub open spec fn items_text(xs: Seq<JsonView>, n: int) -> Seq<char>
    decreases xs, 0nat, n,
{
    if n <= 0 || n > xs.len() {
        Seq::empty()
    } else if n == 1 {
        json_text_of(xs[0])
    } else {
        items_text(xs, n - 1) + seq![','] + json_text_of(xs[n - 1])
    }
}

/// The first `n` entries of an object as JSON text, separated by commas.
pub open spec fn entries_text(ks: Seq<Seq<char>>, vs: Seq<JsonView>, n: int) -> Seq<char>
    decreases vs, 0nat, n,
{
    if n <= 0 || n > vs.len() || n > ks.len() {
        Seq::empty()
    } else if n == 1 {
        quoted(ks[0]) + seq![':'] + json_text_of(vs[0])
    } else {
        entries_text(ks, vs, n - 1) + seq![','] + quoted(ks[n - 1]) + seq![':'] + json_text_of(vs[n - 1])
    }
}

fn digit_exec(d: u128) -> (c: char)
    requires
        d < 10,
    ensures
        c == digit_char(d as int),
{
    if d == 0 { '0' } else if d == 1 { '1' } else if d == 2 { '2' } else if d == 3 { '3' } else if d == 4 {
        '4'
    } else if d == 5 { '5' } else if d == 6 { '6' } else if d == 7 { '7' } else if d == 8 { '8' } else { '9' }
}

fn hex_exec(d: u32) -> (c: char)
    requires
        d < 16,
    ensures
        c == hex_char(d as int),
{
    if d < 10 {
        digit_exec(d as u128)
    } else if d == 10 { 'a' } else if d == 11 { 'b' } else if d == 12 { 'c' } else if d == 13 { 'd' } else if d
        == 14 { 'e' } else { 'f' }
}

fn push_digits(n: u128, out: &mut Vec<char>)
    ensures
        final(out)@ == old(out)@ + digits_of(n as nat),
    decreases n,
{
    if n >= 10 {
        push_digits(n / 10, out);
    }
    let c = digit_exec(n % 10);
    let ghost before = out@;
    out.push(c);
    proof {
        if n >= 10 {
            assert(out@ =~= old(out)@ + digits_of(n as nat));
        } else {
            assert(out@ =~= old(out)@ + digits_of(n as nat));
        }
    }
}

fn push_fixed_digits(n: u128, k: u32, out: &mut Vec<char>)
    ensures
        final(out)@ == old(out)@ + fixed_digits(n as nat, k as nat),
    decreases k,
{
    if k == 0 {
        assert(out@ =~= old(out)@ + fixed_digits(n as nat, 0));
        return;
    }
    push_fixed_digits(n / 10, k - 1, out);
    let c = digit_exec(n % 10);
    out.push(c);
    assert(out@ =~= old(out)@ + fixed_digits(n as nat, k as nat));
}

pub(crate) fn push_number(x: i128, out: &mut Vec<char>)
    ensures
        final(out)@ == old(out)@ + number_text(x as int),
{
    let a: u128 = if x < 0 { ((-(x + 1)) as u128) + 1 } else { x as u128 };
    let s = SCALE as u128;
    let ghost start = out@;
    if x < 0 {
        out.push('-');
    }
    let ghost signed = out@;
    push_digits(a / s, out);
    let frac = a % s;
    let ghost whole_end = out@;
    if frac != 0 {
        out.push('.');
        let mut fd: Vec<char> = Vec::new();
        push_fixed_digits(frac, 18, &mut fd);
        assert(fd@ =~= fixed_digits(frac as nat, 18));
        while fd.len() > 0 && fd[fd.len() - 1] == '0'
            invariant
                trim_zeros(fd@) == trim_zeros(fixed_digits(frac as nat, 18)),
            decreases fd.len(),
        {
            fd.pop();
        }
        let ghost dot_end = out@;
        let mut i: usize = 0;
        while i < fd.len()
            invariant
                i <= fd.len(),
                out@ == dot_end + fd@.take(i as int),
            decreases fd.len() - i,
        {
            out.push(fd[i]);
            assert(fd@.take(i as int + 1) =~= fd@.take(i as int).push(fd@[i as int]));
            i = i + 1;
        }
        assert(fd@.take(fd.len() as int) =~= fd@);
        assert(trim_zeros(fd@) == fd@);
    }
    proof {
        let sign = if x < 0 { seq!['-'] } else { Seq::<char>::empty() };
        assert(signed =~= start + sign);
        assert((a as int) == (if (x as int) < 0 { -(x as int) } else { x as int }));
        if frac == 0 {
            assert(out@ =~= start + (sign + digits_of((a / s) as nat)));
        } else {
            assert(out@ =~= start + (sign + digits_of((a / s) as nat) + seq!['.'] + trim_zeros(fixed_digits(frac as nat, 18))));
        }
    }
}

fn push_quoted(s: &String, out: &mut Vec<char>)
    ensures
        final(out)@ == old(out)@ + quoted(s@),
{
    let cs = chars_of(s.as_str());
    out.push('"');
    let ghost start = out@;
    let mut i: usize = 0;
    while i < cs.len()
        invariant
            i <= cs.len(),
            cs@ == s@,
            out@ == start + escaped(cs@.take(i as int)),
        decreases cs.len() - i,
    {
        let c = cs[i];
        let ghost before = out@;
        if c == '"' {
            out.push('\\');
            out.push('"');
        } else if c == '\\' {
            out.push('\\');
            out.push('\\');
        } else if (c as u32) < 0x20 {
            out.push('\\');
            out.push('u');
            out.push('0');
            out.push('0');
            out.push(hex_exec((c as u32) / 16));
            out.push(hex_exec((c as u32) % 16));
        } else {
            out.push(c);
        }
        assert(out@ =~= before + escaped_char(c));
        assert(cs@.take(i as int + 1).drop_last() =~= cs@.take(i as int));
        assert(out@ =~= start + escaped(cs@.take(i as int + 1)));
        i = i + 1;
    }
    assert(cs@.take(cs.len() as int) =~= cs@);
    out.push('"');
    assert(out@ =~= old(out)@ + quoted(s@));
}

fn push_json(v: &Value, out: &mut Vec<char>)
    ensures
        final(out)@ == old(out)@ + json_text_of(v@),
    decreases v,
{
    proof { lemma_view_shape(v); }
    match v {
        Value::Null => {
            out.push('n');
            out.push('u');
            out.push('l');
            out.push('l');
            assert(out@ =~= old(out)@ + json_text_of(v@));
        },
        Value::Bool(b) => {
            if *b {
                out.push('t');
                out.push('r');
                out.push('u');
                out.push('e');
            } else {
                out.push('f');
                out.push('a');
                out.push('l');
                out.push('s');
                out.push('e');
            }
            assert(out@ =~= old(out)@ + json_text_of(v@));
        },
        Value::Number(n) => {
            push_number(n.scaled, out);
        },
        Value::String(s) => {
            push_quoted(s, out);
        },
        Value::Array(xs) => {
            out.push('[');
            let ghost start = out@;
            let mut i: usize = 0;
            while i < xs.len()
                invariant
                    i <= xs.len(),
                    *v == Value::Array(*xs),
                    v@->Arr_0.len() == xs.len(),
                    forall|k: int| 0 <= k < xs.len() ==> #[trigger] v@->Arr_0[k] == xs[k]@,
                    out@ == start + items_text(v@->Arr_0, i as int),
                decreases xs.len() - i,
            {
                proof {
                    assert(decreases_to!(*v => (*v)->Array_0));
                    assert(decreases_to!(*xs => xs@));
                    assert(decreases_to!(xs@ => xs@[i as int]));
                }
                let ghost before = out@;
                if i > 0 {
                    out.push(',');
                }
                push_json(&xs[i], out);
                assert(out@ =~= start + items_text(v@->Arr_0, i as int + 1));
                i = i + 1;
            }
            out.push(']');
            assert(out@ =~= old(out)@ + json_text_of(v@));
        },
        Value::Object(es) => {
            out.push('{');
            let ghost start = out@;
            let mut i: usize = 0;
            while i < es.len()
                invariant
                    i <= es.len(),
                    *v == Value::Object(*es),
                    v@->Obj_0.len() == es.len(),
                    v@->Obj_1.len() == es.len(),
                    forall|k: int| 0 <= k < es.len() ==> #[trigger] v@->Obj_0[k] == es[k].0@,
                    forall|k: int| 0 <= k < es.len() ==> #[trigger] v@->Obj_1[k] == es[k].1@,
                    out@ == start + entries_text(v@->Obj_0, v@->Obj_1, i as int),
                decreases es.len() - i,
            {
                proof {
                    assert(decreases_to!(*v => (*v)->Object_0));
                    assert(decreases_to!(*es => es@));
                    assert(decreases_to!(es@ => es@[i as int]));
                    assert(decreases_to!(es@[i as int] => es@[i as int].1));
                }
                if i > 0 {
                    out.push(',');
                }
                push_quoted(&es[i].0, out);
                out.push(':');
                push_json(&es[i].1, out);
                assert(out@ =~= start + entries_text(v@->Obj_0, v@->Obj_1, i as int + 1));
                i = i + 1;
            }
            out.push('}');
            assert(out@ =~= old(out)@ + json_text_of(v@));
        },
    }
}

/// The JSON text of a value (see [`json_text_of`]).
pub fn json_text(v: &Value) -> (r: String)
    ensures
        r@ == json_text_of(v@),
{
    let mut out: Vec<char> = Vec::new();
    push_json(v, &mut out);
    assert(out@ =~= json_text_of(v@));
    string_of(out.as_slice())
}

/// The script that evaluates the expression `expr` with `this` bound to the
/// document written as `doc`.
pub open spec fn where_script(expr: Seq<char>, doc: Seq<char>) -> Seq<char> {
    "const thisObj = "@ + doc + "; (function() { return "@ + expr + "; }).call(thisObj);"@
}

/// Builds the script of [`where_script`].
pub fn build_where_script(expr: &str, doc: &str) -> (r: String)
    ensures
        r@ == where_script(expr@, doc@),
{
    let head = crate::compile::text("const thisObj = ");
    let mid = crate::compile::text("; (function() { return ");
    let tail = crate::compile::text("; }).call(thisObj);");
    let r = head.concat(doc).concat(mid.as_str()).concat(expr).concat(tail.as_str());
    assert(r@ =~= where_script(expr@, doc@));
    r
}

/// Runs a script in a fresh JavaScript context and coerces its value to a
/// boolean the way JavaScript does, or gives the engine's error message.
/// Relies on boa_engine's `Context::eval` and `JsValue::to_boolean`. A script
/// may read the clock or random numbers, so nothing is said of the result.
#[verifier::external_body]
fn eval_js_truthy(script: &str) -> (r: Result<bool, String>) {
    let mut context = boa_engine::Context::default();
    match context.eval(boa_engine::Source::from_bytes(script)) {
        Ok(value) => Ok(value.to_boolean()),
        Err(e) => Err(format!("{}", e)),
    }
}

/// The verdict of a script run: its boolean, or an evaluation error.
pub fn where_outcome(r: Result<bool, String>) -> (o: Result<bool, SiftError>)
    ensures
        match r {
            Ok(b) => o == Ok::<bool, SiftError>(b),
            Err(_) => o is Err && o->Err_0@ == ErrorKind::EvaluationError,
        },
{
    match r {
        Ok(b) => Ok(b),
        Err(m) => {
            let head = crate::compile::text("Script execution error: ");
            Err(SiftError::EvaluationError(head.concat(m.as_str())))
        },
    }
}

/// Evaluates the expression `expr` with `this` bound to the document `doc`.
/// Fails only with an evaluation error.
pub fn evaluate_where(expr: &String, doc: &Value) -> (r: Result<bool, SiftError>)
    ensures
        r is Err ==> r->Err_0@ == ErrorKind::EvaluationError,
{
    let text = json_text(doc);
    let script = build_where_script(expr.as_str(), text.as_str());
    where_outcome(eval_js_truthy(script.as_str()))
}

} // verus!
