use crate::error::{ErrorKind, SiftError};
use crate::ops::{build_regex, regex_valid, JsonType, OpModel, Operation, ops_view, queries_view, values_view};
use crate::text::{chars_of, is_dollar, starts_with_dollar, string_of};
use crate::value::{deep_clone, first_key, lemma_first_key_range, lemma_object_view, lemma_view_shape, JsonView, Value, SCALE};
use vstd::prelude::*;

verus! {

broadcast use vstd::std_specs::vec::group_vec_axioms;

/// The operators a query can name.
#[derive(Clone, Copy, Debug, PartialEq, Eq, Structural)]
pub enum OperatorKind {
    Eq,
    Ne,
    Gt,
    Gte,
    Lt,
    Lte,
    In,
    Nin,
    All,
    Exists,
    Regex,
    And,
    Or,
    Not,
    Size,
    Mod,
    Type,
    ElemMatch,
    Nor,
    Where,
}

/// The operator a `$`-name stands for.
pub open spec fn operator_of(name: Seq<char>) -> Option<OperatorKind> {
    if name == "$eq"@ {
        Some(OperatorKind::Eq)
    } else if name == "$ne"@ {
        Some(OperatorKind::Ne)
    } else if name == "$gt"@ {
        Some(OperatorKind::Gt)
    } else if name == "$gte"@ {
        Some(OperatorKind::Gte)
    } else if name == "$lt"@ {
        Some(OperatorKind::Lt)
    } else if name == "$lte"@ {
        Some(OperatorKind::Lte)
    } else if name == "$in"@ {
        Some(OperatorKind::In)
    } else if name == "$nin"@ {
        Some(OperatorKind::Nin)
    } else if name == "$all"@ {
        Some(OperatorKind::All)
    } else if name == "$exists"@ {
        Some(OperatorKind::Exists)
    } else if name == "$regex"@ {
        Some(OperatorKind::Regex)
    } else if name == "$and"@ {
        Some(OperatorKind::And)
    } else if name == "$or"@ {
        Some(OperatorKind::Or)
    } else if name == "$not"@ {
        Some(OperatorKind::Not)
    } else if name == "$size"@ {
        Some(OperatorKind::Size)
    } else if name == "$mod"@ {
        Some(OperatorKind::Mod)
    } else if name == "$type"@ {
        Some(OperatorKind::Type)
    } else if name == "$elemMatch"@ {
        Some(OperatorKind::ElemMatch)
    } else if name == "$nor"@ {
        Some(OperatorKind::Nor)
    } else if name == "$where"@ {
        Some(OperatorKind::Where)
    } else {
        None
    }
}

/// Whether a top-level key is a logical operator, which applies to the
/// whole document rather than to a field.
pub open spec fn is_logical(key: Seq<char>) -> bool {
    key == "$and"@ || key == "$or"@ || key == "$not"@ || key == "$nor"@ || key == "$where"@
}

/// The type family a `$type` name stands for; other names match nothing.
pub open spec fn type_of_name(s: Seq<char>) -> JsonType {
    if s == "null"@ {
        JsonType::Null
    } else if s == "bool"@ || s == "boolean"@ {
        JsonType::Bool
    } else if s == "number"@ {
        JsonType::Number
    } else if s == "double"@ {
        JsonType::Double
    } else if s == "int"@ || s == "integer"@ || s == "long"@ {
        JsonType::Int
    } else if s == "string"@ {
        JsonType::String
    } else if s == "array"@ {
        JsonType::Array
    } else if s == "object"@ {
        JsonType::Object
    } else {
        JsonType::Unknown
    }
}

/// The type family of a BSON type number.
pub open spec fn bson_type(n: int) -> Option<JsonType> {
    if n == 1 {
        Some(JsonType::Double)
    } else if n == 2 {
        Some(JsonType::String)
    } else if n == 3 {
        Some(JsonType::Object)
    } else if n == 4 {
        Some(JsonType::Array)
    } else if n == 8 {
        Some(JsonType::Bool)
    } else if n == 10 {
        Some(JsonType::Null)
    } else if n == 16 || n == 18 {
        Some(JsonType::Int)
    } else {
        None
    }
}

/// A value read as an unsigned 64-bit integer: a number written as a
/// non-negative integer that fits.
pub open spec fn as_u64(v: JsonView) -> Option<int> {
    match v {
        JsonView::Num(x, f) => if !f && x >= 0 && x % (SCALE as int) == 0 && x / (SCALE as int) <= u64::MAX {
            Some(x / (SCALE as int))
        } else {
            None
        },
        _ => None,
    }
}

/// The keys of the first `n` entries that are not operators.
pub open spec fn plain_keys(ks: Seq<Seq<char>>, n: int) -> Seq<Seq<char>>
    decreases n,
{
    if n <= 0 || n > ks.len() {
        Seq::empty()
    } else if is_dollar(ks[n - 1]) {
        plain_keys(ks, n - 1)
    } else {
        plain_keys(ks, n - 1).push(ks[n - 1])
    }
}

/// The values of the first `n` entries whose keys are not operators.
pub open spec fn plain_values(ks: Seq<Seq<char>>, vs: Seq<JsonView>, n: int) -> Seq<JsonView>
    decreases n,
{
    if n <= 0 || n > ks.len() || n > vs.len() {
        Seq::empty()
    } else if is_dollar(ks[n - 1]) {
        plain_values(ks, vs, n - 1)
    } else {
        plain_values(ks, vs, n - 1).push(vs[n - 1])
    }
}

/// Whether one of the keys is an operator.
pub open spec fn some_dollar(ks: Seq<Seq<char>>) -> bool {
    exists|i: int| 0 <= i < ks.len() && #[trigger] is_dollar(ks[i])
}

/// Whether every key is an operator.
pub open spec fn all_dollar(ks: Seq<Seq<char>>) -> bool {
    forall|i: int| 0 <= i < ks.len() ==> #[trigger] is_dollar(ks[i])
}

/// Whether an object has an entry with key `k`.
pub open spec fn has_key(ks: Seq<Seq<char>>, k: Seq<char>) -> bool {
    first_key(ks, k, 0) < ks.len()
}

/// Builds the operation that operator `kind` makes of its parameter `p`.
pub open spec fn create_spec(kind: OperatorKind, p: JsonView) -> Result<OpModel, ErrorKind>
    decreases p, 7nat, 0nat,
{
    match kind {
        OperatorKind::Eq => Ok(OpModel::Eq(p)),
        OperatorKind::Ne => Ok(OpModel::Ne(p)),
        OperatorKind::Gt => Ok(OpModel::Gt(p)),
        OperatorKind::Gte => Ok(OpModel::Gte(p)),
        OperatorKind::Lt => Ok(OpModel::Lt(p)),
        OperatorKind::Lte => Ok(OpModel::Lte(p)),
        OperatorKind::In => match p {
            JsonView::Arr(xs) => Ok(OpModel::In(xs)),
            _ => Err(ErrorKind::InvalidQuery),
        },
        OperatorKind::Nin => match p {
            JsonView::Arr(xs) => Ok(OpModel::Nin(xs)),
            _ => Err(ErrorKind::InvalidQuery),
        },
        OperatorKind::All => match p {
            JsonView::Arr(xs) => Ok(OpModel::All(xs)),
            _ => Err(ErrorKind::InvalidQuery),
        },
        OperatorKind::Exists => match p {
            JsonView::Bool(b) => Ok(OpModel::Exists(b)),
            _ => Err(ErrorKind::InvalidQuery),
        },
        OperatorKind::Regex => match p {
            JsonView::Str(s) => if regex_valid(s) {
                Ok(OpModel::Regex(s))
            } else {
                Err(ErrorKind::InvalidQuery)
            },
            _ => Err(ErrorKind::InvalidQuery),
        },
        OperatorKind::Size => match as_u64(p) {
            Some(n) => Ok(OpModel::Size(n)),
            None => Err(ErrorKind::InvalidQuery),
        },
        OperatorKind::Mod => match p {
            JsonView::Arr(xs) => if xs.len() == 2 && xs[0] is Num && xs[1] is Num && xs[0]->Num_0 != 0 {
                Ok(OpModel::Mod(xs[0]->Num_0, xs[1]->Num_0))
            } else {
                Err(ErrorKind::InvalidQuery)
            },
            _ => Err(ErrorKind::InvalidQuery),
        },
        OperatorKind::Type => match p {
            JsonView::Str(s) => Ok(OpModel::Type(type_of_name(s))),
            _ => match as_u64(p) {
                Some(n) => match bson_type(n) {
                    Some(t) => Ok(OpModel::Type(t)),
                    None => Err(ErrorKind::InvalidQuery),
                },
                None => Err(ErrorKind::InvalidQuery),
            },
        },
        OperatorKind::ElemMatch => match compile_query(p) {
            Ok(ops) => Ok(OpModel::ElemMatch(ops)),
            Err(e) => Err(e),
        },
        OperatorKind::And => match p {
            JsonView::Arr(xs) => match compile_list(p, xs.len() as int) {
                Ok(qs) => Ok(OpModel::And(qs)),
                Err(e) => Err(e),
            },
            _ => Err(ErrorKind::InvalidQuery),
        },
        OperatorKind::Or => match p {
            JsonView::Arr(xs) => match compile_list(p, xs.len() as int) {
                Ok(qs) => Ok(OpModel::Or(qs)),
                Err(e) => Err(e),
            },
            _ => Err(ErrorKind::InvalidQuery),
        },
        OperatorKind::Nor => match p {
            JsonView::Arr(xs) => match compile_list(p, xs.len() as int) {
                Ok(qs) => Ok(OpModel::Nor(qs)),
                Err(e) => Err(e),
            },
            _ => Err(ErrorKind::InvalidQuery),
        },
        OperatorKind::Not => match p {
            JsonView::Obj(ks, vs) => if ks.len() == 1 && vs.len() == 1 && is_dollar(ks[0]) && operator_of(ks[0]) is Some {
                match create_spec(operator_of(ks[0])->Some_0, vs[0]) {
                    Ok(o) => Ok(OpModel::NotOp(Box::new(o))),
                    Err(e) => Err(e),
                }
            } else {
                match compile_query(p) {
                    Ok(ops) => Ok(OpModel::NotQuery(ops)),
                    Err(e) => Err(e),
                }
            },
            _ => match compile_query(p) {
                Ok(ops) => Ok(OpModel::NotQuery(ops)),
                Err(e) => Err(e),
            },
        },
        OperatorKind::Where => match p {
            JsonView::Str(e) => Ok(OpModel::Where(e)),
            _ => Err(ErrorKind::InvalidQuery),
        },
    }
}

/// Compiles the first `n` elements of the array `arr`, each a sub-query.
pub open spec fn compile_list(arr: JsonView, n: int) -> Result<Seq<Seq<OpModel>>, ErrorKind>
    decreases arr, 2nat, n,
{
    match arr {
        JsonView::Arr(xs) => if n <= 0 || n > xs.len() {
            Ok(Seq::empty())
        } else {
            match compile_list(arr, n - 1) {
                Err(e) => Err(e),
                Ok(a) => match compile_query(xs[n - 1]) {
                    Err(e) => Err(e),
                    Ok(ops) => Ok(a.push(ops)),
                },
            }
        },
        _ => Ok(Seq::empty()),
    }
}

/// Compiles a query into its root-level operations, which are joined by AND.
///
/// A non-object query is an equality test on the whole document. An object
/// has each entry compiled in order; when it has both `$and` and `$or`,
/// `$or` becomes the combinator, with the `$and` branches as one more
/// alternative, and the other entries stay beside it.
pub open spec fn compile_query(q: JsonView) -> Result<Seq<OpModel>, ErrorKind>
    decreases q, 6nat, 0nat,
{
    match q {
        JsonView::Obj(ks, vs) => if has_key(ks, "$and"@) && has_key(ks, "$or"@) {
            match compile_entries(q, vs.len() as int, true) {
                Err(e) => Err(e),
                Ok(rest) => match combined_spec(q) {
                    Err(e) => Err(e),
                    Ok(o) => Ok(rest.push(o)),
                },
            }
        } else {
            compile_entries(q, vs.len() as int, false)
        },
        _ => Ok(seq![OpModel::Field(Seq::empty(), Box::new(OpModel::Eq(q)))]),
    }
}

/// The `$or` that stands for a query object `q` holding both `$or` and
/// `$and`: the `$or` branches, then one branch that is the `$and`.
pub open spec fn combined_spec(q: JsonView) -> Result<OpModel, ErrorKind>
    decreases q, 5nat, 0nat,
{
    match q {
        JsonView::Obj(ks, vs) => {
            let io = first_key(ks, "$or"@, 0);
            let ia = first_key(ks, "$and"@, 0);
            if 0 <= io < vs.len() && 0 <= ia < vs.len() {
                match vs[io] {
                    JsonView::Arr(xs) => match compile_list(vs[io], xs.len() as int) {
                        Err(e) => Err(e),
                        Ok(qs) => match create_spec(OperatorKind::And, vs[ia]) {
                            Err(e) => Err(e),
                            Ok(a) => Ok(OpModel::Or(qs.push(seq![a]))),
                        },
                    },
                    _ => Err(ErrorKind::InvalidQuery),
                }
            } else {
                Err(ErrorKind::InvalidQuery)
            }
        },
        _ => Err(ErrorKind::InvalidQuery),
    }
}

/// Compiles the first `n` entries of the object `q`; with `skip_and_or`,
/// the `$and` and `$or` entries are left out.
pub open spec fn compile_entries(q: JsonView, n: int, skip_and_or: bool) -> Result<Seq<OpModel>, ErrorKind>
    decreases q, 4nat, n,
{
    match q {
        JsonView::Obj(ks, vs) => if n <= 0 || n > vs.len() || n > ks.len() {
            Ok(Seq::empty())
        } else {
            match compile_entries(q, n - 1, skip_and_or) {
                Err(e) => Err(e),
                Ok(a) => if skip_and_or && (ks[n - 1] == "$and"@ || ks[n - 1] == "$or"@) {
                    Ok(a)
                } else {
                    match compile_entry(ks[n - 1], vs[n - 1]) {
                        Err(e) => Err(e),
                        Ok(b) => Ok(a + b),
                    }
                },
            }
        },
        _ => Ok(Seq::empty()),
    }
}

/// Compiles one entry of a query: a logical operator applies to the whole
/// document; a field's condition is an implicit equality, an object of
/// operators, or both.
pub open spec fn compile_entry(key: Seq<char>, v: JsonView) -> Result<Seq<OpModel>, ErrorKind>
    decreases v, 8nat, 0nat,
{
    if is_logical(key) {
        match create_spec(operator_of(key)->Some_0, v) {
            Ok(o) => Ok(seq![o]),
            Err(e) => Err(e),
        }
    } else {
        match v {
            JsonView::Obj(fks, fvs) => if !some_dollar(fks) {
                Ok(seq![OpModel::Field(key, Box::new(OpModel::Eq(v)))])
            } else if all_dollar(fks) {
                compile_ops(key, v, fvs.len() as int)
            } else {
                let lit = JsonView::Obj(plain_keys(fks, fks.len() as int), plain_values(fks, fvs, fks.len() as int));
                match compile_ops(key, v, fvs.len() as int) {
                    Err(e) => Err(e),
                    Ok(ops) => Ok(seq![OpModel::Field(key, Box::new(OpModel::Eq(lit)))] + ops),
                }
            },
            _ => Ok(seq![OpModel::Field(key, Box::new(OpModel::Eq(v)))]),
        }
    }
}

/// Compiles the operator entries among the first `n` entries of the object
/// `v`, each applied to the field `key`.
pub open spec fn compile_ops(key: Seq<char>, v: JsonView, n: int) -> Result<Seq<OpModel>, ErrorKind>
    decreases v, 2nat, n,
{
    match v {
        JsonView::Obj(fks, fvs) => if n <= 0 || n > fvs.len() || n > fks.len() {
            Ok(Seq::empty())
        } else {
            match compile_ops(key, v, n - 1) {
                Err(e) => Err(e),
                Ok(a) => if !is_dollar(fks[n - 1]) {
                    Ok(a)
                } else {
                    match operator_of(fks[n - 1]) {
                        None => Err(ErrorKind::UnsupportedOperation),
                        Some(k) => match create_spec(k, fvs[n - 1]) {
                            Err(e) => Err(e),
                            Ok(o) => Ok(a.push(OpModel::Field(key, Box::new(o)))),
                        },
                    }
                },
            }
        },
        _ => Ok(Seq::empty()),
    }
}

/// The view of a result that carries one operation.
pub open spec fn op_result(r: Result<Operation, SiftError>) -> Result<OpModel, ErrorKind> {
    match r {
        Ok(o) => Ok(o@),
        Err(e) => Err(e@),
    }
}

/// The view of a result that carries a list of operations.
pub open spec fn ops_result(r: Result<Vec<Operation>, SiftError>) -> Result<Seq<OpModel>, ErrorKind> {
    match r {
        Ok(ops) => Ok(ops_view(ops)),
        Err(e) => Err(e@),
    }
}

/// An operation that applies `o` to the field `key`.
fn field_op(key: &String, o: Operation) -> (r: Operation)
    ensures
        r@ == OpModel::Field(key@, Box::new(o@)),
{
    let r = Operation::Field(key.clone(), Box::new(o));
    proof { crate::ops::lemma_op_view(&r); }
    r
}

/// An equality test on the field `key`.
fn field_eq(key: &String, v: Value) -> (r: Operation)
    ensures
        r@ == OpModel::Field(key@, Box::new(OpModel::Eq(v@))),
{
    let e = Operation::Eq(v);
    proof { crate::ops::lemma_op_view(&e); }
    field_op(key, e)
}

/// A list holding one operation.
fn single(o: Operation) -> (r: Vec<Operation>)
    ensures
        ops_view(r) == seq![o@],
{
    let mut r: Vec<Operation> = Vec::new();
    r.push(o);
    assert(ops_view(r) =~= seq![r[0]@]);
    r
}

/// A string holding the characters of `s`.
pub fn text(s: &str) -> (r: String)
    ensures
        r@ == s@,
{
    let cs = chars_of(s);
    string_of(cs.as_slice())
}

/// Whether `s` holds exactly the characters of `lit`.
pub fn is_name(s: &String, lit: &str) -> (r: bool)
    ensures
        r == (s@ == lit@),
{
    let a = chars_of(s.as_str());
    let b = chars_of(lit);
    if a.len() != b.len() {
        return false;
    }
    let mut i: usize = 0;
    while i < a.len()
        invariant
            i <= a.len() == b.len(),
            a@ == s@,
            b@ == lit@,
            forall|j: int| 0 <= j < i ==> a@[j] == b@[j],
        decreases a.len() - i,
    {
        if a[i] != b[i] {
            return false;
        }
        i = i + 1;
    }
    assert(a@ =~= b@);
    true
}

/// An error for an operator name that is not known.
/// Whether a message says that an operator is unknown, and names it: it is
/// `Unknown operator: ` followed by a name that no operator has.
pub open spec fn names_unknown_operator(m: Seq<char>) -> bool {
    &&& m.len() >= 18
    &&& m.subrange(0, 18) == "Unknown operator: "@
    &&& operator_of(m.subrange(18, m.len() as int)) is None
}

/// Whether an error, when it is an unsupported operation, names the
/// unknown operator in its message.
pub open spec fn names_unknown(e: SiftError) -> bool {
    e@ == ErrorKind::UnsupportedOperation ==> names_unknown_operator(e.detail()@)
}

/// The error for a `$`-name that no operator has; its message names it.
pub fn unknown_operator(name: &String) -> (r: SiftError)
    requires
        operator_of(name@) is None,
    ensures
        r@ == ErrorKind::UnsupportedOperation,
        r.detail()@ == "Unknown operator: "@ + name@,
        names_unknown(r),
{
    let head = text("Unknown operator: ");
    proof {
        reveal_strlit("Unknown operator: ");
        assert(head@.len() == 18);
    }
    let m = head.concat(name.as_str());
    assert(m@.subrange(0, 18) =~= head@);
    assert(m@.subrange(18, m@.len() as int) =~= name@);
    SiftError::UnsupportedOperation(m)
}

/// The operator a `$`-name stands for (see [`operator_of`]).
pub fn operator_of_name(name: &String) -> (r: Option<OperatorKind>)
    ensures
        r == operator_of(name@),
{
    if is_name(name, "$eq") {
        Some(OperatorKind::Eq)
    } else if is_name(name, "$ne") {
        Some(OperatorKind::Ne)
    } else if is_name(name, "$gt") {
        Some(OperatorKind::Gt)
    } else if is_name(name, "$gte") {
        Some(OperatorKind::Gte)
    } else if is_name(name, "$lt") {
        Some(OperatorKind::Lt)
    } else if is_name(name, "$lte") {
        Some(OperatorKind::Lte)
    } else if is_name(name, "$in") {
        Some(OperatorKind::In)
    } else if is_name(name, "$nin") {
        Some(OperatorKind::Nin)
    } else if is_name(name, "$all") {
        Some(OperatorKind::All)
    } else if is_name(name, "$exists") {
        Some(OperatorKind::Exists)
    } else if is_name(name, "$regex") {
        Some(OperatorKind::Regex)
    } else if is_name(name, "$and") {
        Some(OperatorKind::And)
    } else if is_name(name, "$or") {
        Some(OperatorKind::Or)
    } else if is_name(name, "$not") {
        Some(OperatorKind::Not)
    } else if is_name(name, "$size") {
        Some(OperatorKind::Size)
    } else if is_name(name, "$mod") {
        Some(OperatorKind::Mod)
    } else if is_name(name, "$type") {
        Some(OperatorKind::Type)
    } else if is_name(name, "$elemMatch") {
        Some(OperatorKind::ElemMatch)
    } else if is_name(name, "$nor") {
        Some(OperatorKind::Nor)
    } else if is_name(name, "$where") {
        Some(OperatorKind::Where)
    } else {
        None
    }
}

/// Whether a top-level key is a logical operator (see [`is_logical`]).
pub fn is_logical_key(key: &String) -> (r: bool)
    ensures
        r == is_logical(key@),
{
    is_name(key, "$and") || is_name(key, "$or") || is_name(key, "$not") || is_name(key, "$nor") || is_name(key, "$where")
}

/// The type family a `$type` name stands for (see [`type_of_name`]).
pub fn type_of_name_exec(s: &String) -> (r: JsonType)
    ensures
        r == type_of_name(s@),
{
    if is_name(s, "null") {
        JsonType::Null
    } else if is_name(s, "bool") || is_name(s, "boolean") {
        JsonType::Bool
    } else if is_name(s, "number") {
        JsonType::Number
    } else if is_name(s, "double") {
        JsonType::Double
    } else if is_name(s, "int") || is_name(s, "integer") || is_name(s, "long") {
        JsonType::Int
    } else if is_name(s, "string") {
        JsonType::String
    } else if is_name(s, "array") {
        JsonType::Array
    } else if is_name(s, "object") {
        JsonType::Object
    } else {
        JsonType::Unknown
    }
}

/// Reads a value as an unsigned 64-bit integer (see [`as_u64`]).
pub fn value_as_u64(v: &Value) -> (r: Option<u64>)
    ensures
        match r {
            Some(n) => as_u64(v@) == Some(n as int),
            None => as_u64(v@) is None,
        },
{
    proof { lemma_view_shape(v); }
    match v {
        Value::Number(n) => {
            if n.is_float || n.scaled < 0 {
                return None;
            }
            let x = n.scaled as u128;
            let s = SCALE as u128;
            if x % s != 0 {
                return None;
            }
            let q = x / s;
            if q > u64::MAX as u128 {
                return None;
            }
            Some(q as u64)
        },
        _ => None,
    }
}

/// Builds the operation that operator `kind` makes of its parameter `p`,
/// as [`create_spec`] states.
pub fn create_operation(kind: OperatorKind, p: &Value) -> (r: Result<Operation, SiftError>)
    ensures
        op_result(r) == create_spec(kind, p@),
        r is Err ==> names_unknown(r->Err_0),
    decreases p, 7nat, 0nat,
{
    proof { lemma_view_shape(p); }
    let r = match kind {
        OperatorKind::Eq => Ok(Operation::Eq(deep_clone(p))),
        OperatorKind::Ne => Ok(Operation::Ne(deep_clone(p))),
        OperatorKind::Gt => Ok(Operation::Gt(deep_clone(p))),
        OperatorKind::Gte => Ok(Operation::Gte(deep_clone(p))),
        OperatorKind::Lt => Ok(Operation::Lt(deep_clone(p))),
        OperatorKind::Lte => Ok(Operation::Lte(deep_clone(p))),
        OperatorKind::In | OperatorKind::Nin | OperatorKind::All => {
            let copy = deep_clone(p);
            proof { lemma_view_shape(&copy); }
            match copy {
                Value::Array(xs) => {
                    assert(values_view(xs) =~= p@->Arr_0);
                    match kind {
                        OperatorKind::In => Ok(Operation::In(xs)),
                        OperatorKind::Nin => Ok(Operation::Nin(xs)),
                        _ => Ok(Operation::All(xs)),
                    }
                },
                _ => Err(SiftError::InvalidQuery(text("the operator requires an array"))),
            }
        },
        OperatorKind::Exists => match p {
            Value::Bool(b) => Ok(Operation::Exists(*b)),
            _ => Err(SiftError::InvalidQuery(text("$exists requires a boolean value"))),
        },
        OperatorKind::Regex => match p {
            Value::String(s) => match build_regex(s.as_str()) {
                Ok(re) => Ok(Operation::Regex(re)),
                Err(m) => {
                    let head = text("Invalid regex pattern: ");
                    Err(SiftError::InvalidQuery(head.concat(m.as_str())))
                },
            },
            _ => Err(SiftError::InvalidQuery(text("$regex requires a string pattern"))),
        },
        OperatorKind::Size => match value_as_u64(p) {
            Some(n) => Ok(Operation::Size(n)),
            None => Err(SiftError::InvalidQuery(text("$size requires a number"))),
        },
        OperatorKind::Mod => match p {
            Value::Array(xs) => {
                if xs.len() != 2 {
                    Err(SiftError::InvalidQuery(text("$mod requires an array of [divisor, remainder]")))
                } else {
                let a = &xs[0];
                let b = &xs[1];
                proof {
                    lemma_view_shape(a);
                    lemma_view_shape(b);
                }
                match (a, b) {
                    (Value::Number(d), Value::Number(r)) => {
                        if d.scaled == 0 {
                            Err(SiftError::InvalidQuery(text("$mod divisor cannot be zero")))
                        } else {
                            Ok(Operation::Mod(d.scaled, r.scaled))
                        }
                    },
                    _ => Err(SiftError::InvalidQuery(text("$mod requires numeric divisor and remainder"))),
                }
                }
            },
            _ => Err(SiftError::InvalidQuery(text("$mod requires an array of [divisor, remainder]"))),
        },
        OperatorKind::Type => match p {
            Value::String(s) => Ok(Operation::Type(type_of_name_exec(s))),
            _ => match value_as_u64(p) {
                Some(n) => {
                    let t = if n == 1 {
                        Some(JsonType::Double)
                    } else if n == 2 {
                        Some(JsonType::String)
                    } else if n == 3 {
                        Some(JsonType::Object)
                    } else if n == 4 {
                        Some(JsonType::Array)
                    } else if n == 8 {
                        Some(JsonType::Bool)
                    } else if n == 10 {
                        Some(JsonType::Null)
                    } else if n == 16 || n == 18 {
                        Some(JsonType::Int)
                    } else {
                        None
                    };
                    match t {
                        Some(t) => Ok(Operation::Type(t)),
                        None => Err(SiftError::InvalidQuery(text("Unknown BSON type number"))),
                    }
                },
                None => Err(SiftError::InvalidQuery(text("$type requires a string type name or numeric BSON type"))),
            },
        },
        OperatorKind::ElemMatch => match compile_value(p) {
            Ok(ops) => Ok(Operation::ElemMatch(ops)),
            Err(e) => Err(e),
        },
        OperatorKind::And | OperatorKind::Or | OperatorKind::Nor => match p {
            Value::Array(xs) => match compile_list_exec(p, xs) {
                Ok(qs) => match kind {
                    OperatorKind::And => Ok(Operation::And(qs)),
                    OperatorKind::Or => Ok(Operation::Or(qs)),
                    _ => Ok(Operation::Nor(qs)),
                },
                Err(e) => Err(e),
            },
            _ => Err(SiftError::InvalidQuery(text("the logical operator requires an array of queries"))),
        },
        OperatorKind::Not => {
            let one: Option<OperatorKind> = match p {
                Value::Object(es) => if es.len() == 1 && starts_with_dollar(&es[0].0) {
                    operator_of_name(&es[0].0)
                } else {
                    None
                },
                _ => None,
            };
            match (one, p) {
                (Some(k), Value::Object(es)) => {
                    proof {
                        assert(decreases_to!(*p => (*p)->Object_0));
                        assert(decreases_to!(*es => es@));
                        assert(decreases_to!(es@ => es@[0]));
                        assert(decreases_to!(es@[0] => es@[0].1));
                    }
                    match create_operation(k, &es[0].1) {
                        Ok(o) => Ok(Operation::NotOp(Box::new(o))),
                        Err(e) => Err(e),
                    }
                },
                _ => match compile_value(p) {
                    Ok(ops) => Ok(Operation::NotQuery(ops)),
                    Err(e) => Err(e),
                },
            }
        },
        OperatorKind::Where => match p {
            Value::String(e) => Ok(Operation::Where(e.clone())),
            _ => Err(SiftError::InvalidQuery(text("$where requires a JavaScript expression string"))),
        },
    };
    proof {
        if let Ok(o) = &r {
            crate::ops::lemma_op_view(o);
        }
    }
    r
}

/// Compiles each element of the array `arr` (whose elements are `xs`) as a
/// sub-query, as [`compile_list`] states.
pub(crate) fn compile_list_exec(arr: &Value, xs: &Vec<Value>) -> (r: Result<Vec<Vec<Operation>>, SiftError>)
    requires
        *arr == Value::Array(*xs),
    ensures
        match r {
            Ok(qs) => compile_list(arr@, xs.len() as int) == Ok::<Seq<Seq<OpModel>>, ErrorKind>(queries_view(qs)),
            Err(e) => compile_list(arr@, xs.len() as int) == Err::<Seq<Seq<OpModel>>, ErrorKind>(e@) && names_unknown(e),
        },
    decreases arr, 2nat, 0nat,
{
    proof { lemma_view_shape(arr); }
    let mut out: Vec<Vec<Operation>> = Vec::new();
    assert(queries_view(out) =~= Seq::<Seq<OpModel>>::empty());
    let mut i: usize = 0;
    while i < xs.len()
        invariant
            i <= xs.len(),
            *arr == Value::Array(*xs),
            arr@->Arr_0.len() == xs.len(),
            forall|k: int| 0 <= k < xs.len() ==> #[trigger] arr@->Arr_0[k] == xs[k]@,
            compile_list(arr@, i as int) == Ok::<Seq<Seq<OpModel>>, ErrorKind>(queries_view(out)),
        decreases xs.len() - i,
    {
        proof {
            assert(decreases_to!(*arr => (*arr)->Array_0));
            assert(decreases_to!(*xs => xs@));
            assert(decreases_to!(xs@ => xs@[i as int]));
        }
        match compile_value(&xs[i]) {
            Ok(ops) => {
                let ghost before = queries_view(out);
                out.push(ops);
                assert(queries_view(out) =~= before.push(ops_view(ops)));
            },
            Err(e) => {
                proof { lemma_list_error_stays(arr@, i as int + 1, xs.len() as int, e@); }
                return Err(e);
            },
        }
        i = i + 1;
    }
    Ok(out)
}

proof fn lemma_list_error_stays(arr: JsonView, i: int, n: int, e: ErrorKind)
    requires
        i <= n,
        compile_list(arr, i) == Err::<Seq<Seq<OpModel>>, ErrorKind>(e),
        arr is Arr,
        n <= arr->Arr_0.len(),
        0 < i,
    ensures
        compile_list(arr, n) == Err::<Seq<Seq<OpModel>>, ErrorKind>(e),
    decreases n - i,
{
    if i < n {
        lemma_list_error_stays(arr, i, n - 1, e);
    }
}

/// Compiles a query into its root-level operations, as [`compile_query`]
/// states.
pub fn compile_value(q: &Value) -> (r: Result<Vec<Operation>, SiftError>)
    ensures
        ops_result(r) == compile_query(q@),
        r is Err ==> names_unknown(r->Err_0),
    decreases q, 6nat, 0nat,
{
    proof { lemma_view_shape(q); }
    match q {
        Value::Object(es) => {
            let or_key = text("$or");
            let and_key = text("$and");
            let io = crate::value::find_index(es, &or_key);
            let ia = crate::value::find_index(es, &and_key);
            proof {
                lemma_first_key_range(q@->Obj_0, "$or"@, 0);
                lemma_first_key_range(q@->Obj_0, "$and"@, 0);
            }
            if io.is_some() && ia.is_some() {
                let rest = compile_entries_exec(q, es, true);
                match rest {
                    Err(e) => Err(e),
                    Ok(mut ops) => match combined_exec(q, es) {
                        Err(e) => Err(e),
                        Ok(o) => {
                            let ghost before = ops_view(ops);
                            ops.push(o);
                            assert(ops_view(ops) =~= before.push(o@));
                            Ok(ops)
                        },
                    },
                }
            } else {
                compile_entries_exec(q, es, false)
            }
        },
        _ => {
            let root = String::new();
            Ok(single(field_eq(&root, deep_clone(q))))
        },
    }
}

/// Compiles the entries of the object `q` (whose entries are `es`), as
/// [`compile_entries`] states.
fn compile_entries_exec(q: &Value, es: &Vec<(String, Value)>, skip_and_or: bool) -> (r: Result<Vec<Operation>, SiftError>)
    requires
        *q == Value::Object(*es),
    ensures
        ops_result(r) == compile_entries(q@, es.len() as int, skip_and_or),
        r is Err ==> names_unknown(r->Err_0),
    decreases q, 4nat, 0nat,
{
    proof { lemma_view_shape(q); }
    let mut out: Vec<Operation> = Vec::new();
    assert(ops_view(out) =~= Seq::<OpModel>::empty());
    let mut err: Option<SiftError> = None;
    let mut i: usize = 0;
    while i < es.len()
        invariant
            i <= es.len(),
            *q == Value::Object(*es),
            q@->Obj_0.len() == es.len(),
            q@->Obj_1.len() == es.len(),
            forall|k: int| 0 <= k < es.len() ==> #[trigger] q@->Obj_0[k] == es[k].0@,
            forall|k: int| 0 <= k < es.len() ==> #[trigger] q@->Obj_1[k] == es[k].1@,
            match err {
                None => compile_entries(q@, i as int, skip_and_or) == Ok::<Seq<OpModel>, ErrorKind>(ops_view(out)),
                Some(e) => compile_entries(q@, i as int, skip_and_or) == Err::<Seq<OpModel>, ErrorKind>(e@) && names_unknown(e),
            },
        decreases es.len() - i,
    {
        if err.is_none() {
            let skip = skip_and_or && (is_name(&es[i].0, "$and") || is_name(&es[i].0, "$or"));
            if !skip {
                proof {
                    assert(decreases_to!(*q => (*q)->Object_0));
                    assert(decreases_to!(*es => es@));
                    assert(decreases_to!(es@ => es@[i as int]));
                    assert(decreases_to!(es@[i as int] => es@[i as int].1));
                }
                match compile_entry_exec(&es[i].0, &es[i].1) {
                    Ok(mut b) => {
                        let ghost before = ops_view(out);
                        let ghost bv = ops_view(b);
                        out.append(&mut b);
                        assert(ops_view(out) =~= before + bv);
                    },
                    Err(e) => {
                        err = Some(e);
                    },
                }
            }
        }
        i = i + 1;
    }
    match err {
        Some(e) => Err(e),
        None => Ok(out),
    }
}

/// The `$or` that stands for a query holding both `$or` and `$and`, as
/// [`combined_spec`] states.
fn combined_exec(q: &Value, es: &Vec<(String, Value)>) -> (r: Result<Operation, SiftError>)
    requires
        *q == Value::Object(*es),
    ensures
        op_result(r) == combined_spec(q@),
        r is Err ==> names_unknown(r->Err_0),
    decreases q, 5nat, 0nat,
{
    proof {
        lemma_view_shape(q);
        lemma_first_key_range(q@->Obj_0, "$or"@, 0);
        lemma_first_key_range(q@->Obj_0, "$and"@, 0);
    }
    let or_key = text("$or");
    let and_key = text("$and");
    match (crate::value::find_index(es, &or_key), crate::value::find_index(es, &and_key)) {
        (Some(io), Some(ia)) => {
            proof {
                assert(decreases_to!(*q => (*q)->Object_0));
                assert(decreases_to!(*es => es@));
                assert(decreases_to!(es@ => es@[io as int]));
                assert(decreases_to!(es@[io as int] => es@[io as int].1));
                assert(decreases_to!(es@ => es@[ia as int]));
                assert(decreases_to!(es@[ia as int] => es@[ia as int].1));
            }
            let orv = &es[io].1;
            proof { lemma_view_shape(orv); }
            match orv {
                Value::Array(xs) => match compile_list_exec(orv, xs) {
                    Err(e) => Err(e),
                    Ok(mut qs) => match create_operation(OperatorKind::And, &es[ia].1) {
                        Err(e) => Err(e),
                        Ok(a) => {
                            let ghost before = queries_view(qs);
                            let ghost av = a@;
                            let branch = single(a);
                            qs.push(branch);
                            assert(queries_view(qs) =~= before.push(seq![av]));
                            let r = Operation::Or(qs);
                            proof { crate::ops::lemma_op_view(&r); }
                            Ok(r)
                        },
                    },
                },
                _ => Err(SiftError::InvalidQuery(text("$or requires an array of queries"))),
            }
        },
        _ => Err(SiftError::InvalidQuery(text("$or requires an array of queries"))),
    }
}

/// Compiles one entry of a query, as [`compile_entry`] states.
pub(crate) fn compile_entry_exec(key: &String, v: &Value) -> (r: Result<Vec<Operation>, SiftError>)
    ensures
        ops_result(r) == compile_entry(key@, v@),
        r is Err ==> names_unknown(r->Err_0),
    decreases v, 8nat, 0nat,
{
    proof { lemma_view_shape(v); }
    if is_logical_key(key) {
        let kind = match operator_of_name(key) {
            Some(k) => k,
            None => OperatorKind::Where,
        };
        assert(operator_of(key@) == Some(kind));
        return match create_operation(kind, v) {
            Ok(o) => Ok(single(o)),
            Err(e) => Err(e),
        };
    }
    match v {
        Value::Object(fes) => {
            let mut some = false;
            let mut all = true;
            let mut i: usize = 0;
            while i < fes.len()
                invariant
                    i <= fes.len(),
                    *v == Value::Object(*fes),
                    v@->Obj_0.len() == fes.len(),
                    forall|k: int| 0 <= k < fes.len() ==> #[trigger] v@->Obj_0[k] == fes[k].0@,
                    some == exists|k: int| 0 <= k < i && #[trigger] is_dollar(v@->Obj_0[k]),
                    all == forall|k: int| 0 <= k < i ==> #[trigger] is_dollar(v@->Obj_0[k]),
                decreases fes.len() - i,
            {
                if starts_with_dollar(&fes[i].0) {
                    assert(is_dollar(v@->Obj_0[i as int]));
                    some = true;
                } else {
                    assert(!is_dollar(v@->Obj_0[i as int]));
                    all = false;
                }
                i = i + 1;
            }
            if !some {
                return Ok(single(field_eq(key, deep_clone(v))));
            }
            if all {
                return compile_ops_exec(key, v, fes);
            }
            let lit = plain_entries(v, fes);
            match compile_ops_exec(key, v, fes) {
                Err(e) => Err(e),
                Ok(mut rest) => {
                    let ghost rv = ops_view(rest);
                    let ghost lv = lit@;
                    let mut ops = single(field_eq(key, lit));
                    ops.append(&mut rest);
                    assert(ops_view(ops) =~= seq![OpModel::Field(key@, Box::new(OpModel::Eq(lv)))] + rv);
                    Ok(ops)
                },
            }
        },
        _ => {
            Ok(single(field_eq(key, deep_clone(v))))
        },
    }
}

/// The object made of the entries of `v` (whose entries are `fes`) whose
/// keys are not operators.
fn plain_entries(v: &Value, fes: &Vec<(String, Value)>) -> (r: Value)
    requires
        *v == Value::Object(*fes),
    ensures
        r@ == JsonView::Obj(
            plain_keys(v@->Obj_0, fes.len() as int),
            plain_values(v@->Obj_0, v@->Obj_1, fes.len() as int),
        ),
{
    proof { lemma_view_shape(v); }
    let mut out: Vec<(String, Value)> = Vec::new();
    proof { lemma_object_view(out); }
    assert(Value::Object(out)@->Obj_0 =~= Seq::<Seq<char>>::empty());
    assert(Value::Object(out)@->Obj_1 =~= Seq::<JsonView>::empty());
    let mut i: usize = 0;
    while i < fes.len()
        invariant
            i <= fes.len(),
            *v == Value::Object(*fes),
            v@->Obj_0.len() == fes.len(),
            v@->Obj_1.len() == fes.len(),
            forall|k: int| 0 <= k < fes.len() ==> #[trigger] v@->Obj_0[k] == fes[k].0@,
            forall|k: int| 0 <= k < fes.len() ==> #[trigger] v@->Obj_1[k] == fes[k].1@,
            Value::Object(out)@ == JsonView::Obj(plain_keys(v@->Obj_0, i as int), plain_values(v@->Obj_0, v@->Obj_1, i as int)),
        decreases fes.len() - i,
    {
        if !starts_with_dollar(&fes[i].0) {
            let ghost before = Value::Object(out)@;
            let c = deep_clone(&fes[i].1);
            out.push((fes[i].0.clone(), c));
            proof {
                lemma_object_view(out);
                crate::value::lemma_view_shape(&Value::Object(out));
            }
            assert(Value::Object(out)@->Obj_0 =~= before->Obj_0.push(fes[i as int].0@));
            assert(Value::Object(out)@->Obj_1 =~= before->Obj_1.push(fes[i as int].1@));
        }
        i = i + 1;
    }
    Value::Object(out)
}

/// Compiles the operator entries of the object `v` (whose entries are
/// `fes`), each applied to the field `key`, as [`compile_ops`] states.
fn compile_ops_exec(key: &String, v: &Value, fes: &Vec<(String, Value)>) -> (r: Result<Vec<Operation>, SiftError>)
    requires
        *v == Value::Object(*fes),
    ensures
        ops_result(r) == compile_ops(key@, v@, fes.len() as int),
        r is Err ==> names_unknown(r->Err_0),
    decreases v, 2nat, 0nat,
{
    proof { lemma_view_shape(v); }
    let mut out: Vec<Operation> = Vec::new();
    assert(ops_view(out) =~= Seq::<OpModel>::empty());
    let mut err: Option<SiftError> = None;
    let mut i: usize = 0;
    while i < fes.len()
        invariant
            i <= fes.len(),
            *v == Value::Object(*fes),
            v@->Obj_0.len() == fes.len(),
            v@->Obj_1.len() == fes.len(),
            forall|k: int| 0 <= k < fes.len() ==> #[trigger] v@->Obj_0[k] == fes[k].0@,
            forall|k: int| 0 <= k < fes.len() ==> #[trigger] v@->Obj_1[k] == fes[k].1@,
            match err {
                None => compile_ops(key@, v@, i as int) == Ok::<Seq<OpModel>, ErrorKind>(ops_view(out)),
                Some(e) => compile_ops(key@, v@, i as int) == Err::<Seq<OpModel>, ErrorKind>(e@) && names_unknown(e),
            },
        decreases fes.len() - i,
    {
        if err.is_none() && starts_with_dollar(&fes[i].0) {
            match operator_of_name(&fes[i].0) {
                None => {
                    err = Some(unknown_operator(&fes[i].0));
                },
                Some(k) => {
                    proof {
                        assert(decreases_to!(*v => (*v)->Object_0));
                        assert(decreases_to!(*fes => fes@));
                        assert(decreases_to!(fes@ => fes@[i as int]));
                        assert(decreases_to!(fes@[i as int] => fes@[i as int].1));
                    }
                    match create_operation(k, &fes[i].1) {
                        Ok(o) => {
                            let ghost before = ops_view(out);
                            let ghost ov = o@;
                            out.push(field_op(key, o));
                            assert(ops_view(out) =~= before.push(OpModel::Field(key@, Box::new(ov))));
                        },
                        Err(e) => {
                            err = Some(e);
                        },
                    }
                },
            }
        }
        i = i + 1;
    }
    match err {
        Some(e) => Err(e),
        None => Ok(out),
    }
}

/// The `$or` that a combined condition stands for, as
/// [`crate::query::combined_parts`] states.
pub(crate) fn combined_parts_exec(orv: &Value, andv: &Value) -> (r: Result<Operation, SiftError>)
    ensures
        op_result(r) == crate::query::combined_parts(orv@, andv@),
        r is Err ==> names_unknown(r->Err_0),
{
    proof { lemma_view_shape(orv); }
    match orv {
        Value::Array(xs) => match compile_list_exec(orv, xs) {
            Err(e) => Err(e),
            Ok(mut qs) => match create_operation(OperatorKind::And, andv) {
                Err(e) => Err(e),
                Ok(a) => {
                    let ghost before = queries_view(qs);
                    let ghost av = a@;
                    let branch = single(a);
                    qs.push(branch);
                    assert(queries_view(qs) =~= before.push(seq![av]));
                    let r = Operation::Or(qs);
                    proof { crate::ops::lemma_op_view(&r); }
                    Ok(r)
                },
            },
        },
        _ => Err(SiftError::InvalidQuery(text("$or requires an array of queries"))),
    }
}
} // verus!
