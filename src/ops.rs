use crate::compare::{compare_values, value_order};
use crate::text::{byte_len, contains_dot, has_dot, parse_index, parse_index_exec, split_dots, split_path, utf8_len};
use crate::value::{field_of, first_key, find_entry, find_index, json_eq, lemma_view_shape, values_equal, JsonView, Value};
use std::cmp::Ordering;
use vstd::prelude::*;

verus! {

broadcast use vstd::std_specs::vec::group_vec_axioms;

#[verifier::external_type_specification]
#[verifier::external_body]
pub struct ExRegex(regex::Regex);

/// Whether `pattern` is a regular expression that the regex crate accepts.
pub uninterp spec fn regex_valid(pattern: Seq<char>) -> bool;

/// The pattern a compiled regular expression was built from.
pub uninterp spec fn regex_source(re: regex::Regex) -> Seq<char>;

/// Whether the regular expression `pattern` matches somewhere in `hay`.
pub uninterp spec fn regex_matches(pattern: Seq<char>, hay: Seq<char>) -> bool;

/// Compiles a regular expression, or says why it cannot.
/// Relies on `regex::Regex::new`: it succeeds exactly on the patterns its
/// syntax accepts, and the compiled value keeps its pattern (`Regex::as_str`).
#[verifier::external_body]
pub(crate) fn build_regex(pattern: &str) -> (r: Result<regex::Regex, String>)
    ensures
        r is Ok <==> regex_valid(pattern@),
        r is Ok ==> regex_source(r->Ok_0) == pattern@,
{
    regex::Regex::new(pattern).map_err(|e| e.to_string())
}

/// Whether a compiled regular expression matches somewhere in `hay`.
/// Relies on `regex::Regex::is_match`, whose answer depends on the pattern
/// and the text alone.
#[verifier::external_body]
pub(crate) fn regex_is_match(re: &regex::Regex, hay: &str) -> (r: bool)
    ensures
        r == regex_matches(regex_source(*re), hay@),
{
    re.is_match(hay)
}

/// Whether option letter `c` is among `options`.
pub open spec fn has_option(options: Option<Seq<char>>, c: char) -> bool {
    match options {
        Some(o) => o.contains(c),
        None => false,
    }
}

/// A pattern with the inline flags that its options ask for: `(?s)`,
/// `(?m)` and `(?i)`, in that order, before the pattern.
pub open spec fn flagged_pattern(pattern: Seq<char>, options: Option<Seq<char>>) -> Seq<char> {
    (if has_option(options, 's') { "(?s)"@ } else { Seq::empty() }) + (if has_option(options, 'm') {
        "(?m)"@
    } else {
        Seq::empty()
    }) + (if has_option(options, 'i') { "(?i)"@ } else { Seq::empty() }) + pattern
}

/// Whether `c` is one of the characters of `s`.
fn contains_char(s: &str, c: char) -> (r: bool)
    ensures
        r == s@.contains(c),
{
    let cs = crate::text::chars_of(s);
    let mut i: usize = 0;
    while i < cs.len()
        invariant
            i <= cs.len(),
            cs@ == s@,
            forall|j: int| 0 <= j < i ==> cs@[j] != c,
        decreases cs.len() - i,
    {
        if cs[i] == c {
            assert(s@[i as int] == c);
            return true;
        }
        i = i + 1;
    }
    false
}

/// Tests a value against a regular expression with options (`i`: ignore
/// case, `m`: multi-line, `s`: dot matches newline). A value that is not a
/// string does not match; a pattern that does not compile is an invalid
/// query.
pub fn test_regex(value: &Value, pattern: &str, options: Option<&str>) -> (r: Result<bool, crate::error::SiftError>)
    ensures
        match value@ {
            JsonView::Str(s) => {
                let full = flagged_pattern(pattern@, match options { Some(o) => Some(o@), None => None });
                match r {
                    Ok(b) => regex_valid(full) && b == regex_matches(full, s),
                    Err(e) => !regex_valid(full) && e@ == crate::error::ErrorKind::InvalidQuery,
                }
            },
            _ => r == Ok::<bool, crate::error::SiftError>(false),
        },
{
    proof { lemma_view_shape(value); }
    match value {
        Value::String(s) => {
            let (flag_s, flag_m, flag_i) = match options {
                Some(o) => (contains_char(o, 's'), contains_char(o, 'm'), contains_char(o, 'i')),
                None => (false, false, false),
            };
            let mut full = String::new();
            if flag_s {
                full = full.concat("(?s)");
            }
            if flag_m {
                full = full.concat("(?m)");
            }
            if flag_i {
                full = full.concat("(?i)");
            }
            full = full.concat(pattern);
            let ghost opts = match options { Some(o) => Some(o@), None => None::<Seq<char>> };
            assert(full@ =~= flagged_pattern(pattern@, opts));
            match build_regex(full.as_str()) {
                Ok(re) => Ok(regex_is_match(&re, s.as_str())),
                Err(m) => {
                    let head = crate::compile::text("Invalid regex: ");
                    Err(crate::error::SiftError::InvalidQuery(head.concat(m.as_str())))
                },
            }
        },
        _ => Ok(false),
    }
}

/// The type families that `$type` tells apart.
#[derive(Clone, Copy, Debug, PartialEq, Eq, Structural)]
pub enum JsonType {
    Null,
    Bool,
    /// Any number.
    Number,
    /// A number written with a fraction or an exponent.
    Double,
    /// A number written as an integer.
    Int,
    String,
    Array,
    Object,
    /// A name that no value has.
    Unknown,
}

/// Whether `v` belongs to the type family `t`.
pub open spec fn type_matches(t: JsonType, v: JsonView) -> bool {
    match t {
        JsonType::Null => v is Null,
        JsonType::Bool => v is Bool,
        JsonType::Number => v is Num,
        JsonType::Double => v is Num && v->Num_1,
        JsonType::Int => v is Num && !v->Num_1,
        JsonType::String => v is Str,
        JsonType::Array => v is Arr,
        JsonType::Object => v is Obj,
        JsonType::Unknown => false,
    }
}

/// The remainder of `x` divided by `d` as `%` computes it: truncated
/// toward zero, so it takes the sign of `x` (`-2` divided by `3` leaves `-2`).
pub open spec fn trunc_rem(x: int, d: int) -> int {
    let ad = if d < 0 { -d } else { d };
    if ad == 0 {
        0
    } else if x >= 0 {
        x % ad
    } else {
        -((-x) % ad)
    }
}

/// The model of a compiled operation.
pub enum OpModel {
    Eq(JsonView),
    Ne(JsonView),
    Gt(JsonView),
    Gte(JsonView),
    Lt(JsonView),
    Lte(JsonView),
    In(Seq<JsonView>),
    Nin(Seq<JsonView>),
    All(Seq<JsonView>),
    Exists(bool),
    Type(JsonType),
    Regex(Seq<char>),
    /// Divisor and remainder, in fixed point.
    Mod(int, int),
    Size(int),
    ElemMatch(Seq<OpModel>),
    And(Seq<Seq<OpModel>>),
    Or(Seq<Seq<OpModel>>),
    Nor(Seq<Seq<OpModel>>),
    /// The negation of one operation, applied where the `$not` stands.
    NotOp(Box<OpModel>),
    /// The negation of a whole sub-query, applied to the value.
    NotQuery(Seq<OpModel>),
    /// An operation applied to what a field path reaches.
    Field(Seq<char>, Box<OpModel>),
    /// A script expression evaluated with the value as `this`.
    Where(Seq<char>),
}

/// Where a probed value came from: the key and the parent object it was
/// taken from, when a field operation knows them.
pub enum Origin {
    Unknown,
    /// Taken under a key from a parent object (or, for an index key, from a
    /// parent array).
    Field(Seq<char>, JsonView),
    /// The path reached no value: the field is absent.
    Missing,
}

/// A value that a dotted path reaches, with the object or array it was
/// taken from by the path's last segment.
pub struct Leaf {
    pub value: JsonView,
    pub parent: JsonView,
}

/// Whether `v` equals one of `xs`, or, when `v` is an array, whether one of
/// its elements does.
pub open spec fn in_list(v: JsonView, xs: Seq<JsonView>) -> bool {
    match v {
        JsonView::Arr(items) => exists|i: int, j: int|
            0 <= i < items.len() && 0 <= j < xs.len() && #[trigger] json_eq(items[i], xs[j]),
        _ => exists|j: int| 0 <= j < xs.len() && #[trigger] json_eq(v, xs[j]),
    }
}

/// Whether one of `items` equals `x`.
pub open spec fn has_equal(items: Seq<JsonView>, x: JsonView) -> bool {
    exists|i: int| 0 <= i < items.len() && #[trigger] json_eq(items[i], x)
}

/// Whether `v` is an array that holds an element equal to each of `xs`.
pub open spec fn all_present(v: JsonView, xs: Seq<JsonView>) -> bool {
    match v {
        JsonView::Arr(items) => forall|j: int| 0 <= j < xs.len() ==> #[trigger] has_equal(items, xs[j]),
        _ => false,
    }
}

/// Whether `parent` has a member under key `k`: an object's field, or an
/// array's element at an index key.
pub open spec fn has_member(parent: JsonView, k: Seq<char>) -> bool {
    match parent {
        JsonView::Arr(xs) => match parse_index(k) {
            Some(i) => 0 <= i < xs.len(),
            None => false,
        },
        _ => field_of(parent, k) is Some,
    }
}

/// Whether the probed field is present: its key is in the parent when the
/// key and parent are known, not when the path reached nothing, and
/// otherwise the value is not null.
pub open spec fn is_present(v: JsonView, ctx: Origin) -> bool {
    match ctx {
        Origin::Field(k, parent) => has_member(parent, k),
        Origin::Unknown => !(v is Null),
        Origin::Missing => false,
    }
}

/// The values a dotted path reaches from `v` (taken from `parent`), from
/// its segment `d` on: an object descends into the field that the segment
/// names; an array into the element that an index segment names, or else
/// into that field of each of its elements that is an object. Each value
/// comes with the object or array that the last segment took it from.
pub open spec fn leaves(v: JsonView, parent: JsonView, segs: Seq<Seq<char>>, d: int) -> Seq<Leaf>
    decreases v, 0nat,
{
    if d < 0 || d >= segs.len() {
        seq![Leaf { value: v, parent }]
    } else {
        match v {
            JsonView::Arr(items) => match parse_index(segs[d]) {
                Some(k) => if 0 <= k < items.len() {
                    leaves(items[k], v, segs, d + 1)
                } else {
                    Seq::empty()
                },
                None => elem_leaves(items, segs, d, items.len() as int),
            },
            JsonView::Obj(ks, vs) => {
                let i = first_key(ks, segs[d], 0);
                if 0 <= i < vs.len() {
                    leaves(vs[i], v, segs, d + 1)
                } else {
                    Seq::empty()
                }
            },
            _ => Seq::empty(),
        }
    }
}

/// The leaves reached through the first `n` elements of an array.
pub open spec fn elem_leaves(items: Seq<JsonView>, segs: Seq<Seq<char>>, d: int, n: int) -> Seq<Leaf>
    decreases items, n,
{
    if n <= 0 || n > items.len() || d < 0 || d >= segs.len() {
        Seq::empty()
    } else {
        elem_leaves(items, segs, d, n - 1) + match items[n - 1] {
            JsonView::Obj(ks, vs) => {
                let i = first_key(ks, segs[d], 0);
                if 0 <= i < vs.len() {
                    leaves(vs[i], items[n - 1], segs, d + 1)
                } else {
                    Seq::empty()
                }
            },
            _ => Seq::empty(),
        }
    }
}

/// Whether operation `op` holds of the value `v`. `ctx` is the key and the
/// parent object that `v` was taken from, when a field operation knows them.
pub open spec fn op_test(op: OpModel, v: JsonView, ctx: Origin) -> bool
    decreases op, 0nat, 0nat,
{
    match op {
        OpModel::Eq(e) => json_eq(v, e),
        OpModel::Ne(e) => !json_eq(v, e),
        OpModel::Gt(t) => value_order(v, t) == Some(Ordering::Greater),
        OpModel::Gte(t) => value_order(v, t) == Some(Ordering::Greater) || value_order(v, t) == Some(Ordering::Equal),
        OpModel::Lt(t) => value_order(v, t) == Some(Ordering::Less),
        OpModel::Lte(t) => value_order(v, t) == Some(Ordering::Less) || value_order(v, t) == Some(Ordering::Equal),
        OpModel::In(xs) => in_list(v, xs),
        OpModel::Nin(xs) => !in_list(v, xs),
        OpModel::All(xs) => all_present(v, xs),
        OpModel::Exists(b) => is_present(v, ctx) == b,
        OpModel::Type(t) => type_matches(t, v),
        OpModel::Regex(p) => v is Str && regex_matches(p, v->Str_0),
        OpModel::Mod(d, r) => v is Num && trunc_rem(v->Num_0, d) == r,
        OpModel::Size(n) => match v {
            JsonView::Arr(items) => items.len() == n,
            JsonView::Str(s) => utf8_len(s) == n,
            _ => false,
        },
        OpModel::ElemMatch(ops) => match v {
            JsonView::Arr(items) => any_elem_match(ops, items, items.len() as int),
            _ => false,
        },
        OpModel::And(qs) => all_queries(qs, v, qs.len() as int),
        OpModel::Or(qs) => some_query(qs, v, qs.len() as int),
        OpModel::Nor(qs) => !some_query(qs, v, qs.len() as int),
        OpModel::NotOp(b) => !op_test(*b, v, ctx),
        OpModel::NotQuery(ops) => !all_hold(ops, v, ops.len() as int),
        OpModel::Where(_) => false,
        OpModel::Field(p, inner) => if p.len() == 0 {
            op_test(*inner, v, Origin::Unknown)
        } else if has_dot(p) {
            if leaves(v, v, split_dots(p), 0).len() == 0 {
                op_test(*inner, JsonView::Null, Origin::Missing)
            } else {
                any_leaf(*inner, split_dots(p).last(), leaves(v, v, split_dots(p), 0), leaves(v, v, split_dots(p), 0).len() as int)
            }
        } else {
            match v {
                JsonView::Obj(_, _) => match field_of(v, p) {
                    Some(f) => op_test(*inner, f, Origin::Field(p, v)),
                    None => op_test(*inner, JsonView::Null, Origin::Field(p, v)),
                },
                JsonView::Arr(items) => any_field_elem(*inner, p, items, items.len() as int),
                _ => op_test(*inner, JsonView::Null, Origin::Field(p, v)),
            }
        },
    }
}

/// Whether each of the first `n` of `ops` holds of `v`.
pub open spec fn all_hold(ops: Seq<OpModel>, v: JsonView, n: int) -> bool
    decreases ops, 0nat, n,
{
    if n <= 0 || n > ops.len() {
        true
    } else {
        all_hold(ops, v, n - 1) && op_test(ops[n - 1], v, Origin::Unknown)
    }
}

/// Whether the sub-query `ops` matches one of the first `n` of `items`.
pub open spec fn any_elem_match(ops: Seq<OpModel>, items: Seq<JsonView>, n: int) -> bool
    decreases ops, 1nat, n,
{
    if n <= 0 || n > items.len() {
        false
    } else {
        any_elem_match(ops, items, n - 1) || all_hold(ops, items[n - 1], ops.len() as int)
    }
}

/// Whether each of the first `n` sub-queries matches `v`.
pub open spec fn all_queries(qs: Seq<Seq<OpModel>>, v: JsonView, n: int) -> bool
    decreases qs, 0nat, n,
{
    if n <= 0 || n > qs.len() {
        true
    } else {
        all_queries(qs, v, n - 1) && all_hold(qs[n - 1], v, qs[n - 1].len() as int)
    }
}

/// Whether one of the first `n` sub-queries matches `v`.
pub open spec fn some_query(qs: Seq<Seq<OpModel>>, v: JsonView, n: int) -> bool
    decreases qs, 0nat, n,
{
    if n <= 0 || n > qs.len() {
        false
    } else {
        some_query(qs, v, n - 1) || all_hold(qs[n - 1], v, qs[n - 1].len() as int)
    }
}

/// Whether `inner` holds of one of the first `n` of the leaves `ls`, each
/// probed under key `k` in its parent.
pub open spec fn any_leaf(inner: OpModel, k: Seq<char>, ls: Seq<Leaf>, n: int) -> bool
    decreases inner, 1nat, n,
{
    if n <= 0 || n > ls.len() {
        false
    } else {
        any_leaf(inner, k, ls, n - 1) || op_test(inner, ls[n - 1].value, Origin::Field(k, ls[n - 1].parent))
    }
}

/// Whether, among the first `n` of `items`, one is an object with key `p`
/// whose value `inner` holds of.
pub open spec fn any_field_elem(inner: OpModel, p: Seq<char>, items: Seq<JsonView>, n: int) -> bool
    decreases inner, 1nat, n,
{
    if n <= 0 || n > items.len() {
        false
    } else {
        any_field_elem(inner, p, items, n - 1) || match field_of(items[n - 1], p) {
            Some(f) => op_test(inner, f, Origin::Field(p, items[n - 1])),
            None => false,
        }
    }
}

/// Whether every one of `ops` holds of the document `d`: the root-level
/// operations of a query are joined by AND.
pub open spec fn ops_match(ops: Seq<OpModel>, d: JsonView) -> bool {
    all_hold(ops, d, ops.len() as int)
}

/// Whether an operation holds no `$where` script. The outcome of a script
/// is not a function of its inputs (it may read the clock or random
/// numbers), so [`op_test`] states results for script-free operations only.
pub open spec fn script_free(op: OpModel) -> bool
    decreases op, 0nat, 0nat,
{
    match op {
        OpModel::Where(_) => false,
        OpModel::ElemMatch(ops) => all_free(ops, ops.len() as int),
        OpModel::NotQuery(ops) => all_free(ops, ops.len() as int),
        OpModel::And(qs) => queries_free(qs, qs.len() as int),
        OpModel::Or(qs) => queries_free(qs, qs.len() as int),
        OpModel::Nor(qs) => queries_free(qs, qs.len() as int),
        OpModel::NotOp(b) => script_free(*b),
        OpModel::Field(_, b) => script_free(*b),
        _ => true,
    }
}

/// Whether the first `n` of `ops` hold no script.
pub open spec fn all_free(ops: Seq<OpModel>, n: int) -> bool
    decreases ops, 0nat, n,
{
    if n <= 0 || n > ops.len() {
        true
    } else {
        all_free(ops, n - 1) && script_free(ops[n - 1])
    }
}

/// Whether the first `n` sub-queries hold no script.
pub open spec fn queries_free(qs: Seq<Seq<OpModel>>, n: int) -> bool
    decreases qs, 0nat, n,
{
    if n <= 0 || n > qs.len() {
        true
    } else {
        queries_free(qs, n - 1) && all_free(qs[n - 1], qs[n - 1].len() as int)
    }
}

proof fn lemma_all_free_at(ops: Seq<OpModel>, n: int, j: int)
    requires
        all_free(ops, n),
        0 <= j < n <= ops.len(),
    ensures
        script_free(ops[j]),
    decreases n,
{
    if j < n - 1 {
        lemma_all_free_at(ops, n - 1, j);
    }
}

proof fn lemma_queries_free_at(qs: Seq<Seq<OpModel>>, n: int, i: int)
    requires
        queries_free(qs, n),
        0 <= i < n <= qs.len(),
    ensures
        all_free(qs[i], qs[i].len() as int),
    decreases n,
{
    if i < n - 1 {
        lemma_queries_free_at(qs, n - 1, i);
    }
}

/// What an evaluation result satisfies: it is `Ok(b)` when no script is
/// involved, and any error is an evaluation error.
pub open spec fn fits(r: Result<bool, crate::error::SiftError>, free: bool, b: bool) -> bool {
    &&& free ==> r == Ok::<bool, crate::error::SiftError>(b)
    &&& r is Err ==> r->Err_0@ == crate::error::ErrorKind::EvaluationError
}

/// A compiled operation, ready to test values.
pub enum Operation {
    Eq(Value),
    Ne(Value),
    Gt(Value),
    Gte(Value),
    Lt(Value),
    Lte(Value),
    In(Vec<Value>),
    Nin(Vec<Value>),
    All(Vec<Value>),
    Exists(bool),
    Type(JsonType),
    Regex(regex::Regex),
    /// Divisor and remainder, in fixed point.
    Mod(i128, i128),
    Size(u64),
    ElemMatch(Vec<Operation>),
    And(Vec<Vec<Operation>>),
    Or(Vec<Vec<Operation>>),
    Nor(Vec<Vec<Operation>>),
    NotOp(Box<Operation>),
    NotQuery(Vec<Operation>),
    Field(String, Box<Operation>),
    /// A script expression.
    Where(String),
}

/// The views of a list of values.
pub open spec fn values_view(xs: Vec<Value>) -> Seq<JsonView> {
    Seq::new(xs.len() as nat, |i: int| xs[i]@)
}

impl View for Operation {
    type V = OpModel;

    open spec fn view(&self) -> OpModel
        decreases self,
    {
        match *self {
            Operation::Eq(e) => OpModel::Eq(e@),
            Operation::Ne(e) => OpModel::Ne(e@),
            Operation::Gt(e) => OpModel::Gt(e@),
            Operation::Gte(e) => OpModel::Gte(e@),
            Operation::Lt(e) => OpModel::Lt(e@),
            Operation::Lte(e) => OpModel::Lte(e@),
            Operation::In(xs) => OpModel::In(values_view(xs)),
            Operation::Nin(xs) => OpModel::Nin(values_view(xs)),
            Operation::All(xs) => OpModel::All(values_view(xs)),
            Operation::Exists(b) => OpModel::Exists(b),
            Operation::Type(t) => OpModel::Type(t),
            Operation::Regex(re) => OpModel::Regex(regex_source(re)),
            Operation::Mod(d, r) => OpModel::Mod(d as int, r as int),
            Operation::Size(n) => OpModel::Size(n as int),
            Operation::ElemMatch(ops) => OpModel::ElemMatch(
                Seq::new(ops.len() as nat, |j: int| if 0 <= j < ops.len() { ops[j].view() } else { OpModel::Exists(false) }),
            ),
            Operation::And(qs) => OpModel::And(
                Seq::new(
                    qs.len() as nat,
                    |i: int| if 0 <= i < qs.len() {
                        Seq::new(qs[i].len() as nat, |j: int| if 0 <= j < qs[i].len() { qs[i][j].view() } else { OpModel::Exists(false) })
                    } else {
                        Seq::empty()
                    },
                ),
            ),
            Operation::Or(qs) => OpModel::Or(
                Seq::new(
                    qs.len() as nat,
                    |i: int| if 0 <= i < qs.len() {
                        Seq::new(qs[i].len() as nat, |j: int| if 0 <= j < qs[i].len() { qs[i][j].view() } else { OpModel::Exists(false) })
                    } else {
                        Seq::empty()
                    },
                ),
            ),
            Operation::Nor(qs) => OpModel::Nor(
                Seq::new(
                    qs.len() as nat,
                    |i: int| if 0 <= i < qs.len() {
                        Seq::new(qs[i].len() as nat, |j: int| if 0 <= j < qs[i].len() { qs[i][j].view() } else { OpModel::Exists(false) })
                    } else {
                        Seq::empty()
                    },
                ),
            ),
            Operation::NotOp(b) => OpModel::NotOp(Box::new((*b).view())),
            Operation::NotQuery(ops) => OpModel::NotQuery(
                Seq::new(ops.len() as nat, |j: int| if 0 <= j < ops.len() { ops[j].view() } else { OpModel::Exists(false) }),
            ),
            Operation::Field(p, b) => OpModel::Field(p@, Box::new((*b).view())),
            Operation::Where(e) => OpModel::Where(e@),
        }
    }
}

/// The origin a caller hands to [`Operation::test`]: the key and parent
/// when both are given.
pub open spec fn origin_of(key: Option<&str>, parent: Option<&Value>) -> Origin {
    match (key, parent) {
        (Some(k), Some(p)) => Origin::Field(k@, p@),
        _ => Origin::Unknown,
    }
}

impl Operation {
    /// Tests the operation on `value`; `key` and `parent` say where the value
    /// was taken from, when known. Only a `$where` script can fail, with an
    /// evaluation error.
    pub fn test(&self, value: &Value, key: Option<&str>, parent: Option<&Value>) -> (r: Result<bool, crate::error::SiftError>)
        ensures
            fits(r, script_free(self@), op_test(self@, value@, origin_of(key, parent))),
    {
        match (key, parent) {
            (Some(k), Some(p)) => {
                let ks = crate::compile::text(k);
                test_op(self, value, Probe::Field(&ks, p))
            },
            _ => test_op(self, value, Probe::Unknown),
        }
    }
}

/// The views of a list of operations.
pub open spec fn ops_view(ops: Vec<Operation>) -> Seq<OpModel> {
    Seq::new(ops.len() as nat, |j: int| ops[j]@)
}

/// The views of a list of sub-queries.
pub open spec fn queries_view(qs: Vec<Vec<Operation>>) -> Seq<Seq<OpModel>> {
    Seq::new(qs.len() as nat, |i: int| ops_view(qs[i]))
}

/// The view of an operation is made of its parts' views.
pub proof fn lemma_op_view(op: &Operation)
    ensures
        match *op {
            Operation::Eq(e) => op@ == OpModel::Eq(e@),
            Operation::Ne(e) => op@ == OpModel::Ne(e@),
            Operation::Gt(e) => op@ == OpModel::Gt(e@),
            Operation::Gte(e) => op@ == OpModel::Gte(e@),
            Operation::Lt(e) => op@ == OpModel::Lt(e@),
            Operation::Lte(e) => op@ == OpModel::Lte(e@),
            Operation::In(xs) => op@ == OpModel::In(values_view(xs)),
            Operation::Nin(xs) => op@ == OpModel::Nin(values_view(xs)),
            Operation::All(xs) => op@ == OpModel::All(values_view(xs)),
            Operation::Exists(b) => op@ == OpModel::Exists(b),
            Operation::Type(t) => op@ == OpModel::Type(t),
            Operation::Regex(re) => op@ == OpModel::Regex(regex_source(re)),
            Operation::Mod(d, r) => op@ == OpModel::Mod(d as int, r as int),
            Operation::Size(n) => op@ == OpModel::Size(n as int),
            Operation::NotOp(b) => op@ == OpModel::NotOp(Box::new((*b)@)),
            Operation::Field(p, b) => op@ == OpModel::Field(p@, Box::new((*b)@)),
            Operation::Where(e) => op@ == OpModel::Where(e@),
            Operation::ElemMatch(ops) => op@ == OpModel::ElemMatch(ops_view(ops)),
            Operation::NotQuery(ops) => op@ == OpModel::NotQuery(ops_view(ops)),
            Operation::And(qs) => op@ == OpModel::And(queries_view(qs)),
            Operation::Or(qs) => op@ == OpModel::Or(queries_view(qs)),
            Operation::Nor(qs) => op@ == OpModel::Nor(queries_view(qs)),
        },
{
    match *op {
        Operation::In(xs) => {
            assert(op@->In_0 =~= values_view(xs));
        },
        Operation::Nin(xs) => {
            assert(op@->Nin_0 =~= values_view(xs));
        },
        Operation::All(xs) => {
            assert(op@->All_0 =~= values_view(xs));
        },
        Operation::ElemMatch(ops) => {
            assert(op@->ElemMatch_0 =~= ops_view(ops));
        },
        Operation::NotQuery(ops) => {
            assert(op@->NotQuery_0 =~= ops_view(ops));
        },
        Operation::And(qs) => {
            assert forall|i: int| 0 <= i < qs.len() implies #[trigger] op@->And_0[i] =~= ops_view(qs[i]) by {}
            assert(op@->And_0 =~= queries_view(qs));
        },
        Operation::Or(qs) => {
            assert forall|i: int| 0 <= i < qs.len() implies #[trigger] op@->Or_0[i] =~= ops_view(qs[i]) by {}
            assert(op@->Or_0 =~= queries_view(qs));
        },
        Operation::Nor(qs) => {
            assert forall|i: int| 0 <= i < qs.len() implies #[trigger] op@->Nor_0[i] =~= ops_view(qs[i]) by {}
            assert(op@->Nor_0 =~= queries_view(qs));
        },
        _ => {},
    }
}

/// Where a tested value came from, as a field operation knows it.
pub enum Probe<'a> {
    Unknown,
    /// The key, and the object or array the value was taken from.
    Field(&'a String, &'a Value),
    /// The path reached no value.
    Missing,
}

/// The view of the origin that a field operation hands on.
pub open spec fn ctx_view(ctx: Probe) -> Origin {
    match ctx {
        Probe::Field(k, p) => Origin::Field(k@, p@),
        Probe::Unknown => Origin::Unknown,
        Probe::Missing => Origin::Missing,
    }
}

/// A leaf of a dotted path: the value reached and where it was taken from.
pub struct LeafRef<'a> {
    pub value: &'a Value,
    pub parent: &'a Value,
}

impl<'a> View for LeafRef<'a> {
    type V = Leaf;

    open spec fn view(&self) -> Leaf {
        Leaf { value: self.value@, parent: self.parent@ }
    }
}

/// Whether some element of `xs` equals `v` (`v` on the left).
fn equal_to_some(v: &Value, xs: &Vec<Value>) -> (r: bool)
    ensures
        r == exists|j: int| 0 <= j < xs.len() && #[trigger] json_eq(v@, values_view(*xs)[j]),
{
    let mut j: usize = 0;
    while j < xs.len()
        invariant
            j <= xs.len(),
            forall|k: int| 0 <= k < j ==> !#[trigger] json_eq(v@, values_view(*xs)[k]),
        decreases xs.len() - j,
    {
        if values_equal(v, &xs[j]) {
            assert(json_eq(v@, values_view(*xs)[j as int]));
            return true;
        }
        j = j + 1;
    }
    false
}

/// Whether some element of `items` equals `x` (`x` on the right).
fn some_equal_to(items: &Vec<Value>, x: &Value) -> (r: bool)
    ensures
        r == has_equal(values_view(*items), x@),
{
    let mut i: usize = 0;
    while i < items.len()
        invariant
            i <= items.len(),
            forall|k: int| 0 <= k < i ==> !#[trigger] json_eq(values_view(*items)[k], x@),
        decreases items.len() - i,
    {
        assert(values_view(*items)[i as int] == items[i as int]@);
        if values_equal(&items[i], x) {
            assert(json_eq(values_view(*items)[i as int], x@));
            return true;
        }
        i = i + 1;
    }
    false
}

/// Whether `v` is in `xs` as `$in` states it (see [`in_list`]).
fn in_values(v: &Value, xs: &Vec<Value>) -> (r: bool)
    ensures
        r == in_list(v@, values_view(*xs)),
{
    proof { lemma_view_shape(v); }
    match v {
        Value::Array(items) => {
            let mut i: usize = 0;
            while i < items.len()
                invariant
                    i <= items.len(),
                    *v == Value::Array(*items),
                    v@->Arr_0.len() == items.len(),
                    forall|k: int| 0 <= k < items.len() ==> #[trigger] v@->Arr_0[k] == items[k]@,
                    forall|k: int, j: int| 0 <= k < i && 0 <= j < xs.len() ==> !#[trigger] json_eq(v@->Arr_0[k], values_view(*xs)[j]),
                decreases items.len() - i,
            {
                if equal_to_some(&items[i], xs) {
                    proof {
                        let j = choose|j: int| 0 <= j < xs.len() && #[trigger] json_eq(items[i as int]@, values_view(*xs)[j]);
                        assert(json_eq(v@->Arr_0[i as int], values_view(*xs)[j]));
                    }
                    return true;
                }
                i = i + 1;
            }
            false
        },
        _ => equal_to_some(v, xs),
    }
}

/// Whether `v` is an array holding each of `xs` (see [`all_present`]).
fn all_values(v: &Value, xs: &Vec<Value>) -> (r: bool)
    ensures
        r == all_present(v@, values_view(*xs)),
{
    proof { lemma_view_shape(v); }
    match v {
        Value::Array(items) => {
            assert(v@->Arr_0 =~= values_view(*items));
            let mut j: usize = 0;
            while j < xs.len()
                invariant
                    j <= xs.len(),
                    v@->Arr_0 == values_view(*items),
                    forall|m: int| 0 <= m < j ==> #[trigger] has_equal(values_view(*items), values_view(*xs)[m]),
                decreases xs.len() - j,
            {
                assert(values_view(*xs)[j as int] == xs[j as int]@);
                if !some_equal_to(items, &xs[j]) {
                    return false;
                }
                j = j + 1;
            }
            true
        },
        _ => false,
    }
}

/// The remainder of `x` divided by `d`, as [`trunc_rem`] states.
fn rem_exec(x: i128, d: i128) -> (r: i128)
    ensures
        r as int == trunc_rem(x as int, d as int),
{
    if d == 0 {
        return 0;
    }
    let ax: u128 = if x < 0 { ((-(x + 1)) as u128) + 1 } else { x as u128 };
    let ad: u128 = if d < 0 { ((-(d + 1)) as u128) + 1 } else { d as u128 };
    let m = ax % ad;
    assert(m < ad);
    if x < 0 {
        -((m as i128 - 1) + 1)
    } else {
        m as i128
    }
}

/// Whether every one of `ops` holds of `v`.
pub fn test_all(ops: &Vec<Operation>, v: &Value) -> (r: Result<bool, crate::error::SiftError>)
    ensures
        fits(r, all_free(ops_view(*ops), ops.len() as int), all_hold(ops_view(*ops), v@, ops.len() as int)),
    decreases ops, 0nat,
{
    let mut acc = true;
    let mut j: usize = 0;
    while j < ops.len()
        invariant
            j <= ops.len(),
            all_free(ops_view(*ops), j as int) ==> acc == all_hold(ops_view(*ops), v@, j as int),
        decreases ops.len() - j,
    {
        proof {
            assert(decreases_to!(*ops => ops@));
            assert(decreases_to!(ops@ => ops@[j as int]));
        }
        if acc {
            match test_op(&ops[j], v, Probe::Unknown) {
                Ok(b) => {
                    acc = b;
                },
                Err(e) => {
                    proof {
                        if all_free(ops_view(*ops), ops.len() as int) {
                            lemma_all_free_at(ops_view(*ops), ops.len() as int, j as int);
                        }
                    }
                    return Err(e);
                },
            }
        }
        j = j + 1;
    }
    Ok(acc)
}

/// Whether one of the sub-queries `qs` holds of `v`.
fn test_any(qs: &Vec<Vec<Operation>>, v: &Value) -> (r: Result<bool, crate::error::SiftError>)
    ensures
        fits(r, queries_free(queries_view(*qs), qs.len() as int), some_query(queries_view(*qs), v@, qs.len() as int)),
    decreases qs, 0nat,
{
    let mut acc = false;
    let mut i: usize = 0;
    while i < qs.len()
        invariant
            i <= qs.len(),
            queries_free(queries_view(*qs), i as int) ==> acc == some_query(queries_view(*qs), v@, i as int),
        decreases qs.len() - i,
    {
        proof {
            assert(decreases_to!(*qs => qs@));
            assert(decreases_to!(qs@ => qs@[i as int]));
            assert(queries_view(*qs)[i as int] == ops_view(qs[i as int]));
        }
        if !acc {
            match test_all(&qs[i], v) {
                Ok(b) => {
                    acc = b;
                },
                Err(e) => {
                    proof {
                        if queries_free(queries_view(*qs), qs.len() as int) {
                            lemma_queries_free_at(queries_view(*qs), qs.len() as int, i as int);
                        }
                    }
                    return Err(e);
                },
            }
        }
        i = i + 1;
    }
    Ok(acc)
}

/// Whether every one of the sub-queries `qs` holds of `v`.
fn test_every(qs: &Vec<Vec<Operation>>, v: &Value) -> (r: Result<bool, crate::error::SiftError>)
    ensures
        fits(r, queries_free(queries_view(*qs), qs.len() as int), all_queries(queries_view(*qs), v@, qs.len() as int)),
    decreases qs, 0nat,
{
    let mut acc = true;
    let mut i: usize = 0;
    while i < qs.len()
        invariant
            i <= qs.len(),
            queries_free(queries_view(*qs), i as int) ==> acc == all_queries(queries_view(*qs), v@, i as int),
        decreases qs.len() - i,
    {
        proof {
            assert(decreases_to!(*qs => qs@));
            assert(decreases_to!(qs@ => qs@[i as int]));
            assert(queries_view(*qs)[i as int] == ops_view(qs[i as int]));
        }
        if acc {
            match test_all(&qs[i], v) {
                Ok(b) => {
                    acc = b;
                },
                Err(e) => {
                    proof {
                        if queries_free(queries_view(*qs), qs.len() as int) {
                            lemma_queries_free_at(queries_view(*qs), qs.len() as int, i as int);
                        }
                    }
                    return Err(e);
                },
            }
        }
        i = i + 1;
    }
    Ok(acc)
}

/// The negation of an evaluation result.
fn negate(r: Result<bool, crate::error::SiftError>) -> (o: Result<bool, crate::error::SiftError>)
    ensures
        match r {
            Ok(b) => o == Ok::<bool, crate::error::SiftError>(!b),
            Err(e) => o == Err::<bool, crate::error::SiftError>(e),
        },
{
    match r {
        Ok(b) => Ok(!b),
        Err(e) => Err(e),
    }
}

/// Tests operation `op` on `v`, as [`op_test`] states for script-free
/// operations; `ctx` says where `v` was taken from.
pub fn test_op(op: &Operation, v: &Value, ctx: Probe) -> (r: Result<bool, crate::error::SiftError>)
    ensures
        fits(r, script_free(op@), op_test(op@, v@, ctx_view(ctx))),
    decreases op, 0nat,
{
    proof {
        lemma_view_shape(v);
        lemma_op_view(op);
    }
    match op {
        Operation::ElemMatch(ops) => match v {
            Value::Array(items) => {
                let mut acc = false;
                let mut i: usize = 0;
                while i < items.len()
                    invariant
                        i <= items.len(),
                        *v == Value::Array(*items),
                        *op == Operation::ElemMatch(*ops),
                        op@ == OpModel::ElemMatch(ops_view(*ops)),
                        v@->Arr_0.len() == items.len(),
                        forall|k: int| 0 <= k < items.len() ==> #[trigger] v@->Arr_0[k] == items[k]@,
                        all_free(ops_view(*ops), ops.len() as int) ==> acc == any_elem_match(ops_view(*ops), v@->Arr_0, i as int),
                    decreases items.len() - i,
                {
                    proof { assert(decreases_to!(*op => (*op)->ElemMatch_0)); }
                    if !acc {
                        match test_all(ops, &items[i]) {
                            Ok(b) => {
                                acc = b;
                            },
                            Err(e) => {
                                return Err(e);
                            },
                        }
                    }
                    i = i + 1;
                }
                Ok(acc)
            },
            _ => Ok(false),
        },
        Operation::And(qs) => {
            proof { assert(decreases_to!(*op => (*op)->And_0)); }
            test_every(qs, v)
        },
        Operation::Or(qs) => {
            proof { assert(decreases_to!(*op => (*op)->Or_0)); }
            test_any(qs, v)
        },
        Operation::Nor(qs) => {
            proof { assert(decreases_to!(*op => (*op)->Nor_0)); }
            negate(test_any(qs, v))
        },
        Operation::NotOp(b) => negate(test_op(b, v, ctx)),
        Operation::NotQuery(ops) => {
            proof { assert(decreases_to!(*op => (*op)->NotQuery_0)); }
            negate(test_all(ops, v))
        },
        Operation::Field(p, inner) => {
            proof { assert(decreases_to!(*op => (*op)->Field_1)); }
            test_field(p, inner, v)
        },
        Operation::Where(e) => crate::script::evaluate_where(e, v),
        _ => Ok(test_plain(op, v, ctx)),
    }
}

/// Tests an operation that holds no sub-operation, as [`op_test`] states.
fn test_plain(op: &Operation, v: &Value, ctx: Probe) -> (r: bool)
    requires
        !(op is ElemMatch || op is And || op is Or || op is Nor || op is NotOp || op is NotQuery || op is Field
            || op is Where),
    ensures
        r == op_test(op@, v@, ctx_view(ctx)),
        script_free(op@),
{
    proof {
        lemma_view_shape(v);
        lemma_op_view(op);
    }
    match op {
        Operation::Eq(e) => values_equal(v, e),
        Operation::Ne(e) => !values_equal(v, e),
        Operation::Gt(t) => match compare_values(v, t) {
            Some(Ordering::Greater) => true,
            _ => false,
        },
        Operation::Gte(t) => match compare_values(v, t) {
            Some(Ordering::Greater) | Some(Ordering::Equal) => true,
            _ => false,
        },
        Operation::Lt(t) => match compare_values(v, t) {
            Some(Ordering::Less) => true,
            _ => false,
        },
        Operation::Lte(t) => match compare_values(v, t) {
            Some(Ordering::Less) | Some(Ordering::Equal) => true,
            _ => false,
        },
        Operation::In(xs) => in_values(v, xs),
        Operation::Nin(xs) => !in_values(v, xs),
        Operation::All(xs) => all_values(v, xs),
        Operation::Exists(b) => {
            let present = match ctx {
                Probe::Field(k, parent) => {
                    proof { lemma_view_shape(parent); }
                    match parent {
                        Value::Object(es) => find_entry(es, k).is_some(),
                        Value::Array(xs) => match parse_index_exec(k) {
                            Some(i) => i < xs.len(),
                            None => false,
                        },
                        _ => false,
                    }
                },
                Probe::Unknown => match v {
                    Value::Null => false,
                    _ => true,
                },
                Probe::Missing => false,
            };
            present == *b
        },
        Operation::Type(t) => match (t, v) {
            (JsonType::Null, Value::Null) => true,
            (JsonType::Bool, Value::Bool(_)) => true,
            (JsonType::Number, Value::Number(_)) => true,
            (JsonType::Double, Value::Number(n)) => n.is_float,
            (JsonType::Int, Value::Number(n)) => !n.is_float,
            (JsonType::String, Value::String(_)) => true,
            (JsonType::Array, Value::Array(_)) => true,
            (JsonType::Object, Value::Object(_)) => true,
            _ => false,
        },
        Operation::Regex(re) => match v {
            Value::String(s) => regex_is_match(re, s.as_str()),
            _ => false,
        },
        Operation::Mod(d, r) => match v {
            Value::Number(n) => rem_exec(n.scaled, *d) == *r,
            _ => false,
        },
        Operation::Size(n) => match v {
            Value::Array(items) => items.len() as u128 == *n as u128,
            Value::String(s) => byte_len(s) == *n as u128,
            _ => false,
        },
        _ => false,
    }
}

/// Tests `inner` on what `path` reaches in `v`, as [`op_test`] states for
/// a field operation.
fn test_field(path: &String, inner: &Box<Operation>, v: &Value) -> (r: Result<bool, crate::error::SiftError>)
    ensures
        fits(r, script_free((**inner)@), op_test(OpModel::Field(path@, Box::new((**inner)@)), v@, Origin::Unknown)),
    decreases **inner, 1nat,
{
    proof { lemma_view_shape(v); }
    if path.as_str().unicode_len() == 0 {
        return test_op(inner, v, Probe::Unknown);
    }
    if contains_dot(path) {
        let segs = split_path(path);
        let ghost sv = segs@.map_values(|x: String| x@);
        proof { crate::text::lemma_split_nonempty(path@); }
        let mut found: Vec<LeafRef> = Vec::new();
        collect_leaves(v, v, &segs, 0, &mut found);
        assert(found@.map_values(|x: LeafRef| x@) =~= leaves(v@, v@, sv, 0));
        if found.len() == 0 {
            let null = Value::Null;
            return test_op(inner, &null, Probe::Missing);
        }
        let last = &segs[segs.len() - 1];
        assert(last@ == sv.last());
        let mut acc = false;
        let mut i: usize = 0;
        while i < found.len()
            invariant
                i <= found.len(),
                last@ == split_dots(path@).last(),
                found@.map_values(|x: LeafRef| x@) == leaves(v@, v@, split_dots(path@), 0),
                script_free((**inner)@) ==> acc == any_leaf((**inner)@, split_dots(path@).last(), leaves(v@, v@, split_dots(path@), 0), i as int),
            decreases found.len() - i,
        {
            assert(found@.map_values(|x: LeafRef| x@)[i as int] == found[i as int]@);
            if !acc {
                match test_op(inner, found[i].value, Probe::Field(last, found[i].parent)) {
                    Ok(b) => {
                        acc = b;
                    },
                    Err(e) => {
                        return Err(e);
                    },
                }
            }
            i = i + 1;
        }
        return Ok(acc);
    }
    match v {
        Value::Object(es) => match find_entry(es, path) {
            Some(f) => test_op(inner, f, Probe::Field(path, v)),
            None => {
                let null = Value::Null;
                test_op(inner, &null, Probe::Field(path, v))
            },
        },
        Value::Array(items) => {
            let mut acc = false;
            let mut i: usize = 0;
            while i < items.len()
                invariant
                    i <= items.len(),
                    *v == Value::Array(*items),
                    v@->Arr_0.len() == items.len(),
                    forall|k: int| 0 <= k < items.len() ==> #[trigger] v@->Arr_0[k] == items[k]@,
                    script_free((**inner)@) ==> acc == any_field_elem((**inner)@, path@, v@->Arr_0, i as int),
                decreases items.len() - i,
            {
                let item = &items[i];
                proof { lemma_view_shape(item); }
                if !acc {
                    match item {
                        Value::Object(es) => match find_entry(es, path) {
                            Some(f) => {
                                match test_op(inner, f, Probe::Field(path, item)) {
                                    Ok(b) => {
                                        acc = b;
                                    },
                                    Err(e) => {
                                        return Err(e);
                                    },
                                }
                            },
                            None => {},
                        },
                        _ => {},
                    }
                }
                i = i + 1;
            }
            Ok(acc)
        },
        _ => {
            let null = Value::Null;
            test_op(inner, &null, Probe::Field(path, v))
        },
    }
}

/// Appends to `out` the leaves that the path segments `segs`, from `d` on,
/// reach from `v`, which was taken from `parent` (see [`leaves`]).
fn collect_leaves<'a>(v: &'a Value, parent: &'a Value, segs: &Vec<String>, d: usize, out: &mut Vec<LeafRef<'a>>)
    ensures
        final(out)@.map_values(|x: LeafRef| x@) == old(out)@.map_values(|x: LeafRef| x@) + leaves(
            v@,
            parent@,
            segs@.map_values(|x: String| x@),
            d as int,
        ),
    decreases v, 1nat,
{
    let ghost sv = segs@.map_values(|x: String| x@);
    proof { lemma_view_shape(v); }
    if d >= segs.len() {
        out.push(LeafRef { value: v, parent });
        assert(final(out)@.map_values(|x: LeafRef| x@) =~= old(out)@.map_values(|x: LeafRef| x@) + seq![Leaf { value: v@, parent: parent@ }]);
        return;
    }
    assert(sv[d as int] == segs[d as int]@);
    match v {
        Value::Array(items) => match parse_index_exec(&segs[d]) {
            Some(k) => {
                if k < items.len() {
                    proof { assert(decreases_to!(*v => (*v)->Array_0)); }
                    collect_leaves(&items[k], v, segs, d + 1, out);
                } else {
                    assert(final(out)@.map_values(|x: LeafRef| x@) =~= old(out)@.map_values(|x: LeafRef| x@) + Seq::<Leaf>::empty());
                }
            },
            None => {
                collect_elem_leaves(v, items, segs, d, out);
            },
        },
        Value::Object(es) => {
            match find_index(es, &segs[d]) {
                Some(k) => {
                    proof {
                        assert(decreases_to!(*v => (*v)->Object_0));
                        assert(decreases_to!(*es => es@));
                        assert(decreases_to!(es@ => es@[k as int]));
                        assert(decreases_to!(es@[k as int] => es@[k as int].1));
                    }
                    collect_leaves(&es[k].1, v, segs, d + 1, out);
                },
                None => {
                    assert(final(out)@.map_values(|x: LeafRef| x@) =~= old(out)@.map_values(|x: LeafRef| x@) + Seq::<Leaf>::empty());
                },
            }
        },
        _ => {
            assert(final(out)@.map_values(|x: LeafRef| x@) =~= old(out)@.map_values(|x: LeafRef| x@) + Seq::<Leaf>::empty());
        },
    }
}

/// Appends the leaves reached through each element of the array `items`
/// (the elements of `v`) that is an object (see [`elem_leaves`]).
fn collect_elem_leaves<'a>(v: &'a Value, items: &'a Vec<Value>, segs: &Vec<String>, d: usize, out: &mut Vec<LeafRef<'a>>)
    requires
        *v == Value::Array(*items),
        d < segs.len(),
    ensures
        final(out)@.map_values(|x: LeafRef| x@) == old(out)@.map_values(|x: LeafRef| x@) + elem_leaves(
            v@->Arr_0,
            segs@.map_values(|x: String| x@),
            d as int,
            items.len() as int,
        ),
    decreases v, 0nat,
{
    let ghost sv = segs@.map_values(|x: String| x@);
    proof { lemma_view_shape(v); }
    let mut i: usize = 0;
    while i < items.len()
        invariant
            i <= items.len(),
            d < segs.len(),
            *v == Value::Array(*items),
            sv == segs@.map_values(|x: String| x@),
            v@->Arr_0.len() == items.len(),
            forall|k: int| 0 <= k < items.len() ==> #[trigger] v@->Arr_0[k] == items[k]@,
            out@.map_values(|x: LeafRef| x@) == old(out)@.map_values(|x: LeafRef| x@) + elem_leaves(v@->Arr_0, sv, d as int, i as int),
        decreases items.len() - i,
    {
        let item = &items[i];
        proof { lemma_view_shape(item); }
        assert(sv[d as int] == segs[d as int]@);
        match item {
            Value::Object(es) => match find_index(es, &segs[d]) {
                Some(k) => {
                    proof {
                        assert(decreases_to!(*v => (*v)->Array_0));
                        assert(decreases_to!(*items => items@));
                        assert(decreases_to!(items@ => items@[i as int]));
                        assert(decreases_to!(items@[i as int] => items@[i as int]->Object_0));
                        assert(decreases_to!(*es => es@));
                        assert(decreases_to!(es@ => es@[k as int]));
                        assert(decreases_to!(es@[k as int] => es@[k as int].1));
                    }
                    collect_leaves(&es[k].1, item, segs, d + 1, out);
                },
                None => {},
            },
            _ => {},
        }
        assert(out@.map_values(|x: LeafRef| x@) =~= old(out)@.map_values(|x: LeafRef| x@) + elem_leaves(v@->Arr_0, sv, d as int, i as int + 1));
        i = i + 1;
    }
}

} // verus!
