use crate::compile::{combined_spec, compile_entries, compile_entry, compile_list, compile_query, create_spec, has_key, is_logical, all_dollar, some_dollar, ops_result, OperatorKind, is_name, is_logical_key, text};
use crate::error::{ErrorKind, SiftError};
use crate::ops::{all_free, fits, ops_match, ops_view, test_all, OpModel, Operation};
use crate::text::{is_dollar, starts_with_dollar};
use crate::value::{deep_clone, first_key, lemma_first_key_range, lemma_view_shape, JsonView, Value};
use vstd::prelude::*;

verus! {

broadcast use vstd::std_specs::vec::group_vec_axioms;

/// The model of a parsed condition: which shape it has, and the value it
/// was parsed from.
pub enum CondModel {
    /// A literal, tested for equality.
    Value(JsonView),
    /// The argument of a logical operator that is the key itself.
    Operator(JsonView),
    /// An object whose keys are all operators.
    Operations(JsonView),
    /// An object of operators and literal fields.
    Mixed(JsonView),
    /// The `$or` branches and the `$and` branches of a query that has both.
    Combined(JsonView, JsonView),
}

/// The model of one condition of a parsed query.
pub struct CondView {
    pub path: Seq<char>,
    pub cond: CondModel,
}

/// A condition of a query, as the parser classifies it.
pub enum QueryCondition {
    /// A literal, tested for equality with the field.
    Value(Value),
    /// The argument of a logical operator (`$and`, `$or`, `$not`, `$nor`,
    /// `$where`) that stands as the key itself.
    Operator(Value),
    /// An object whose keys are all operators, applied to the field.
    Operations(Value),
    /// An object of operators and literal fields: the literal fields are
    /// tested together for equality, the operators applied beside them.
    Mixed(Value),
    /// A query with both `$and` and `$or`: `$or` is the combinator, and the
    /// `$and` branches are one more alternative.
    Combined { any_of: Value, all_of: Value },
}

impl View for QueryCondition {
    type V = CondModel;

    open spec fn view(&self) -> CondModel {
        match self {
            QueryCondition::Value(v) => CondModel::Value(v@),
            QueryCondition::Operator(v) => CondModel::Operator(v@),
            QueryCondition::Operations(v) => CondModel::Operations(v@),
            QueryCondition::Mixed(v) => CondModel::Mixed(v@),
            QueryCondition::Combined { any_of, all_of } => CondModel::Combined(any_of@, all_of@),
        }
    }
}

/// One condition of a query: a field path (or a logical operator's name) and
/// what it asks of it.
pub struct Condition {
    pub path: String,
    pub condition: QueryCondition,
}

impl View for Condition {
    type V = CondView;

    open spec fn view(&self) -> CondView {
        CondView { path: self.path@, cond: self.condition@ }
    }
}

/// A parsed query: its conditions, in the order of the query's entries.
pub struct Query {
    pub conditions: Vec<Condition>,
}

impl View for Query {
    type V = Seq<CondView>;

    open spec fn view(&self) -> Seq<CondView> {
        Seq::new(self.conditions.len() as nat, |i: int| self.conditions[i]@)
    }
}

/// How the parser classifies the entry `key: v` of a query.
pub open spec fn classify(key: Seq<char>, v: JsonView) -> CondModel {
    if is_logical(key) {
        CondModel::Operator(v)
    } else {
        match v {
            JsonView::Obj(ks, _) => if !some_dollar(ks) {
                CondModel::Value(v)
            } else if all_dollar(ks) {
                CondModel::Operations(v)
            } else {
                CondModel::Mixed(v)
            },
            _ => CondModel::Value(v),
        }
    }
}

/// The conditions parsed from the first `n` entries of the object `q`;
/// with `skip_and_or`, its `$and` and `$or` entries are left out.
pub open spec fn parse_entries(q: JsonView, n: int, skip_and_or: bool) -> Seq<CondView>
    decreases n,
{
    match q {
        JsonView::Obj(ks, vs) => if n <= 0 || n > vs.len() || n > ks.len() {
            Seq::empty()
        } else if skip_and_or && (ks[n - 1] == "$and"@ || ks[n - 1] == "$or"@) {
            parse_entries(q, n - 1, skip_and_or)
        } else {
            parse_entries(q, n - 1, skip_and_or).push(CondView { path: ks[n - 1], cond: classify(ks[n - 1], vs[n - 1]) })
        },
        _ => Seq::empty(),
    }
}

/// The parsed form of a query. A non-object is one literal condition on the
/// whole document. An object has one condition per entry, in order; when it
/// has both `$and` and `$or`, those two become one combined `$or`
/// condition, after the others.
pub open spec fn parse_spec(q: JsonView) -> Seq<CondView> {
    match q {
        JsonView::Obj(ks, vs) => if has_key(ks, "$and"@) && has_key(ks, "$or"@) {
            let io = first_key(ks, "$or"@, 0);
            let ia = first_key(ks, "$and"@, 0);
            parse_entries(q, vs.len() as int, true).push(
                CondView { path: "$or"@, cond: CondModel::Combined(vs[io], vs[ia]) },
            )
        } else {
            parse_entries(q, vs.len() as int, false)
        },
        _ => seq![CondView { path: Seq::empty(), cond: CondModel::Value(q) }],
    }
}

/// The `$or` that a combined condition stands for: the `$or` branches, then
/// one branch that is the `$and`.
pub open spec fn combined_parts(orv: JsonView, andv: JsonView) -> Result<OpModel, ErrorKind> {
    match orv {
        JsonView::Arr(xs) => match compile_list(orv, xs.len() as int) {
            Err(e) => Err(e),
            Ok(qs) => match create_spec(OperatorKind::And, andv) {
                Err(e) => Err(e),
                Ok(a) => Ok(OpModel::Or(qs.push(seq![a]))),
            },
        },
        _ => Err(ErrorKind::InvalidQuery),
    }
}

/// The operations one condition compiles to.
pub open spec fn compile_cond(c: CondView) -> Result<Seq<OpModel>, ErrorKind> {
    match c.cond {
        CondModel::Value(v) => compile_entry(c.path, v),
        CondModel::Operator(v) => compile_entry(c.path, v),
        CondModel::Operations(v) => compile_entry(c.path, v),
        CondModel::Mixed(v) => compile_entry(c.path, v),
        CondModel::Combined(o, a) => match combined_parts(o, a) {
            Ok(op) => Ok(seq![op]),
            Err(e) => Err(e),
        },
    }
}

/// The operations a list of conditions compiles to, in order; the first
/// error stops it.
pub open spec fn compile_conds(cs: Seq<CondView>) -> Result<Seq<OpModel>, ErrorKind>
    decreases cs.len(),
{
    if cs.len() == 0 {
        Ok(Seq::empty())
    } else {
        match compile_conds(cs.drop_last()) {
            Err(e) => Err(e),
            Ok(a) => match compile_cond(cs.last()) {
                Err(e) => Err(e),
                Ok(b) => Ok(a + b),
            },
        }
    }
}

proof fn lemma_compile_parsed_entries(q: JsonView, n: int, skip: bool)
    requires
        q is Obj,
        0 <= n <= q->Obj_1.len(),
        q->Obj_0.len() == q->Obj_1.len(),
    ensures
        compile_conds(parse_entries(q, n, skip)) == compile_entries(q, n, skip),
    decreases n,
{
    if n > 0 {
        lemma_compile_parsed_entries(q, n - 1, skip);
        let ks = q->Obj_0;
        if !(skip && (ks[n - 1] == "$and"@ || ks[n - 1] == "$or"@)) {
            let p = parse_entries(q, n - 1, skip);
            let c = CondView { path: ks[n - 1], cond: classify(ks[n - 1], q->Obj_1[n - 1]) };
            assert(p.push(c).drop_last() =~= p);
        }
    }
}

proof fn lemma_compile_parsed_both(q: JsonView)
    requires
        q is Obj,
        q->Obj_0.len() == q->Obj_1.len(),
        has_key(q->Obj_0, "$and"@),
        has_key(q->Obj_0, "$or"@),
    ensures
        compile_conds(parse_spec(q)) == compile_query(q),
{
    let ks = q->Obj_0;
    let vs = q->Obj_1;
    lemma_compile_parsed_entries(q, vs.len() as int, true);
    let p = parse_entries(q, vs.len() as int, true);
    let io = first_key(ks, "$or"@, 0);
    let ia = first_key(ks, "$and"@, 0);
    lemma_first_key_range(ks, "$or"@, 0);
    lemma_first_key_range(ks, "$and"@, 0);
    let c = CondView { path: "$or"@, cond: CondModel::Combined(vs[io], vs[ia]) };
    assert(p.push(c).drop_last() =~= p);
    assert(parse_spec(q) == p.push(c));
    assert(combined_spec(q) == combined_parts(vs[io], vs[ia]));
    match compile_entries(q, vs.len() as int, true) {
        Ok(a) => match combined_parts(vs[io], vs[ia]) {
            Ok(o) => {
                assert(a + seq![o] =~= a.push(o));
            },
            _ => {},
        },
        _ => {},
    }
}

proof fn lemma_compile_parsed_scalar(q: JsonView)
    requires
        !(q is Obj),
    ensures
        compile_conds(parse_spec(q)) == compile_query(q),
{
    let c = CondView { path: Seq::empty(), cond: CondModel::Value(q) };
    assert(seq![c].drop_last() =~= Seq::<CondView>::empty());
    reveal_strlit("$and");
    reveal_strlit("$or");
    reveal_strlit("$not");
    reveal_strlit("$nor");
    reveal_strlit("$where");
    assert("$and"@.len() == 4);
    assert("$or"@.len() == 3);
    assert("$not"@.len() == 4);
    assert("$nor"@.len() == 4);
    assert("$where"@.len() == 6);
    assert(!is_logical(Seq::empty()));
    let f = seq![OpModel::Field(Seq::empty(), Box::new(OpModel::Eq(q)))];
    assert(Seq::<OpModel>::empty() + f =~= f);
    assert(seq![c].last() == c);
    assert(compile_entry(Seq::empty(), q) == Ok::<Seq<OpModel>, ErrorKind>(f));
    assert(compile_cond(c) == Ok::<Seq<OpModel>, ErrorKind>(f));
    assert(compile_conds(Seq::<CondView>::empty()) == Ok::<Seq<OpModel>, ErrorKind>(Seq::empty()));
    assert(parse_spec(q) == seq![c]);
}

/// Compiling the parsed form of a query gives what compiling the query
/// itself gives.
pub proof fn lemma_compile_parsed(q: JsonView)
    requires
        q is Obj ==> q->Obj_0.len() == q->Obj_1.len(),
    ensures
        compile_conds(parse_spec(q)) == compile_query(q),
{
    match q {
        JsonView::Obj(ks, vs) => {
            if has_key(ks, "$and"@) && has_key(ks, "$or"@) {
                lemma_compile_parsed_both(q);
            } else {
                lemma_compile_parsed_entries(q, vs.len() as int, false);
            }
        },
        _ => lemma_compile_parsed_scalar(q),
    }
}

/// The value a condition was parsed from (for a combined condition, its
/// `$or` branches).
pub open spec fn raw_of(c: CondModel) -> JsonView {
    match c {
        CondModel::Value(v) => v,
        CondModel::Operator(v) => v,
        CondModel::Operations(v) => v,
        CondModel::Mixed(v) => v,
        CondModel::Combined(o, _) => o,
    }
}

/// The paths of a list of conditions.
pub open spec fn paths_of(cs: Seq<CondView>) -> Seq<Seq<char>> {
    Seq::new(cs.len(), |i: int| cs[i].path)
}

/// The values a list of conditions was parsed from.
pub open spec fn raws_of(cs: Seq<CondView>) -> Seq<JsonView> {
    Seq::new(cs.len(), |i: int| raw_of(cs[i].cond))
}

/// A parsed query written back as a query value: one literal condition on
/// the whole document (with a non-object literal) is that literal; otherwise
/// an object with one entry per condition, where a combined condition is
/// written as its `$or` and `$and` entries.
pub open spec fn print_spec(cs: Seq<CondView>) -> JsonView {
    if cs.len() == 1 && cs[0].path.len() == 0 && cs[0].cond is Value && !(cs[0].cond->Value_0 is Obj) {
        cs[0].cond->Value_0
    } else if cs.len() > 0 && cs.last().cond is Combined {
        let rest = cs.drop_last();
        JsonView::Obj(
            paths_of(rest) + seq!["$or"@, "$and"@],
            raws_of(rest) + seq![cs.last().cond->Combined_0, cs.last().cond->Combined_1],
        )
    } else {
        JsonView::Obj(paths_of(cs), raws_of(cs))
    }
}

/// What each condition parsed from an object's entries satisfies: its shape
/// is the classification of its path and value, it is not combined, and,
/// when `$and` and `$or` were left out, its path is neither.
pub open spec fn parsed_cond(c: CondView, skip_and_or: bool) -> bool {
    &&& !(c.cond is Combined)
    &&& c.cond == classify(c.path, raw_of(c.cond))
    &&& skip_and_or ==> c.path != "$and"@ && c.path != "$or"@
}

proof fn lemma_parse_entries_shape(q: JsonView, n: int, skip: bool)
    requires
        q is Obj,
        0 <= n <= q->Obj_1.len(),
        q->Obj_0.len() == q->Obj_1.len(),
    ensures
        forall|i: int| 0 <= i < parse_entries(q, n, skip).len() ==> parsed_cond(#[trigger] parse_entries(q, n, skip)[i], skip),
        !skip ==> parse_entries(q, n, skip).len() == n,
        !skip ==> forall|i: int| 0 <= i < n ==> (#[trigger] parse_entries(q, n, skip)[i]).path == q->Obj_0[i] && raw_of(
            parse_entries(q, n, skip)[i].cond,
        ) == q->Obj_1[i],
    decreases n,
{
    if n > 0 {
        lemma_parse_entries_shape(q, n - 1, skip);
        let ks = q->Obj_0;
        let vs = q->Obj_1;
        let c = CondView { path: ks[n - 1], cond: classify(ks[n - 1], vs[n - 1]) };
        assert(raw_of(c.cond) == vs[n - 1]);
    }
}

proof fn lemma_reparse_prefix(q: JsonView, ps: Seq<CondView>, m: int)
    requires
        q is Obj,
        q->Obj_0.len() == q->Obj_1.len(),
        0 <= m <= ps.len() <= q->Obj_1.len(),
        forall|i: int| 0 <= i < ps.len() ==> q->Obj_0[i] == (#[trigger] ps[i]).path,
        forall|i: int| 0 <= i < ps.len() ==> q->Obj_1[i] == raw_of((#[trigger] ps[i]).cond),
        forall|i: int| 0 <= i < ps.len() ==> parsed_cond(#[trigger] ps[i], true),
    ensures
        parse_entries(q, m, true) == ps.take(m),
    decreases m,
{
    if m > 0 {
        lemma_reparse_prefix(q, ps, m - 1);
        assert(parsed_cond(ps[m - 1], true));
        assert(ps.take(m) =~= ps.take(m - 1).push(ps[m - 1]));
    } else {
        assert(ps.take(0) =~= Seq::<CondView>::empty());
    }
}

/// Writing a parsed query back as a query value and parsing that again
/// gives the same parsed query, so both evaluate alike on every document.
pub proof fn law_print_parse_round_trip(q: JsonView)
    requires
        q is Obj ==> q->Obj_0.len() == q->Obj_1.len(),
    ensures
        parse_spec(print_spec(parse_spec(q))) == parse_spec(q),
{
    reveal_strlit("$and");
    reveal_strlit("$or");
    assert("$and"@.len() == 4 && "$or"@.len() == 3);
    assert("$and"@ != "$or"@);
    match q {
        JsonView::Obj(ks, vs) => {
            let n = vs.len() as int;
            if has_key(ks, "$and"@) && has_key(ks, "$or"@) {
                lemma_first_key_range(ks, "$or"@, 0);
                lemma_first_key_range(ks, "$and"@, 0);
                let ps = parse_entries(q, n, true);
                lemma_parse_entries_shape(q, n, true);
                let io = first_key(ks, "$or"@, 0);
                let ia = first_key(ks, "$and"@, 0);
                let c = CondView { path: "$or"@, cond: CondModel::Combined(vs[io], vs[ia]) };
                let p = ps.push(c);
                assert(p.drop_last() =~= ps);
                assert(p.last() == c);
                if p.len() == 1 && p[0].path.len() == 0 {
                    assert(p[0] == c);
                }
                let pk = paths_of(ps) + seq!["$or"@, "$and"@];
                let pv = raws_of(ps) + seq![vs[io], vs[ia]];
                let q2 = JsonView::Obj(pk, pv);
                assert(print_spec(p) == q2);
                let m = ps.len() as int;
                assert(pk[m] == "$or"@);
                assert(pk[m + 1] == "$and"@);
                assert forall|i: int| 0 <= i < m implies pk[i] != "$or"@ && pk[i] != "$and"@ by {
                    assert(parsed_cond(ps[i], true));
                }
                assert forall|j: int| 0 <= j < m implies first_key(pk, "$or"@, j) == m by {
                    lemma_first_key_skip(pk, "$or"@, j, m);
                }
                assert forall|j: int| 0 <= j < m implies first_key(pk, "$and"@, j) == m + 1 by {
                    lemma_first_key_skip(pk, "$and"@, j, m);
                    assert(first_key(pk, "$and"@, m) == first_key(pk, "$and"@, m + 1));
                }
                assert(first_key(pk, "$or"@, m) == m);
                assert(first_key(pk, "$and"@, m) == m + 1) by {
                    assert(first_key(pk, "$and"@, m + 1) == m + 1);
                }
                assert(first_key(pk, "$or"@, 0) == m);
                assert(first_key(pk, "$and"@, 0) == m + 1);
                assert(has_key(pk, "$and"@) && has_key(pk, "$or"@));
                lemma_reparse_prefix(q2, ps, m);
                assert(ps.take(m) =~= ps);
                assert(parse_entries(q2, m + 1, true) == parse_entries(q2, m, true));
                assert(parse_entries(q2, m + 2, true) == parse_entries(q2, m + 1, true));
            } else {
                lemma_parse_entries_shape(q, n, false);
                let p = parse_entries(q, n, false);
                if p.len() == 1 && p[0].path.len() == 0 && p[0].cond is Value && !(p[0].cond->Value_0 is Obj) {
                    let v = p[0].cond->Value_0;
                    assert(parsed_cond(p[0], false));
                    reveal_strlit("$not");
                    reveal_strlit("$nor");
                    reveal_strlit("$where");
                    assert("$not"@.len() == 4 && "$nor"@.len() == 4 && "$where"@.len() == 6);
                    assert(!is_logical(Seq::empty()));
                    assert(print_spec(p) == v);
                    assert(p[0].path =~= Seq::<char>::empty());
                    assert(p[0] == CondView { path: Seq::empty(), cond: CondModel::Value(v) });
                    assert(parse_spec(v) =~= p);
                } else {
                    assert(!(p.len() > 0 && p.last().cond is Combined)) by {
                        if p.len() > 0 {
                            assert(parsed_cond(p[p.len() - 1], false));
                        }
                    }
                    assert(paths_of(p) =~= ks);
                    assert(raws_of(p) =~= vs);
                    assert(print_spec(p) == q);
                }
            }
        },
        _ => {
            let c = CondView { path: Seq::empty(), cond: CondModel::Value(q) };
            assert(parse_spec(q) == seq![c]);
            assert(print_spec(seq![c]) == q);
        },
    }
}

proof fn lemma_first_key_skip(ks: Seq<Seq<char>>, k: Seq<char>, j: int, m: int)
    requires
        0 <= j <= m <= ks.len(),
        forall|i: int| j <= i < m ==> ks[i] != k,
    ensures
        first_key(ks, k, j) == first_key(ks, k, m),
    decreases m - j,
{
    if j < m {
        lemma_first_key_skip(ks, k, j + 1, m);
    }
}

/// The result a query gives on a document: its compile error, or whether
/// every one of its root-level operations holds.
pub open spec fn sift_spec(q: JsonView, d: JsonView) -> Result<bool, ErrorKind> {
    match compile_query(q) {
        Ok(ops) => Ok(ops_match(ops, d)),
        Err(e) => Err(e),
    }
}

/// A compiled query: root-level operations joined by AND.
pub struct CompiledQuery {
    pub operations: Vec<Operation>,
}

impl View for CompiledQuery {
    type V = Seq<OpModel>;

    open spec fn view(&self) -> Seq<OpModel> {
        ops_view(self.operations)
    }
}

impl CompiledQuery {
    /// A compiled query made of the given operations.
    pub fn new(operations: Vec<Operation>) -> (r: CompiledQuery)
        ensures
            r@ == ops_view(operations),
    {
        CompiledQuery { operations }
    }

    /// Whether the document matches: every operation holds of it. A query
    /// with no operations matches every document. Only a `$where` script
    /// can fail, with an evaluation error.
    pub fn test(&self, value: &Value) -> (r: Result<bool, SiftError>)
        ensures
            fits(r, all_free(self@, self@.len() as int), ops_match(self@, value@)),
    {
        test_all(&self.operations, value)
    }
}

impl Query {
    /// The query with no conditions, which matches every document.
    pub fn new() -> (r: Query)
        ensures
            r@ == Seq::<CondView>::empty(),
    {
        let r = Query { conditions: Vec::new() };
        assert(r@ =~= Seq::<CondView>::empty());
        r
    }

    /// The number of conditions.
    pub fn len(&self) -> (r: usize)
        ensures
            r == self@.len(),
    {
        self.conditions.len()
    }

    /// Parses a query (see [`parse_spec`]). Parsing never fails: unknown
    /// operators and malformed parameters are found when compiling.
    pub fn from_value(value: &Value) -> (r: Result<Query, SiftError>)
        ensures
            r is Ok,
            r->Ok_0@ == parse_spec(value@),
    {
        proof { lemma_view_shape(value); }
        match value {
            Value::Object(es) => {
                let or_key = text("$or");
                let and_key = text("$and");
                let io = crate::value::find_index(es, &or_key);
                let ia = crate::value::find_index(es, &and_key);
                proof {
                    lemma_first_key_range(value@->Obj_0, "$or"@, 0);
                    lemma_first_key_range(value@->Obj_0, "$and"@, 0);
                }
                let both = io.is_some() && ia.is_some();
                let mut conds = parse_entries_exec(value, es, both);
                match (io, ia) {
                    (Some(o), Some(a)) => {
                        let ghost before = (Query { conditions: conds })@;
                        let c = Condition {
                            path: or_key,
                            condition: QueryCondition::Combined { any_of: deep_clone(&es[o].1), all_of: deep_clone(&es[a].1) },
                        };
                        conds.push(c);
                        assert((Query { conditions: conds })@ =~= before.push(conds[conds.len() - 1]@));
                    },
                    _ => {},
                }
                Ok(Query { conditions: conds })
            },
            _ => {
                let mut conds: Vec<Condition> = Vec::new();
                conds.push(Condition { path: String::new(), condition: QueryCondition::Value(deep_clone(value)) });
                let r = Query { conditions: conds };
                assert(r@ =~= seq![CondView { path: Seq::empty(), cond: CondModel::Value(value@) }]);
                Ok(r)
            },
        }
    }

    /// Writes the query back as a query value (see [`print_spec`]); parsing
    /// the result gives this query again.
    pub fn to_value(&self) -> (r: Value)
        ensures
            r@ == print_spec(self@),
    {
        let n = self.conditions.len();
        assert(self@.len() == n);
        if n == 1 && self.conditions[0].path.as_str().unicode_len() == 0 {
            assert(self@[0] == self.conditions[0]@);
            match &self.conditions[0].condition {
                QueryCondition::Value(v) => {
                    proof { lemma_view_shape(v); }
                    match v {
                        Value::Object(_) => {},
                        _ => {
                            return deep_clone(v);
                        },
                    }
                },
                _ => {},
            }
        }
        let combined_last = n > 0 && match &self.conditions[n - 1].condition {
            QueryCondition::Combined { .. } => true,
            _ => false,
        };
        let m = if combined_last { n - 1 } else { n };
        let ghost rest = if combined_last { self@.drop_last() } else { self@ };
        assert(rest =~= self@.take(m as int));
        let mut out: Vec<(String, Value)> = Vec::new();
        proof { crate::value::lemma_object_view(out); }
        assert(Value::Object(out)@->Obj_0 =~= paths_of(self@.take(0)));
        assert(Value::Object(out)@->Obj_1 =~= raws_of(self@.take(0)));
        let mut i: usize = 0;
        while i < m
            invariant
                i <= m <= n == self.conditions.len(),
                self@.len() == n,
                Value::Object(out)@ == JsonView::Obj(paths_of(self@.take(i as int)), raws_of(self@.take(i as int))),
            decreases m - i,
        {
            let c = &self.conditions[i];
            assert(self@[i as int] == c@);
            let raw = raw_value(&c.condition);
            proof { crate::value::lemma_object_view(out); }
            let ghost before = Value::Object(out)@;
            out.push((c.path.clone(), deep_clone(raw)));
            proof {
                crate::value::lemma_object_view(out);
                let t = self@.take(i as int + 1);
                assert forall|j: int| 0 <= j < i + 1 implies #[trigger] Value::Object(out)@->Obj_1[j] == raws_of(t)[j] by {
                    if j < i {
                        assert(before->Obj_1[j] == raws_of(self@.take(i as int))[j]);
                    } else {
                        assert(t[j] == c@);
                    }
                }
                assert forall|j: int| 0 <= j < i + 1 implies #[trigger] Value::Object(out)@->Obj_0[j] == paths_of(t)[j] by {
                    if j < i {
                        assert(before->Obj_0[j] == paths_of(self@.take(i as int))[j]);
                        assert(before->Obj_1[j] == raws_of(self@.take(i as int))[j]);
                    } else {
                        assert(t[j] == c@);
                    }
                }
            }
            assert(Value::Object(out)@->Obj_0 =~= paths_of(self@.take(i as int + 1)));
            assert(Value::Object(out)@->Obj_1 =~= raws_of(self@.take(i as int + 1)));
            i = i + 1;
        }
        if combined_last {
            match &self.conditions[n - 1].condition {
                QueryCondition::Combined { any_of, all_of } => {
                    assert(self@.last() == self.conditions[n - 1]@);
                    proof { crate::value::lemma_object_view(out); }
                    let ghost before = Value::Object(out)@;
                    out.push((text("$or"), deep_clone(any_of)));
                    out.push((text("$and"), deep_clone(all_of)));
                    proof { crate::value::lemma_object_view(out); }
                    assert(Value::Object(out)@->Obj_0 =~= before->Obj_0 + seq!["$or"@, "$and"@]);
                    assert(Value::Object(out)@->Obj_1 =~= before->Obj_1 + seq![any_of@, all_of@]);
                },
                _ => {},
            }
        }
        Value::Object(out)
    }

    /// Compiles the query (see [`compile_conds`]).
    pub fn compile(&self) -> (r: Result<CompiledQuery, SiftError>)
        ensures
            match r {
                Ok(c) => compile_conds(self@) == Ok::<Seq<OpModel>, ErrorKind>(c@),
                Err(e) => compile_conds(self@) == Err::<Seq<OpModel>, ErrorKind>(e@) && crate::compile::names_unknown(e),
            },
    {
        let mut out: Vec<Operation> = Vec::new();
        assert(ops_view(out) =~= Seq::<OpModel>::empty());
        let mut i: usize = 0;
        while i < self.conditions.len()
            invariant
                i <= self.conditions.len(),
                compile_conds(self@.take(i as int)) == Ok::<Seq<OpModel>, ErrorKind>(ops_view(out)),
            decreases self.conditions.len() - i,
        {
            assert(self@.take(i as int + 1).drop_last() =~= self@.take(i as int));
            assert(self@.take(i as int + 1).last() == self.conditions[i as int]@);
            match compile_condition(&self.conditions[i]) {
                Ok(mut b) => {
                    let ghost before = ops_view(out);
                    let ghost bv = ops_view(b);
                    out.append(&mut b);
                    assert(ops_view(out) =~= before + bv);
                },
                Err(e) => {
                    proof { lemma_conds_error_stays(self@, i as int + 1, e@); }
                    return Err(e);
                },
            }
            i = i + 1;
        }
        assert(self@.take(self.conditions.len() as int) =~= self@);
        Ok(CompiledQuery::new(out))
    }

    /// Whether the document matches the query, compiling it first.
    pub fn test(&self, value: &Value) -> (r: Result<bool, SiftError>)
        ensures
            match compile_conds(self@) {
                Ok(ops) => fits(r, all_free(ops, ops.len() as int), ops_match(ops, value@)),
                Err(e) => r is Err && r->Err_0@ == e && crate::compile::names_unknown(r->Err_0),
            },
    {
        match self.compile() {
            Ok(c) => c.test(value),
            Err(e) => Err(e),
        }
    }
}

proof fn lemma_conds_error_stays(cs: Seq<CondView>, i: int, e: ErrorKind)
    requires
        0 < i <= cs.len(),
        compile_conds(cs.take(i)) == Err::<Seq<OpModel>, ErrorKind>(e),
    ensures
        compile_conds(cs) == Err::<Seq<OpModel>, ErrorKind>(e),
    decreases cs.len() - i,
{
    if i < cs.len() {
        assert(cs.take(i + 1).drop_last() =~= cs.take(i));
        lemma_conds_error_stays(cs, i + 1, e);
    } else {
        assert(cs.take(i) =~= cs);
    }
}

/// The value a condition was parsed from (see [`raw_of`]).
fn raw_value(c: &QueryCondition) -> (r: &Value)
    ensures
        r@ == raw_of(c@),
{
    match c {
        QueryCondition::Value(v) => v,
        QueryCondition::Operator(v) => v,
        QueryCondition::Operations(v) => v,
        QueryCondition::Mixed(v) => v,
        QueryCondition::Combined { any_of, .. } => any_of,
    }
}

/// Compiles one condition (see [`compile_cond`]).
fn compile_condition(c: &Condition) -> (r: Result<Vec<Operation>, SiftError>)
    ensures
        ops_result(r) == compile_cond(c@),
        r is Err ==> crate::compile::names_unknown(r->Err_0),
{
    match &c.condition {
        QueryCondition::Value(v) => crate::compile::compile_entry_exec(&c.path, v),
        QueryCondition::Operator(v) => crate::compile::compile_entry_exec(&c.path, v),
        QueryCondition::Operations(v) => crate::compile::compile_entry_exec(&c.path, v),
        QueryCondition::Mixed(v) => crate::compile::compile_entry_exec(&c.path, v),
        QueryCondition::Combined { any_of, all_of } => {
            match crate::compile::combined_parts_exec(any_of, all_of) {
                Ok(op) => {
                    let ghost ov = op@;
                    let mut r: Vec<Operation> = Vec::new();
                    r.push(op);
                    assert(ops_view(r) =~= seq![ov]);
                    Ok(r)
                },
                Err(e) => Err(e),
            }
        },
    }
}

/// How the parser classifies the entry `key: v` (see [`classify`]).
fn classify_exec(key: &String, v: &Value) -> (r: QueryCondition)
    ensures
        r@ == classify(key@, v@),
{
    proof { lemma_view_shape(v); }
    if is_logical_key(key) {
        return QueryCondition::Operator(deep_clone(v));
    }
    match v {
        Value::Object(fes) => {
            let mut some = false;
            let mut all = true;
            let mut i: usize = 0;
            while i < fes.len()
                invariant
                    i <= fes.len(),
                    *v == Value::Object(*fes),
                    v@->Obj_0.len() == fes.len(),
                    forall|k: int| 0 <= k < fes.len() ==> #[trigger] v@->Obj_0[k] == fes[k].0@,
                    some == exists|k: int| 0 <= k < i && #[trigger] is_dollar(v@->Obj_0[k]),
                    all == forall|k: int| 0 <= k < i ==> #[trigger] is_dollar(v@->Obj_0[k]),
                decreases fes.len() - i,
            {
                if starts_with_dollar(&fes[i].0) {
                    assert(is_dollar(v@->Obj_0[i as int]));
                    some = true;
                } else {
                    assert(!is_dollar(v@->Obj_0[i as int]));
                    all = false;
                }
                i = i + 1;
            }
            if !some {
                QueryCondition::Value(deep_clone(v))
            } else if all {
                QueryCondition::Operations(deep_clone(v))
            } else {
                QueryCondition::Mixed(deep_clone(v))
            }
        },
        _ => QueryCondition::Value(deep_clone(v)),
    }
}

/// Parses the entries of the object `q` (whose entries are `es`), as
/// [`parse_entries`] states.
fn parse_entries_exec(q: &Value, es: &Vec<(String, Value)>, skip_and_or: bool) -> (r: Vec<Condition>)
    requires
        *q == Value::Object(*es),
    ensures
        (Query { conditions: r })@ == parse_entries(q@, es.len() as int, skip_and_or),
{
    proof { lemma_view_shape(q); }
    let mut out: Vec<Condition> = Vec::new();
    assert((Query { conditions: out })@ =~= Seq::<CondView>::empty());
    let mut i: usize = 0;
    while i < es.len()
        invariant
            i <= es.len(),
            *q == Value::Object(*es),
            q@->Obj_0.len() == es.len(),
            q@->Obj_1.len() == es.len(),
            forall|k: int| 0 <= k < es.len() ==> #[trigger] q@->Obj_0[k] == es[k].0@,
            forall|k: int| 0 <= k < es.len() ==> #[trigger] q@->Obj_1[k] == es[k].1@,
            (Query { conditions: out })@ == parse_entries(q@, i as int, skip_and_or),
        decreases es.len() - i,
    {
        let skip = skip_and_or && (is_name(&es[i].0, "$and") || is_name(&es[i].0, "$or"));
        if !skip {
            let ghost before = (Query { conditions: out })@;
            let c = Condition { path: es[i].0.clone(), condition: classify_exec(&es[i].0, &es[i].1) };
            out.push(c);
            assert((Query { conditions: out })@ =~= before.push(out[out.len() - 1]@));
        }
        i = i + 1;
    }
    out
}

} // verus!
