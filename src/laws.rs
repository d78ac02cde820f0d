//! Laws of the query language, proved over the models that the library's
//! functions are specified by.
use crate::compile::{compile_entries, compile_entry, compile_list, compile_query, create_spec, has_key, is_logical, operator_of, some_dollar, OperatorKind};
use crate::error::ErrorKind;
use crate::ops::{leaves, Leaf, all_hold, in_list, op_test, ops_match, some_query, all_queries, OpModel, Origin};
use crate::query::{parse_spec, sift_spec, CondView};
use crate::text::{has_dot, is_dollar, split_dots};
use crate::value::{field_of, first_key, json_eq, json_wf, key_in, lemma_first_key_le, lookup, JsonView};
use crate::compare::value_order;
use vstd::prelude::*;

verus! {

/// Equality is reflexive on well-formed values (which every [`Value`]'s
/// view is).
pub proof fn lemma_json_eq_refl(v: JsonView)
    requires
        json_wf(v),
    ensures
        json_eq(v, v),
    decreases v,
{
    match v {
        JsonView::Arr(xs) => {
            assert forall|i: int| 0 <= i < xs.len() implies json_eq(#[trigger] xs[i], xs[i]) by {
                lemma_json_eq_refl(xs[i]);
            }
        },
        JsonView::Obj(ks, vs) => {
            assert forall|i: int| 0 <= i < ks.len() implies match #[trigger] lookup(ks, vs, ks[i]) {
                Some(w) => 0 <= first_key(ks, ks[i], 0) < vs.len() && json_eq(vs[first_key(ks, ks[i], 0)], w),
                None => false,
            } by {
                lemma_first_key_le(ks, ks[i], 0, i);
                let ix = first_key(ks, ks[i], 0);
                if ix < vs.len() {
                    lemma_json_eq_refl(vs[ix]);
                }
            }
            assert forall|j: int| 0 <= j < ks.len() implies #[trigger] key_in(ks, ks[j]) by {
                lemma_first_key_le(ks, ks[j], 0, j);
            }
        },
        _ => {},
    }
}

/// The facts about the operator names that the laws use.
proof fn lemma_operator_names()
    ensures
        operator_of("$and"@) == Some(OperatorKind::And),
        operator_of("$or"@) == Some(OperatorKind::Or),
        operator_of("$nor"@) == Some(OperatorKind::Nor),
        operator_of("$not"@) == Some(OperatorKind::Not),
        is_logical("$and"@),
        is_logical("$or"@),
        is_logical("$nor"@),
        is_logical("$not"@),
        "$and"@ != "$or"@,
        is_dollar("$and"@),
        is_dollar("$or"@),
        is_dollar("$nor"@),
        operator_of("$gt"@) == Some(OperatorKind::Gt),
        operator_of("$gte"@) == Some(OperatorKind::Gte),
        operator_of("$lt"@) == Some(OperatorKind::Lt),
        operator_of("$lte"@) == Some(OperatorKind::Lte),
        is_dollar("$gt"@),
        is_dollar("$gte"@),
        is_dollar("$lt"@),
        is_dollar("$lte"@),
{
    reveal_strlit("$eq");
    assert("$eq"@.len() == 3);
    assert("$eq"@[0] == '$');
    assert("$eq"@[1] == 'e');
    assert("$eq"@[2] == 'q');
    reveal_strlit("$ne");
    assert("$ne"@.len() == 3);
    assert("$ne"@[0] == '$');
    assert("$ne"@[1] == 'n');
    assert("$ne"@[2] == 'e');
    reveal_strlit("$gt");
    assert("$gt"@.len() == 3);
    assert("$gt"@[0] == '$');
    assert("$gt"@[1] == 'g');
    assert("$gt"@[2] == 't');
    reveal_strlit("$gte");
    assert("$gte"@.len() == 4);
    assert("$gte"@[0] == '$');
    assert("$gte"@[1] == 'g');
    assert("$gte"@[2] == 't');
    assert("$gte"@[3] == 'e');
    reveal_strlit("$lt");
    assert("$lt"@.len() == 3);
    assert("$lt"@[0] == '$');
    assert("$lt"@[1] == 'l');
    assert("$lt"@[2] == 't');
    reveal_strlit("$lte");
    assert("$lte"@.len() == 4);
    assert("$lte"@[0] == '$');
    assert("$lte"@[1] == 'l');
    assert("$lte"@[2] == 't');
    assert("$lte"@[3] == 'e');
    reveal_strlit("$in");
    assert("$in"@.len() == 3);
    assert("$in"@[0] == '$');
    assert("$in"@[1] == 'i');
    assert("$in"@[2] == 'n');
    reveal_strlit("$nin");
    assert("$nin"@.len() == 4);
    assert("$nin"@[0] == '$');
    assert("$nin"@[1] == 'n');
    assert("$nin"@[2] == 'i');
    assert("$nin"@[3] == 'n');
    reveal_strlit("$all");
    assert("$all"@.len() == 4);
    assert("$all"@[0] == '$');
    assert("$all"@[1] == 'a');
    assert("$all"@[2] == 'l');
    assert("$all"@[3] == 'l');
    reveal_strlit("$exists");
    assert("$exists"@.len() == 7);
    assert("$exists"@[0] == '$');
    assert("$exists"@[1] == 'e');
    assert("$exists"@[2] == 'x');
    assert("$exists"@[3] == 'i');
    assert("$exists"@[4] == 's');
    assert("$exists"@[5] == 't');
    assert("$exists"@[6] == 's');
    reveal_strlit("$regex");
    assert("$regex"@.len() == 6);
    assert("$regex"@[0] == '$');
    assert("$regex"@[1] == 'r');
    assert("$regex"@[2] == 'e');
    assert("$regex"@[3] == 'g');
    assert("$regex"@[4] == 'e');
    assert("$regex"@[5] == 'x');
    reveal_strlit("$and");
    assert("$and"@.len() == 4);
    assert("$and"@[0] == '$');
    assert("$and"@[1] == 'a');
    assert("$and"@[2] == 'n');
    assert("$and"@[3] == 'd');
    reveal_strlit("$or");
    assert("$or"@.len() == 3);
    assert("$or"@[0] == '$');
    assert("$or"@[1] == 'o');
    assert("$or"@[2] == 'r');
    reveal_strlit("$not");
    assert("$not"@.len() == 4);
    assert("$not"@[0] == '$');
    assert("$not"@[1] == 'n');
    assert("$not"@[2] == 'o');
    assert("$not"@[3] == 't');
    reveal_strlit("$size");
    assert("$size"@.len() == 5);
    assert("$size"@[0] == '$');
    assert("$size"@[1] == 's');
    assert("$size"@[2] == 'i');
    assert("$size"@[3] == 'z');
    assert("$size"@[4] == 'e');
    reveal_strlit("$mod");
    assert("$mod"@.len() == 4);
    assert("$mod"@[0] == '$');
    assert("$mod"@[1] == 'm');
    assert("$mod"@[2] == 'o');
    assert("$mod"@[3] == 'd');
    reveal_strlit("$type");
    assert("$type"@.len() == 5);
    assert("$type"@[0] == '$');
    assert("$type"@[1] == 't');
    assert("$type"@[2] == 'y');
    assert("$type"@[3] == 'p');
    assert("$type"@[4] == 'e');
    reveal_strlit("$elemMatch");
    assert("$elemMatch"@.len() == 10);
    assert("$elemMatch"@[0] == '$');
    assert("$elemMatch"@[1] == 'e');
    assert("$elemMatch"@[2] == 'l');
    assert("$elemMatch"@[3] == 'e');
    assert("$elemMatch"@[4] == 'm');
    assert("$elemMatch"@[5] == 'M');
    assert("$elemMatch"@[6] == 'a');
    assert("$elemMatch"@[7] == 't');
    assert("$elemMatch"@[8] == 'c');
    assert("$elemMatch"@[9] == 'h');
    reveal_strlit("$nor");
    assert("$nor"@.len() == 4);
    assert("$nor"@[0] == '$');
    assert("$nor"@[1] == 'n');
    assert("$nor"@[2] == 'o');
    assert("$nor"@[3] == 'r');
    reveal_strlit("$where");
    assert("$where"@.len() == 6);
    assert("$where"@[0] == '$');
    assert("$where"@[1] == 'w');
    assert("$where"@[2] == 'h');
    assert("$where"@[3] == 'e');
    assert("$where"@[4] == 'r');
    assert("$where"@[5] == 'e');
}

/// A query of one operation matches where that operation holds.
proof fn lemma_ops_match_single(x: OpModel, d: JsonView)
    ensures
        ops_match(seq![x], d) == op_test(x, d, Origin::Unknown),
{
    assert(seq![x][0] == x);
    assert(all_hold(seq![x], d, 0));
    assert(all_hold(seq![x], d, 1) == (all_hold(seq![x], d, 0) && op_test(seq![x][0], d, Origin::Unknown)));
}

/// A query of one entry `k: v` whose key is a logical operator compiles to
/// the one operation that the operator makes of `v`.
proof fn lemma_single_logical(k: Seq<char>, v: JsonView)
    requires
        is_logical(k),
    ensures
        compile_query(JsonView::Obj(seq![k], seq![v])) == match create_spec(operator_of(k)->Some_0, v) {
            Ok(o) => Ok(seq![o]),
            Err(e) => Err::<Seq<OpModel>, ErrorKind>(e),
        },
{
    lemma_operator_names();
    let q = JsonView::Obj(seq![k], seq![v]);
    let ks = seq![k];
    assert(first_key(ks, "$and"@, 1) == 1);
    assert(first_key(ks, "$or"@, 1) == 1);
    assert(!(has_key(ks, "$and"@) && has_key(ks, "$or"@)));
    assert(compile_entries(q, 0, false) == Ok::<Seq<OpModel>, ErrorKind>(Seq::empty()));
    match create_spec(operator_of(k)->Some_0, v) {
        Ok(o) => {
            assert(Seq::<OpModel>::empty() + seq![o] =~= seq![o]);
        },
        Err(e) => {},
    }
}

/// The empty query matches every document.
pub proof fn law_empty_query_matches(d: JsonView)
    ensures
        sift_spec(JsonView::Obj(Seq::empty(), Seq::empty()), d) == Ok::<bool, ErrorKind>(true),
{
    let q = JsonView::Obj(Seq::empty(), Seq::empty());
    assert(compile_query(q) == Ok::<Seq<OpModel>, ErrorKind>(Seq::empty()));
}

/// `$and` of no sub-queries matches every document, `$or` of none matches
/// none, and `$nor` of none matches every document.
pub proof fn law_empty_logical(d: JsonView)
    ensures
        sift_spec(JsonView::Obj(seq!["$and"@], seq![JsonView::Arr(Seq::empty())]), d) == Ok::<bool, ErrorKind>(true),
        sift_spec(JsonView::Obj(seq!["$or"@], seq![JsonView::Arr(Seq::empty())]), d) == Ok::<bool, ErrorKind>(false),
        sift_spec(JsonView::Obj(seq!["$nor"@], seq![JsonView::Arr(Seq::empty())]), d) == Ok::<bool, ErrorKind>(true),
{
    lemma_operator_names();
    let e = JsonView::Arr(Seq::empty());
    lemma_single_logical("$and"@, e);
    lemma_single_logical("$or"@, e);
    lemma_single_logical("$nor"@, e);
    assert(compile_list(e, 0) == Ok::<Seq<Seq<OpModel>>, ErrorKind>(Seq::empty()));
    let none = Seq::<Seq<OpModel>>::empty();
    assert(all_queries(none, d, 0));
    assert(!some_query(none, d, 0));
    assert(op_test(OpModel::And(none), d, Origin::Unknown));
    assert(!op_test(OpModel::Or(none), d, Origin::Unknown));
    assert(op_test(OpModel::Nor(none), d, Origin::Unknown));
    lemma_ops_match_single(OpModel::And(none), d);
    lemma_ops_match_single(OpModel::Or(none), d);
    lemma_ops_match_single(OpModel::Nor(none), d);
}

/// `{$nor: [Q]}` matches exactly the documents that `Q` does not match,
/// and fails exactly when `Q` fails to compile.
pub proof fn law_nor_negates(q: JsonView, d: JsonView)
    ensures
        sift_spec(JsonView::Obj(seq!["$nor"@], seq![JsonView::Arr(seq![q])]), d) == match sift_spec(q, d) {
            Ok(b) => Ok(!b),
            Err(e) => Err::<bool, ErrorKind>(e),
        },
{
    lemma_operator_names();
    let arr = JsonView::Arr(seq![q]);
    lemma_single_logical("$nor"@, arr);
    assert(compile_list(arr, 0) == Ok::<Seq<Seq<OpModel>>, ErrorKind>(Seq::empty()));
    match compile_query(q) {
        Ok(ops) => {
            assert(Seq::<Seq<OpModel>>::empty().push(ops) =~= seq![ops]);
            let nor = OpModel::Nor(seq![ops]);
            assert(seq![ops][0] == ops);
            assert(!some_query(seq![ops], d, 0));
            assert(some_query(seq![ops], d, 1) == (some_query(seq![ops], d, 0) || all_hold(seq![ops][0], d, seq![ops][0].len() as int)));
            assert(op_test(nor, d, Origin::Unknown) == !some_query(seq![ops], d, 1));
            lemma_ops_match_single(nor, d);
            assert(seq![q][0] == q);
            assert(compile_list(arr, 1) == Ok::<Seq<Seq<OpModel>>, ErrorKind>(Seq::<Seq<OpModel>>::empty().push(ops)));
            assert(create_spec(OperatorKind::Nor, arr) == Ok::<OpModel, ErrorKind>(nor));
            assert(compile_query(JsonView::Obj(seq!["$nor"@], seq![arr])) == Ok::<Seq<OpModel>, ErrorKind>(seq![nor]));
        },
        Err(e) => {
            assert(seq![q][0] == q);
            assert(compile_list(arr, 1) == Err::<Seq<Seq<OpModel>>, ErrorKind>(e));
            assert(create_spec(OperatorKind::Nor, arr) == Err::<OpModel, ErrorKind>(e));
        },
    }
}

/// `{$not: Q}`, for a query `Q` of one logical operator (`$and`, `$or` or
/// `$nor`), matches exactly the documents that `Q` does not match.
pub proof fn law_not_negates_operator(k: Seq<char>, v: JsonView, d: JsonView)
    requires
        k == "$and"@ || k == "$or"@ || k == "$nor"@,
    ensures
        sift_spec(JsonView::Obj(seq!["$not"@], seq![JsonView::Obj(seq![k], seq![v])]), d) == match sift_spec(
            JsonView::Obj(seq![k], seq![v]),
            d,
        ) {
            Ok(b) => Ok(!b),
            Err(e) => Err::<bool, ErrorKind>(e),
        },
{
    lemma_operator_names();
    let inner = JsonView::Obj(seq![k], seq![v]);
    lemma_single_logical("$not"@, inner);
    lemma_single_logical(k, v);
    assert(seq![k][0] == k);
    match create_spec(operator_of(k)->Some_0, v) {
        Ok(o) => {
            let not = OpModel::NotOp(Box::new(o));
            lemma_ops_match_single(not, d);
            lemma_ops_match_single(o, d);
            assert(op_test(not, d, Origin::Unknown) == !op_test(o, d, Origin::Unknown));
        },
        Err(e) => {},
    }
}

/// `{$not: Q}`, for an object query `Q` with other than one entry, matches
/// exactly the documents that `Q` does not match.
pub proof fn law_not_negates_query(ks: Seq<Seq<char>>, vs: Seq<JsonView>, d: JsonView)
    requires
        ks.len() != 1,
    ensures
        sift_spec(JsonView::Obj(seq!["$not"@], seq![JsonView::Obj(ks, vs)]), d) == match sift_spec(JsonView::Obj(ks, vs), d) {
            Ok(b) => Ok(!b),
            Err(e) => Err::<bool, ErrorKind>(e),
        },
{
    lemma_operator_names();
    let inner = JsonView::Obj(ks, vs);
    lemma_single_logical("$not"@, inner);
    match compile_query(inner) {
        Ok(ops) => {
            let not = OpModel::NotQuery(ops);
            lemma_ops_match_single(not, d);
            assert(op_test(not, d, Origin::Unknown) == !all_hold(ops, d, ops.len() as int));
        },
        Err(e) => {},
    }
}

/// A literal condition on a plain field matches a document holding that
/// very value there, and a document without the field exactly when the
/// literal is null.
pub proof fn law_literal_field(f: Seq<char>, v: JsonView)
    requires
        f.len() > 0,
        !has_dot(f),
        !is_logical(f),
        !(v is Obj && some_dollar(v->Obj_0)),
        json_wf(v),
    ensures
        sift_spec(JsonView::Obj(seq![f], seq![v]), JsonView::Obj(seq![f], seq![v])) == Ok::<bool, ErrorKind>(true),
        sift_spec(JsonView::Obj(seq![f], seq![v]), JsonView::Obj(Seq::empty(), Seq::empty())) == Ok::<bool, ErrorKind>(
            v is Null,
        ),
{
    lemma_operator_names();
    let q = JsonView::Obj(seq![f], seq![v]);
    let ks = seq![f];
    assert(!(has_key(ks, "$and"@) && has_key(ks, "$or"@))) by {
        assert(first_key(ks, "$and"@, 1) == 1);
        if has_key(ks, "$and"@) {
            assert(ks[0] == "$and"@);
        }
    }
    let op = OpModel::Field(f, Box::new(OpModel::Eq(v)));
    assert(compile_entry(f, v) == Ok::<Seq<OpModel>, ErrorKind>(seq![op]));
    assert(compile_entries(q, 0, false) == Ok::<Seq<OpModel>, ErrorKind>(Seq::empty()));
    assert(Seq::<OpModel>::empty() + seq![op] =~= seq![op]);
    assert(compile_query(q) == Ok::<Seq<OpModel>, ErrorKind>(seq![op]));
    lemma_json_eq_refl(v);
    assert(field_of(q, f) == Some(v));
    assert(op_test(OpModel::Eq(v), v, Origin::Field(f, q)));
    lemma_ops_match_single(op, q);
    let empty = JsonView::Obj(Seq::empty(), Seq::empty());
    assert(field_of(empty, f) is None);
    assert(op_test(OpModel::Eq(v), JsonView::Null, Origin::Field(f, empty)) == (v is Null));
    lemma_ops_match_single(op, empty);
}

/// On a field that the document lacks: `$exists: false` holds,
/// `$exists: true` does not, no comparison holds, and `$eq: null` holds.
pub proof fn law_absent_field(f: Seq<char>, d: JsonView, t: JsonView)
    requires
        f.len() > 0,
        !has_dot(f),
        d is Obj,
        field_of(d, f) is None,
    ensures
        op_test(OpModel::Field(f, Box::new(OpModel::Exists(false))), d, Origin::Unknown),
        !op_test(OpModel::Field(f, Box::new(OpModel::Exists(true))), d, Origin::Unknown),
        !op_test(OpModel::Field(f, Box::new(OpModel::Gt(t))), d, Origin::Unknown),
        !op_test(OpModel::Field(f, Box::new(OpModel::Gte(t))), d, Origin::Unknown),
        !op_test(OpModel::Field(f, Box::new(OpModel::Lt(t))), d, Origin::Unknown),
        !op_test(OpModel::Field(f, Box::new(OpModel::Lte(t))), d, Origin::Unknown),
        op_test(OpModel::Field(f, Box::new(OpModel::Eq(JsonView::Null))), d, Origin::Unknown),
{
    assert(value_order(JsonView::Null, t) is None);
    let o = Origin::Field(f, d);
    let n = JsonView::Null;
    assert(op_test(OpModel::Exists(false), n, o));
    assert(!op_test(OpModel::Exists(true), n, o));
    assert(!op_test(OpModel::Gt(t), n, o));
    assert(!op_test(OpModel::Gte(t), n, o));
    assert(!op_test(OpModel::Lt(t), n, o));
    assert(!op_test(OpModel::Lte(t), n, o));
    assert(op_test(OpModel::Eq(n), n, o));
}

/// A query comparing a plain field with any threshold does not match a
/// document that lacks the field, and compiles without error.
pub proof fn law_absent_field_comparison(f: Seq<char>, op: Seq<char>, t: JsonView, d: JsonView)
    requires
        f.len() > 0,
        !has_dot(f),
        !is_logical(f),
        op == "$gt"@ || op == "$gte"@ || op == "$lt"@ || op == "$lte"@,
        d is Obj,
        field_of(d, f) is None,
    ensures
        sift_spec(JsonView::Obj(seq![f], seq![JsonView::Obj(seq![op], seq![t])]), d) == Ok::<bool, ErrorKind>(false),
{
    lemma_operator_names();
    let inner = JsonView::Obj(seq![op], seq![t]);
    let q = JsonView::Obj(seq![f], seq![inner]);
    let ks = seq![f];
    assert(first_key(ks, "$and"@, 1) == 1);
    assert(first_key(ks, "$or"@, 1) == 1);
    assert(!(has_key(ks, "$and"@) && has_key(ks, "$or"@))) by {
        if has_key(ks, "$and"@) {
            assert(ks[0] == "$and"@);
        }
    }
    let kind = operator_of(op)->Some_0;
    let o = match kind {
        OperatorKind::Gt => OpModel::Gt(t),
        OperatorKind::Gte => OpModel::Gte(t),
        OperatorKind::Lt => OpModel::Lt(t),
        _ => OpModel::Lte(t),
    };
    assert(create_spec(kind, t) == Ok::<OpModel, ErrorKind>(o));
    assert(seq![op][0] == op);
    assert(some_dollar(seq![op])) by {
        assert(is_dollar(seq![op][0]));
    }
    let fo = OpModel::Field(f, Box::new(o));
    assert(crate::compile::compile_ops(f, inner, 0) == Ok::<Seq<OpModel>, ErrorKind>(Seq::empty()));
    assert(Seq::<OpModel>::empty().push(fo) =~= seq![fo]);
    assert(crate::compile::compile_ops(f, inner, 1) == Ok::<Seq<OpModel>, ErrorKind>(seq![fo]));
    assert(compile_entry(f, inner) == Ok::<Seq<OpModel>, ErrorKind>(seq![fo]));
    assert(compile_entries(q, 0, false) == Ok::<Seq<OpModel>, ErrorKind>(Seq::empty()));
    assert(Seq::<OpModel>::empty() + seq![fo] =~= seq![fo]);
    assert(compile_query(q) == Ok::<Seq<OpModel>, ErrorKind>(seq![fo]));
    lemma_ops_match_single(fo, d);
    assert(value_order(JsonView::Null, t) is None);
    assert(!op_test(o, JsonView::Null, Origin::Field(f, d)));
}

/// On a dotted path that reaches nothing in the document: `$exists: false`
/// holds, `$exists: true` does not, no comparison holds, and `$eq: null`
/// holds.
pub proof fn law_absent_dotted_path(p: Seq<char>, d: JsonView, t: JsonView)
    requires
        p.len() > 0,
        has_dot(p),
        leaves(d, d, split_dots(p), 0).len() == 0,
    ensures
        op_test(OpModel::Field(p, Box::new(OpModel::Exists(false))), d, Origin::Unknown),
        !op_test(OpModel::Field(p, Box::new(OpModel::Exists(true))), d, Origin::Unknown),
        !op_test(OpModel::Field(p, Box::new(OpModel::Gt(t))), d, Origin::Unknown),
        !op_test(OpModel::Field(p, Box::new(OpModel::Gte(t))), d, Origin::Unknown),
        !op_test(OpModel::Field(p, Box::new(OpModel::Lt(t))), d, Origin::Unknown),
        !op_test(OpModel::Field(p, Box::new(OpModel::Lte(t))), d, Origin::Unknown),
        op_test(OpModel::Field(p, Box::new(OpModel::Eq(JsonView::Null))), d, Origin::Unknown),
{
    assert(value_order(JsonView::Null, t) is None);
    let o = Origin::Missing;
    let n = JsonView::Null;
    assert(op_test(OpModel::Exists(false), n, o));
    assert(!op_test(OpModel::Exists(true), n, o));
    assert(!op_test(OpModel::Gt(t), n, o));
    assert(!op_test(OpModel::Gte(t), n, o));
    assert(!op_test(OpModel::Lt(t), n, o));
    assert(!op_test(OpModel::Lte(t), n, o));
    assert(op_test(OpModel::Eq(n), n, o));
}

/// On a dotted path whose only leaf is a null held under the path's last
/// segment in an object: `$exists: true` holds and `$eq: null` holds.
pub proof fn law_present_null_dotted_path(p: Seq<char>, d: JsonView, parent: JsonView)
    requires
        p.len() > 0,
        has_dot(p),
        leaves(d, d, split_dots(p), 0) == seq![Leaf { value: JsonView::Null, parent }],
        field_of(parent, split_dots(p).last()) == Some(JsonView::Null),
        parent is Obj,
    ensures
        op_test(OpModel::Field(p, Box::new(OpModel::Exists(true))), d, Origin::Unknown),
        op_test(OpModel::Field(p, Box::new(OpModel::Eq(JsonView::Null))), d, Origin::Unknown),
{
    let k = split_dots(p).last();
    let ls = seq![Leaf { value: JsonView::Null, parent }];
    let o = Origin::Field(k, parent);
    assert(ls[0] == Leaf { value: JsonView::Null, parent });
    assert(op_test(OpModel::Exists(true), JsonView::Null, o));
    assert(op_test(OpModel::Eq(JsonView::Null), JsonView::Null, o));
    assert(crate::ops::any_leaf(OpModel::Exists(true), k, ls, 1));
    assert(crate::ops::any_leaf(OpModel::Eq(JsonView::Null), k, ls, 1));
}

/// On a field that the document holds as null: `$exists: true` holds and
/// `$eq: null` holds.
pub proof fn law_present_null(f: Seq<char>, d: JsonView)
    requires
        f.len() > 0,
        !has_dot(f),
        d is Obj,
        field_of(d, f) == Some(JsonView::Null),
    ensures
        op_test(OpModel::Field(f, Box::new(OpModel::Exists(true))), d, Origin::Unknown),
        op_test(OpModel::Field(f, Box::new(OpModel::Eq(JsonView::Null))), d, Origin::Unknown),
{
    let o = Origin::Field(f, d);
    assert(op_test(OpModel::Exists(true), JsonView::Null, o));
    assert(op_test(OpModel::Eq(JsonView::Null), JsonView::Null, o));
}

/// Numbers are equal by value, whether written as an integer or a double.
pub proof fn law_numeric_equality(x: int, o: Origin)
    ensures
        op_test(OpModel::Eq(JsonView::Num(x, false)), JsonView::Num(x, true), o),
        op_test(OpModel::Eq(JsonView::Num(x, true)), JsonView::Num(x, false), o),
{
}

/// A regular expression never matches a value that is not a string, and
/// testing it does not fail.
pub proof fn law_regex_non_string(p: Seq<char>, v: JsonView, o: Origin)
    requires
        !(v is Str),
    ensures
        !op_test(OpModel::Regex(p), v, o),
{
}

/// `$in` on an array-valued field matches when one of its elements equals
/// one of the listed values.
pub proof fn law_in_array_field(xs: Seq<JsonView>, items: Seq<JsonView>, i: int, j: int, o: Origin)
    requires
        0 <= i < items.len(),
        0 <= j < xs.len(),
        json_eq(items[i], xs[j]),
    ensures
        op_test(OpModel::In(xs), JsonView::Arr(items), o),
{
    let v = JsonView::Arr(items);
    assert(v->Arr_0 == items);
    assert(json_eq(v->Arr_0[i], xs[j]));
    assert(in_list(v, xs));
}

/// Parsing is a function of the query: two parses of one query give the
/// same conditions.
pub proof fn law_parse_deterministic(q: JsonView, a: Seq<CondView>, b: Seq<CondView>)
    requires
        a == parse_spec(q),
        b == parse_spec(q),
    ensures
        a == b,
{
}

} // verus!
