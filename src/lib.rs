//! MongoDB-style query filtering over JSON values.
//!
//! A query is parsed into conditions, compiled into operations, and tested
//! against documents. [`sift`] does all three at once; [`create_filter`]
//! compiles once for many documents.
pub mod compare;
pub mod compile;
pub mod error;
pub mod laws;
pub mod operators;
pub mod ops;
pub mod query;
pub mod script;
pub mod text;
pub mod utils;
pub mod value;

use vstd::prelude::*;

pub use crate::compile::OperatorKind;
pub use crate::error::{ErrorKind, SiftError};
pub use crate::operators::{
    AllOperator, AndOperator, ElemMatchOperator, EqOperator, ExistsOperator, GtOperator, GteOperator, InOperator,
    LtOperator, LteOperator, ModOperator, NeOperator, NinOperator, NorOperator, NotOperator, OperatorRegistry, OrOperator,
    QueryOptions, RegexOperator, SizeOperator, TypeOperator, WhereOperator,
};
pub use crate::query::{CompiledQuery, Condition, Query, QueryCondition};
pub use crate::value::{Number, Value};

use crate::compile::{compile_query, compile_value};
use crate::ops::{all_free, fits, ops_match, OpModel};
use crate::query::{lemma_compile_parsed, sift_spec};

use crate::value::lemma_view_shape;

verus! {

/// Whether `value` matches `query`: parses and compiles the query, then
/// tests the value. Fails with the compile error of a malformed query, or
/// with an evaluation error of a `$where` script. Without scripts the
/// result is [`sift_spec`].
pub fn sift(query: &Value, value: &Value) -> (r: Result<bool, SiftError>)
    ensures
        match compile_query(query@) {
            Ok(ops) => fits(r, all_free(ops, ops.len() as int), ops_match(ops, value@)),
            Err(e) => r is Err && r->Err_0@ == e && crate::compile::names_unknown(r->Err_0),
        },
{
    proof {
        lemma_view_shape(query);
        lemma_compile_parsed(query@);
    }
    match Query::from_value(query) {
        Ok(q) => q.test(value),
        Err(e) => Err(e),
    }
}

/// A compiled query used as a predicate over many documents.
pub struct Filter {
    compiled: CompiledQuery,
}

impl View for Filter {
    type V = Seq<OpModel>;

    closed spec fn view(&self) -> Seq<OpModel> {
        self.compiled@
    }
}

/// Compiles `query` once into a reusable predicate.
pub fn create_filter(query: &Value) -> (r: Result<Filter, SiftError>)
    ensures
        match compile_query(query@) {
            Ok(ops) => r is Ok && r->Ok_0@ == ops,
            Err(e) => r is Err && r->Err_0@ == e && crate::compile::names_unknown(r->Err_0),
        },
{
    match compile_value(query) {
        Ok(ops) => Ok(Filter { compiled: CompiledQuery::new(ops) }),
        Err(e) => Err(e),
    }
}

impl Filter {
    /// Whether `value` matches the filter's query; an evaluation error
    /// counts as no match.
    pub fn test(&self, value: &Value) -> (r: bool)
        ensures
            all_free(self@, self@.len() as int) ==> r == ops_match(self@, value@),
    {
        match self.compiled.test(value) {
            Ok(b) => b,
            Err(_) => false,
        }
    }
}

} // verus!
