use crate::compile::{create_operation, create_spec, op_result, operator_of, OperatorKind};
use crate::error::SiftError;
use crate::ops::Operation;
use crate::value::Value;
use vstd::prelude::*;

verus! {

/// The `$eq` operator: tests for equality.
pub struct EqOperator;

impl EqOperator {
    /// Builds the operation from its parameter; `_parent_query` is not used.
    pub fn create_operation(&self, params: &Value, _parent_query: &Value) -> (r: Result<Operation, SiftError>)
        ensures
            op_result(r) == create_spec(OperatorKind::Eq, params@),
    {
        create_operation(OperatorKind::Eq, params)
    }

    /// The operator's name.
    pub fn name(&self) -> (r: &'static str)
        ensures
            r@ == "$eq"@,
    {
        "$eq"
    }
}

/// The `$ne` operator: tests for inequality.
pub struct NeOperator;

impl NeOperator {
    /// Builds the operation from its parameter; `_parent_query` is not used.
    pub fn create_operation(&self, params: &Value, _parent_query: &Value) -> (r: Result<Operation, SiftError>)
        ensures
            op_result(r) == create_spec(OperatorKind::Ne, params@),
    {
        create_operation(OperatorKind::Ne, params)
    }

    /// The operator's name.
    pub fn name(&self) -> (r: &'static str)
        ensures
            r@ == "$ne"@,
    {
        "$ne"
    }
}

/// The `$gt` operator: greater than.
pub struct GtOperator;

impl GtOperator {
    /// Builds the operation from its parameter; `_parent_query` is not used.
    pub fn create_operation(&self, params: &Value, _parent_query: &Value) -> (r: Result<Operation, SiftError>)
        ensures
            op_result(r) == create_spec(OperatorKind::Gt, params@),
    {
        create_operation(OperatorKind::Gt, params)
    }

    /// The operator's name.
    pub fn name(&self) -> (r: &'static str)
        ensures
            r@ == "$gt"@,
    {
        "$gt"
    }
}

/// The `$gte` operator: greater than or equal.
pub struct GteOperator;

impl GteOperator {
    /// Builds the operation from its parameter; `_parent_query` is not used.
    pub fn create_operation(&self, params: &Value, _parent_query: &Value) -> (r: Result<Operation, SiftError>)
        ensures
            op_result(r) == create_spec(OperatorKind::Gte, params@),
    {
        create_operation(OperatorKind::Gte, params)
    }

    /// The operator's name.
    pub fn name(&self) -> (r: &'static str)
        ensures
            r@ == "$gte"@,
    {
        "$gte"
    }
}

/// The `$lt` operator: less than.
pub struct LtOperator;

impl LtOperator {
    /// Builds the operation from its parameter; `_parent_query` is not used.
    pub fn create_operation(&self, params: &Value, _parent_query: &Value) -> (r: Result<Operation, SiftError>)
        ensures
            op_result(r) == create_spec(OperatorKind::Lt, params@),
    {
        create_operation(OperatorKind::Lt, params)
    }

    /// The operator's name.
    pub fn name(&self) -> (r: &'static str)
        ensures
            r@ == "$lt"@,
    {
        "$lt"
    }
}

/// The `$lte` operator: less than or equal.
pub struct LteOperator;

impl LteOperator {
    /// Builds the operation from its parameter; `_parent_query` is not used.
    pub fn create_operation(&self, params: &Value, _parent_query: &Value) -> (r: Result<Operation, SiftError>)
        ensures
            op_result(r) == create_spec(OperatorKind::Lte, params@),
    {
        create_operation(OperatorKind::Lte, params)
    }

    /// The operator's name.
    pub fn name(&self) -> (r: &'static str)
        ensures
            r@ == "$lte"@,
    {
        "$lte"
    }
}

/// The `$in` operator: the value is one of a list.
pub struct InOperator;

impl InOperator {
    /// Builds the operation from its parameter; `_parent_query` is not used.
    pub fn create_operation(&self, params: &Value, _parent_query: &Value) -> (r: Result<Operation, SiftError>)
        ensures
            op_result(r) == create_spec(OperatorKind::In, params@),
    {
        create_operation(OperatorKind::In, params)
    }

    /// The operator's name.
    pub fn name(&self) -> (r: &'static str)
        ensures
            r@ == "$in"@,
    {
        "$in"
    }
}

/// The `$nin` operator: the value is none of a list.
pub struct NinOperator;

impl NinOperator {
    /// Builds the operation from its parameter; `_parent_query` is not used.
    pub fn create_operation(&self, params: &Value, _parent_query: &Value) -> (r: Result<Operation, SiftError>)
        ensures
            op_result(r) == create_spec(OperatorKind::Nin, params@),
    {
        create_operation(OperatorKind::Nin, params)
    }

    /// The operator's name.
    pub fn name(&self) -> (r: &'static str)
        ensures
            r@ == "$nin"@,
    {
        "$nin"
    }
}

/// The `$all` operator: an array holds each of a list.
pub struct AllOperator;

impl AllOperator {
    /// Builds the operation from its parameter; `_parent_query` is not used.
    pub fn create_operation(&self, params: &Value, _parent_query: &Value) -> (r: Result<Operation, SiftError>)
        ensures
            op_result(r) == create_spec(OperatorKind::All, params@),
    {
        create_operation(OperatorKind::All, params)
    }

    /// The operator's name.
    pub fn name(&self) -> (r: &'static str)
        ensures
            r@ == "$all"@,
    {
        "$all"
    }
}

/// The `$exists` operator: the field is present or absent.
pub struct ExistsOperator;

impl ExistsOperator {
    /// Builds the operation from its parameter; `_parent_query` is not used.
    pub fn create_operation(&self, params: &Value, _parent_query: &Value) -> (r: Result<Operation, SiftError>)
        ensures
            op_result(r) == create_spec(OperatorKind::Exists, params@),
    {
        create_operation(OperatorKind::Exists, params)
    }

    /// The operator's name.
    pub fn name(&self) -> (r: &'static str)
        ensures
            r@ == "$exists"@,
    {
        "$exists"
    }
}

/// The `$regex` operator: a string matches a regular expression.
pub struct RegexOperator;

impl RegexOperator {
    /// Builds the operation from its parameter; `_parent_query` is not used.
    pub fn create_operation(&self, params: &Value, _parent_query: &Value) -> (r: Result<Operation, SiftError>)
        ensures
            op_result(r) == create_spec(OperatorKind::Regex, params@),
    {
        create_operation(OperatorKind::Regex, params)
    }

    /// The operator's name.
    pub fn name(&self) -> (r: &'static str)
        ensures
            r@ == "$regex"@,
    {
        "$regex"
    }
}

/// The `$and` operator: every sub-query matches.
pub struct AndOperator;

impl AndOperator {
    /// Builds the operation from its parameter; `_parent_query` is not used.
    pub fn create_operation(&self, params: &Value, _parent_query: &Value) -> (r: Result<Operation, SiftError>)
        ensures
            op_result(r) == create_spec(OperatorKind::And, params@),
    {
        create_operation(OperatorKind::And, params)
    }

    /// The operator's name.
    pub fn name(&self) -> (r: &'static str)
        ensures
            r@ == "$and"@,
    {
        "$and"
    }
}

/// The `$or` operator: some sub-query matches.
pub struct OrOperator;

impl OrOperator {
    /// Builds the operation from its parameter; `_parent_query` is not used.
    pub fn create_operation(&self, params: &Value, _parent_query: &Value) -> (r: Result<Operation, SiftError>)
        ensures
            op_result(r) == create_spec(OperatorKind::Or, params@),
    {
        create_operation(OperatorKind::Or, params)
    }

    /// The operator's name.
    pub fn name(&self) -> (r: &'static str)
        ensures
            r@ == "$or"@,
    {
        "$or"
    }
}

/// The `$not` operator: the sub-query does not match.
pub struct NotOperator;

impl NotOperator {
    /// Builds the operation from its parameter; `_parent_query` is not used.
    pub fn create_operation(&self, params: &Value, _parent_query: &Value) -> (r: Result<Operation, SiftError>)
        ensures
            op_result(r) == create_spec(OperatorKind::Not, params@),
    {
        create_operation(OperatorKind::Not, params)
    }

    /// The operator's name.
    pub fn name(&self) -> (r: &'static str)
        ensures
            r@ == "$not"@,
    {
        "$not"
    }
}

/// The `$size` operator: an array or string has a length.
pub struct SizeOperator;

impl SizeOperator {
    /// Builds the operation from its parameter; `_parent_query` is not used.
    pub fn create_operation(&self, params: &Value, _parent_query: &Value) -> (r: Result<Operation, SiftError>)
        ensures
            op_result(r) == create_spec(OperatorKind::Size, params@),
    {
        create_operation(OperatorKind::Size, params)
    }

    /// The operator's name.
    pub fn name(&self) -> (r: &'static str)
        ensures
            r@ == "$size"@,
    {
        "$size"
    }
}

/// The `$mod` operator: a number has a remainder.
pub struct ModOperator;

impl ModOperator {
    /// Builds the operation from its parameter; `_parent_query` is not used.
    pub fn create_operation(&self, params: &Value, _parent_query: &Value) -> (r: Result<Operation, SiftError>)
        ensures
            op_result(r) == create_spec(OperatorKind::Mod, params@),
    {
        create_operation(OperatorKind::Mod, params)
    }

    /// The operator's name.
    pub fn name(&self) -> (r: &'static str)
        ensures
            r@ == "$mod"@,
    {
        "$mod"
    }
}

/// The `$type` operator: a value belongs to a type family.
pub struct TypeOperator;

impl TypeOperator {
    /// Builds the operation from its parameter; `_parent_query` is not used.
    pub fn create_operation(&self, params: &Value, _parent_query: &Value) -> (r: Result<Operation, SiftError>)
        ensures
            op_result(r) == create_spec(OperatorKind::Type, params@),
    {
        create_operation(OperatorKind::Type, params)
    }

    /// The operator's name.
    pub fn name(&self) -> (r: &'static str)
        ensures
            r@ == "$type"@,
    {
        "$type"
    }
}

/// The `$elemMatch` operator: an array element matches a sub-query.
pub struct ElemMatchOperator;

impl ElemMatchOperator {
    /// Builds the operation from its parameter; `_parent_query` is not used.
    pub fn create_operation(&self, params: &Value, _parent_query: &Value) -> (r: Result<Operation, SiftError>)
        ensures
            op_result(r) == create_spec(OperatorKind::ElemMatch, params@),
    {
        create_operation(OperatorKind::ElemMatch, params)
    }

    /// The operator's name.
    pub fn name(&self) -> (r: &'static str)
        ensures
            r@ == "$elemMatch"@,
    {
        "$elemMatch"
    }
}

/// The `$nor` operator: no sub-query matches.
pub struct NorOperator;

impl NorOperator {
    /// Builds the operation from its parameter; `_parent_query` is not used.
    pub fn create_operation(&self, params: &Value, _parent_query: &Value) -> (r: Result<Operation, SiftError>)
        ensures
            op_result(r) == create_spec(OperatorKind::Nor, params@),
    {
        create_operation(OperatorKind::Nor, params)
    }

    /// The operator's name.
    pub fn name(&self) -> (r: &'static str)
        ensures
            r@ == "$nor"@,
    {
        "$nor"
    }
}

/// The `$where` operator: a script expression holds.
pub struct WhereOperator;

impl WhereOperator {
    /// Builds the operation from its parameter; `_parent_query` is not used.
    pub fn create_operation(&self, params: &Value, _parent_query: &Value) -> (r: Result<Operation, SiftError>)
        ensures
            op_result(r) == create_spec(OperatorKind::Where, params@),
    {
        create_operation(OperatorKind::Where, params)
    }

    /// The operator's name.
    pub fn name(&self) -> (r: &'static str)
        ensures
            r@ == "$where"@,
    {
        "$where"
    }
}

/// The operators that queries can name, looked up by name.
pub struct OperatorRegistry;

impl OperatorRegistry {
    /// The registry of all supported operators.
    pub fn new() -> (r: OperatorRegistry) {
        OperatorRegistry
    }

    /// The operator a name stands for, if any.
    pub fn get(&self, name: &str) -> (r: Option<OperatorKind>)
        ensures
            r == operator_of(name@),
    {
        let n = crate::compile::text(name);
        crate::compile::operator_of_name(&n)
    }
}

/// Options of query evaluation.
#[derive(Clone, Copy, Debug)]
pub struct QueryOptions {
    pub case_sensitive: bool,
    pub strict_arrays: bool,
}

impl QueryOptions {
    /// Case-sensitive matching, arrays matched element by element.
    pub fn new() -> (r: QueryOptions)
        ensures
            r.case_sensitive,
            !r.strict_arrays,
    {
        QueryOptions { case_sensitive: true, strict_arrays: false }
    }
}

impl Default for QueryOptions {
    fn default() -> (r: QueryOptions)
        ensures
            r.case_sensitive,
            !r.strict_arrays,
    {
        QueryOptions::new()
    }
}

} // verus!
