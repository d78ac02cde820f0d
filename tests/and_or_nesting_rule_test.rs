#![allow(unused_imports)]

use sift_rs::compare::compare_numbers;
use sift_rs::utils::{get_length, get_nested_value, is_truthy, same_type};
use sift_rs::value::values_equal;
use sift_rs::{
    create_filter, sift, AllOperator, AndOperator, ElemMatchOperator, EqOperator, ExistsOperator, GtOperator,
    GteOperator, InOperator, LtOperator, LteOperator, ModOperator, NeOperator, NinOperator, NorOperator,
    NotOperator, Number, OrOperator, Query, RegexOperator, SizeOperator, TypeOperator, Value,
};


fn decimal(text: &str) -> Number {
    let (mant, exp) = match text.find(|c| c == 'e' || c == 'E') {
        Some(i) => (&text[..i], text[i + 1..].parse::<i32>().unwrap()),
        None => (text, 0),
    };
    let (neg, mant) = match mant.strip_prefix('-') {
        Some(rest) => (true, rest),
        None => (false, mant),
    };
    let (int_part, frac_part) = match mant.find('.') {
        Some(i) => (&mant[..i], &mant[i + 1..]),
        None => (mant, ""),
    };
    let digits: i128 = format!("{}{}", int_part, frac_part).parse().unwrap();
    let shift = 18 - frac_part.len() as i32 + exp;
    let mut scaled = digits;
    if shift >= 0 {
        for _ in 0..shift {
            scaled *= 10;
        }
    } else {
        for _ in 0..(-shift) {
            scaled /= 10;
        }
    }
    Number { scaled: if neg { -scaled } else { scaled }, is_float: true }
}

fn from_json(v: &serde_json::Value) -> Value {
    match v {
        serde_json::Value::Null => Value::Null,
        serde_json::Value::Bool(b) => Value::Bool(*b),
        serde_json::Value::Number(n) => {
            if let Some(i) = n.as_i64() {
                Value::Number(Number::from_i64(i))
            } else if let Some(u) = n.as_u64() {
                Value::Number(Number::from_u64(u))
            } else {
                Value::Number(decimal(&n.to_string()))
            }
        }
        serde_json::Value::String(s) => Value::String(s.clone()),
        serde_json::Value::Array(a) => Value::Array(a.iter().map(from_json).collect()),
        serde_json::Value::Object(o) => {
            Value::Object(o.iter().map(|(k, x)| (k.clone(), from_json(x))).collect())
        }
    }
}

/// A value written as JSON text.
fn j(text: &str) -> Value {
    from_json(&serde_json::from_str(text).unwrap())
}


#[test]
fn test_or_at_top_level_when_both_and_or_present() {
        // Test case: query with both $and and $or should nest $and inside $or
        let query_json = j(r#"{
            "$and": [
                {"name": "Alice"},
                {"age": {"$gte": 18}}
            ],
            "$or": [
                {"status": "active"},
                {"priority": "high"}
            ]
        }"#);
        
        let query = Query::from_value(&query_json).unwrap();
        
        // Test with a document that matches $or condition (status: active) 
        // but doesn't match all $and conditions (name is different)
        let test_doc_or_match = j(r#"{
            "name": "Bob",  
            "age": 25,      
            "status": "active",  
            "priority": "low"
        }"#);
        
        // Since $or is at top level, this should match because status is "active"
        let result = query.test(&test_doc_or_match).unwrap();
        assert!(result, "Document should match because $or is at top level and status is 'active'");
        
        // Test with a document that matches nested $and conditions
        let test_doc_and_match = j(r#"{
            "name": "Alice",  
            "age": 25,        
            "status": "inactive",  
            "priority": "low"      
        }"#);
        
        // This should match because the nested $and conditions are satisfied
        let result2 = query.test(&test_doc_and_match).unwrap();
        assert!(result2, "Document should match because nested $and conditions are satisfied");
        
        // Test with a document that matches neither $or nor nested $and
        let test_doc_no_match = j(r#"{
            "name": "Carol",      
            "age": 16,            
            "status": "inactive", 
            "priority": "low"     
        }"#);
        
        // This should not match
        let result3 = query.test(&test_doc_no_match).unwrap();
        assert!(!result3, "Document should not match because it satisfies neither $or nor nested $and conditions");
    }


#[test]
fn test_only_and_conditions() {
        // Test case: query with only $and should work normally
        let query_json = j(r#"{
            "$and": [
                {"name": "Alice"},
                {"age": {"$gte": 18}}
            ]
        }"#);
        
        let query = Query::from_value(&query_json).unwrap();
        
        let test_doc = j(r#"{
            "name": "Alice",
            "age": 25
        }"#);
        
        let result = query.test(&test_doc).unwrap();
        assert!(result, "Document should match $and conditions");
        
        let test_doc2 = j(r#"{
            "name": "Bob",
            "age": 25
        }"#);
        
        let result2 = query.test(&test_doc2).unwrap();
        assert!(!result2, "Document should not match $and conditions");
    }


#[test]
fn test_only_or_conditions() {
        // Test case: query with only $or should work normally
        let query_json = j(r#"{
            "$or": [
                {"status": "active"},
                {"priority": "high"}
            ]
        }"#);
        
        let query = Query::from_value(&query_json).unwrap();
        
        let test_doc = j(r#"{
            "status": "active",
            "priority": "low"
        }"#);
        
        let result = query.test(&test_doc).unwrap();
        assert!(result, "Document should match $or conditions");
        
        let test_doc2 = j(r#"{
            "status": "inactive",
            "priority": "low"
        }"#);
        
        let result2 = query.test(&test_doc2).unwrap();
        assert!(!result2, "Document should not match $or conditions");
    }


#[test]
fn test_complex_nested_case() {
        // Test a more complex case with additional fields
        let query_json = j(r#"{
            "$and": [
                {"department": "Engineering"},
                {"experience": {"$gte": 2}}
            ],
            "$or": [
                {"role": "Senior"},
                {"salary": {"$gte": 80000}}
            ],
            "active": true  
        }"#);
        
        let query = Query::from_value(&query_json).unwrap();
        
        // Should match because role is "Senior" (satisfies $or) and active is true
        let test_doc = j(r#"{
            "department": "Marketing",  
            "experience": 1,            
            "role": "Senior",           
            "salary": 70000,
            "active": true
        }"#);
        
        let result = query.test(&test_doc).unwrap();
        assert!(result, "Document should match because it satisfies $or condition and active field");
    }
