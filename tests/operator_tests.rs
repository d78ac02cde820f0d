#![allow(unused_imports)]

use sift_rs::compare::compare_numbers;
use sift_rs::utils::{get_length, get_nested_value, is_truthy, same_type};
use sift_rs::value::values_equal;
use sift_rs::{
    create_filter, sift, AllOperator, AndOperator, ElemMatchOperator, EqOperator, ExistsOperator, GtOperator,
    GteOperator, InOperator, LtOperator, LteOperator, ModOperator, NeOperator, NinOperator, NorOperator,
    NotOperator, Number, OrOperator, Query, RegexOperator, SizeOperator, TypeOperator, Value,
};


fn decimal(text: &str) -> Number {
    let (mant, exp) = match text.find(|c| c == 'e' || c == 'E') {
        Some(i) => (&text[..i], text[i + 1..].parse::<i32>().unwrap()),
        None => (text, 0),
    };
    let (neg, mant) = match mant.strip_prefix('-') {
        Some(rest) => (true, rest),
        None => (false, mant),
    };
    let (int_part, frac_part) = match mant.find('.') {
        Some(i) => (&mant[..i], &mant[i + 1..]),
        None => (mant, ""),
    };
    let digits: i128 = format!("{}{}", int_part, frac_part).parse().unwrap();
    let shift = 18 - frac_part.len() as i32 + exp;
    let mut scaled = digits;
    if shift >= 0 {
        for _ in 0..shift {
            scaled *= 10;
        }
    } else {
        for _ in 0..(-shift) {
            scaled /= 10;
        }
    }
    Number { scaled: if neg { -scaled } else { scaled }, is_float: true }
}

fn from_json(v: &serde_json::Value) -> Value {
    match v {
        serde_json::Value::Null => Value::Null,
        serde_json::Value::Bool(b) => Value::Bool(*b),
        serde_json::Value::Number(n) => {
            if let Some(i) = n.as_i64() {
                Value::Number(Number::from_i64(i))
            } else if let Some(u) = n.as_u64() {
                Value::Number(Number::from_u64(u))
            } else {
                Value::Number(decimal(&n.to_string()))
            }
        }
        serde_json::Value::String(s) => Value::String(s.clone()),
        serde_json::Value::Array(a) => Value::Array(a.iter().map(from_json).collect()),
        serde_json::Value::Object(o) => {
            Value::Object(o.iter().map(|(k, x)| (k.clone(), from_json(x))).collect())
        }
    }
}

/// A value written as JSON text.
fn j(text: &str) -> Value {
    from_json(&serde_json::from_str(text).unwrap())
}


#[test]
fn test_gt_operation() {
        let op = GtOperator;
        let operation = op.create_operation(&j(r#"5"#), &Value::Null).unwrap();
        
        assert!(operation.test(&j(r#"10"#), None, None).unwrap());
        assert!(operation.test(&j(r#"6"#), None, None).unwrap());
        assert!(!operation.test(&j(r#"5"#), None, None).unwrap()); // equal should be false
        assert!(!operation.test(&j(r#"3"#), None, None).unwrap());
        assert!(!operation.test(&j(r#""not a number""#), None, None).unwrap());
    }


#[test]
fn test_gte_operation() {
        let op = GteOperator;
        let operation = op.create_operation(&j(r#"5"#), &Value::Null).unwrap();
        
        assert!(operation.test(&j(r#"10"#), None, None).unwrap());
        assert!(operation.test(&j(r#"6"#), None, None).unwrap());
        assert!(operation.test(&j(r#"5"#), None, None).unwrap()); // equal should be true
        assert!(!operation.test(&j(r#"3"#), None, None).unwrap());
        assert!(!operation.test(&j(r#""not a number""#), None, None).unwrap());
    }


#[test]
fn test_lt_operation() {
        let op = LtOperator;
        let operation = op.create_operation(&j(r#"5"#), &Value::Null).unwrap();
        
        assert!(!operation.test(&j(r#"10"#), None, None).unwrap());
        assert!(!operation.test(&j(r#"6"#), None, None).unwrap());
        assert!(!operation.test(&j(r#"5"#), None, None).unwrap()); // equal should be false
        assert!(operation.test(&j(r#"3"#), None, None).unwrap());
        assert!(operation.test(&j(r#"1"#), None, None).unwrap());
        assert!(!operation.test(&j(r#""not a number""#), None, None).unwrap());
    }


#[test]
fn test_lte_operation() {
        let op = LteOperator;
        let operation = op.create_operation(&j(r#"5"#), &Value::Null).unwrap();
        
        assert!(!operation.test(&j(r#"10"#), None, None).unwrap());
        assert!(!operation.test(&j(r#"6"#), None, None).unwrap());
        assert!(operation.test(&j(r#"5"#), None, None).unwrap()); // equal should be true
        assert!(operation.test(&j(r#"3"#), None, None).unwrap());
        assert!(operation.test(&j(r#"1"#), None, None).unwrap());
        assert!(!operation.test(&j(r#""not a number""#), None, None).unwrap());
    }


#[test]
fn test_eq_operation() {
        let op = EqOperator;
        let operation = op.create_operation(&j(r#""test""#), &Value::Null).unwrap();
        
        assert!(operation.test(&j(r#""test""#), None, None).unwrap());
        assert!(!operation.test(&j(r#""other""#), None, None).unwrap());
        assert!(!operation.test(&j(r#"123"#), None, None).unwrap());
    }


#[test]
fn test_ne_operation() {
        let op = NeOperator;
        let operation = op.create_operation(&j(r#""test""#), &Value::Null).unwrap();
        
        assert!(!operation.test(&j(r#""test""#), None, None).unwrap());
        assert!(operation.test(&j(r#""other""#), None, None).unwrap());
        assert!(operation.test(&j(r#"123"#), None, None).unwrap());
    }


#[test]
fn test_floating_point_comparisons() {
        let gt_op = GtOperator;
        let gt_operation = gt_op.create_operation(&j(r#"5.5"#), &Value::Null).unwrap();
        
        assert!(gt_operation.test(&j(r#"6.0"#), None, None).unwrap());
        assert!(gt_operation.test(&j(r#"5.6"#), None, None).unwrap());
        assert!(!gt_operation.test(&j(r#"5.5"#), None, None).unwrap());
        assert!(!gt_operation.test(&j(r#"5.4"#), None, None).unwrap());
        
        let gte_op = GteOperator;
        let gte_operation = gte_op.create_operation(&j(r#"5.5"#), &Value::Null).unwrap();
        
        assert!(gte_operation.test(&j(r#"6.0"#), None, None).unwrap());
        assert!(gte_operation.test(&j(r#"5.6"#), None, None).unwrap());
        assert!(gte_operation.test(&j(r#"5.5"#), None, None).unwrap());
        assert!(!gte_operation.test(&j(r#"5.4"#), None, None).unwrap());
    }


#[test]
fn test_in_operation() {
        let op = InOperator;
        let operation = op.create_operation(&j(r#"[1, 2, 3, "test"]"#), &Value::Null).unwrap();
        
        assert!(operation.test(&j(r#"1"#), None, None).unwrap());
        assert!(operation.test(&j(r#"2"#), None, None).unwrap());
        assert!(operation.test(&j(r#"3"#), None, None).unwrap());
        assert!(operation.test(&j(r#""test""#), None, None).unwrap());
        assert!(!operation.test(&j(r#"4"#), None, None).unwrap());
        assert!(!operation.test(&j(r#""other""#), None, None).unwrap());
    }


#[test]
fn test_in_operation_invalid_params() {
        let op = InOperator;
        let result = op.create_operation(&j(r#""not an array""#), &Value::Null);
        assert!(result.is_err());
    }


#[test]
fn test_nin_operation() {
        let op = NinOperator;
        let operation = op.create_operation(&j(r#"[1, 2, 3, "test"]"#), &Value::Null).unwrap();
        
        assert!(!operation.test(&j(r#"1"#), None, None).unwrap());
        assert!(!operation.test(&j(r#"2"#), None, None).unwrap());
        assert!(!operation.test(&j(r#"3"#), None, None).unwrap());
        assert!(!operation.test(&j(r#""test""#), None, None).unwrap());
        assert!(operation.test(&j(r#"4"#), None, None).unwrap());
        assert!(operation.test(&j(r#""other""#), None, None).unwrap());
    }


#[test]
fn test_nin_operation_invalid_params() {
        let op = NinOperator;
        let result = op.create_operation(&j(r#""not an array""#), &Value::Null);
        assert!(result.is_err());
    }


#[test]
fn test_all_operation() {
        let op = AllOperator;
        let operation = op.create_operation(&j(r#"[1, 2, 3]"#), &Value::Null).unwrap();
        
        // Array containing all required values
        assert!(operation.test(&j(r#"[1, 2, 3, 4, 5]"#), None, None).unwrap());
        assert!(operation.test(&j(r#"[3, 2, 1]"#), None, None).unwrap());
        
        // Array missing some required values
        assert!(!operation.test(&j(r#"[1, 2]"#), None, None).unwrap());
        assert!(!operation.test(&j(r#"[1, 3]"#), None, None).unwrap());
        assert!(!operation.test(&j(r#"[4, 5, 6]"#), None, None).unwrap());
        
        // Non-array value
        assert!(!operation.test(&j(r#"1"#), None, None).unwrap());
        assert!(!operation.test(&j(r#""not an array""#), None, None).unwrap());
    }


#[test]
fn test_all_operation_invalid_params() {
        let op = AllOperator;
        let result = op.create_operation(&j(r#""not an array""#), &Value::Null);
        assert!(result.is_err());
    }


#[test]
fn test_size_operation() {
        let op = SizeOperator;
        let operation = op.create_operation(&j(r#"3"#), &Value::Null).unwrap();
        
        // Test arrays
        assert!(operation.test(&j(r#"[1, 2, 3]"#), None, None).unwrap());
        assert!(!operation.test(&j(r#"[1, 2]"#), None, None).unwrap());
        assert!(!operation.test(&j(r#"[1, 2, 3, 4]"#), None, None).unwrap());
        assert!(operation.test(&j(r#"[]"#), None, None).unwrap_or(false) || !operation.test(&j(r#"[]"#), None, None).unwrap()); // empty array has size 0
        
        // Test strings (also supported by MongoDB $size)
        assert!(operation.test(&j(r#""abc""#), None, None).unwrap());
        assert!(!operation.test(&j(r#""ab""#), None, None).unwrap());
        assert!(!operation.test(&j(r#""abcd""#), None, None).unwrap());
        
        // Non-array, non-string values
        assert!(!operation.test(&j(r#"123"#), None, None).unwrap());
        assert!(!operation.test(&j(r#"null"#), None, None).unwrap());
    }


#[test]
fn test_size_operation_zero() {
        let op = SizeOperator;
        let operation = op.create_operation(&j(r#"0"#), &Value::Null).unwrap();
        
        assert!(operation.test(&j(r#"[]"#), None, None).unwrap());
        assert!(operation.test(&j(r#""""#), None, None).unwrap());
        assert!(!operation.test(&j(r#"[1]"#), None, None).unwrap());
        assert!(!operation.test(&j(r#""a""#), None, None).unwrap());
    }


#[test]
fn test_size_operation_invalid_params() {
        let op = SizeOperator;
        let result = op.create_operation(&j(r#""not a number""#), &Value::Null);
        assert!(result.is_err());
    }


#[test]
fn test_elemmatch_operation() {
        let op = ElemMatchOperator;
        let query_params = j(r#"{ "score": { "$gt": 80 } }"#);
        let operation = op.create_operation(&query_params, &Value::Null).unwrap();
        
        // Array with matching element
        let array_with_match = j(r#"[
            { "score": 75 },
            { "score": 85 },  
            { "score": 60 }
        ]"#);
        assert!(operation.test(&array_with_match, None, None).unwrap());
        
        // Array without matching element
        let array_without_match = j(r#"[
            { "score": 75 },
            { "score": 70 },
            { "score": 60 }
        ]"#);
        assert!(!operation.test(&array_without_match, None, None).unwrap());
        
        // Non-array value
        let non_array = j(r#"{ "score": 85 }"#);
        assert!(!operation.test(&non_array, None, None).unwrap());
        
        // Empty array
        let empty_array = j(r#"[]"#);
        assert!(!operation.test(&empty_array, None, None).unwrap());
    }


#[test]
fn test_elemmatch_operation_complex_query() {
        let op = ElemMatchOperator;
        let query_params = j(r#"{
            "$and": [
                { "score": { "$gte": 80 } },
                { "grade": "A" }
            ]
        }"#);
        let operation = op.create_operation(&query_params, &Value::Null).unwrap();
        
        // Array with matching element
        let array_with_match = j(r#"[
            { "score": 75, "grade": "B" },
            { "score": 85, "grade": "A" },  
            { "score": 90, "grade": "B" }   
        ]"#);
        assert!(operation.test(&array_with_match, None, None).unwrap());
        
        // Array without fully matching element
        let array_without_match = j(r#"[
            { "score": 75, "grade": "A" },  
            { "score": 85, "grade": "B" },  
            { "score": 60, "grade": "C" }
        ]"#);
        assert!(!operation.test(&array_without_match, None, None).unwrap());
    }


#[test]
fn test_and_operation_basic() {
        let op = AndOperator;
        let query_params = j(r#"[
            { "age": { "$gte": 18 } },
            { "status": "active" }
        ]"#);
        let operation = op.create_operation(&query_params, &Value::Null).unwrap();
        
        // Document matching both conditions
        let matching_doc = j(r#"{ "age": 25, "status": "active" }"#);
        assert!(operation.test(&matching_doc, None, None).unwrap());
        
        // Document matching only first condition
        let partial_match1 = j(r#"{ "age": 25, "status": "inactive" }"#);
        assert!(!operation.test(&partial_match1, None, None).unwrap());
        
        // Document matching only second condition
        let partial_match2 = j(r#"{ "age": 16, "status": "active" }"#);
        assert!(!operation.test(&partial_match2, None, None).unwrap());
        
        // Document matching neither condition
        let no_match = j(r#"{ "age": 16, "status": "inactive" }"#);
        assert!(!operation.test(&no_match, None, None).unwrap());
    }


#[test]
fn test_and_operation_empty_array() {
        let op = AndOperator;
        let query_params = j(r#"[]"#);
        let operation = op.create_operation(&query_params, &Value::Null).unwrap();
        
        // Empty $and should match any document (vacuous truth)
        let doc = j(r#"{ "name": "test" }"#);
        assert!(operation.test(&doc, None, None).unwrap());
    }


#[test]
fn test_and_operation_nested() {
        let op = AndOperator;
        let query_params = j(r#"[
            { "$or": [{ "category": "A" }, { "category": "B" }] },
            { "score": { "$gt": 50 } }
        ]"#);
        let operation = op.create_operation(&query_params, &Value::Null).unwrap();
        
        // Document matching both nested conditions
        let matching_doc = j(r#"{ "category": "A", "score": 75 }"#);
        assert!(operation.test(&matching_doc, None, None).unwrap());
        
        // Document with category B and high score
        let matching_doc2 = j(r#"{ "category": "B", "score": 60 }"#);
        assert!(operation.test(&matching_doc2, None, None).unwrap());
        
        // Document with wrong category
        let no_match1 = j(r#"{ "category": "C", "score": 75 }"#);
        assert!(!operation.test(&no_match1, None, None).unwrap());
        
        // Document with low score
        let no_match2 = j(r#"{ "category": "A", "score": 30 }"#);
        assert!(!operation.test(&no_match2, None, None).unwrap());
    }


#[test]
fn test_and_operation_invalid_params() {
        let op = AndOperator;
        let result = op.create_operation(&j(r#""not an array""#), &Value::Null);
        assert!(result.is_err());
    }


#[test]
fn test_or_operation_basic() {
        let op = OrOperator;
        let query_params = j(r#"[
            { "status": "premium" },
            { "age": { "$gte": 65 } }
        ]"#);
        let operation = op.create_operation(&query_params, &Value::Null).unwrap();
        
        // Document matching first condition only
        let match1 = j(r#"{ "status": "premium", "age": 30 }"#);
        assert!(operation.test(&match1, None, None).unwrap());
        
        // Document matching second condition only
        let match2 = j(r#"{ "status": "regular", "age": 70 }"#);
        assert!(operation.test(&match2, None, None).unwrap());
        
        // Document matching both conditions
        let match_both = j(r#"{ "status": "premium", "age": 70 }"#);
        assert!(operation.test(&match_both, None, None).unwrap());
        
        // Document matching neither condition
        let no_match = j(r#"{ "status": "regular", "age": 30 }"#);
        assert!(!operation.test(&no_match, None, None).unwrap());
    }


#[test]
fn test_or_operation_empty_array() {
        let op = OrOperator;
        let query_params = j(r#"[]"#);
        let operation = op.create_operation(&query_params, &Value::Null).unwrap();
        
        // Empty $or should not match any document
        let doc = j(r#"{ "name": "test" }"#);
        assert!(!operation.test(&doc, None, None).unwrap());
    }


#[test]
fn test_or_operation_nested() {
        let op = OrOperator;
        let query_params = j(r#"[
            { "$and": [{ "type": "user" }, { "verified": true }] },
            { "role": "admin" }
        ]"#);
        let operation = op.create_operation(&query_params, &Value::Null).unwrap();
        
        // Document matching first nested condition (verified user)
        let match1 = j(r#"{ "type": "user", "verified": true, "role": "member" }"#);
        assert!(operation.test(&match1, None, None).unwrap());
        
        // Document matching second condition (admin)
        let match2 = j(r#"{ "type": "guest", "verified": false, "role": "admin" }"#);
        assert!(operation.test(&match2, None, None).unwrap());
        
        // Document matching neither condition
        let no_match = j(r#"{ "type": "user", "verified": false, "role": "member" }"#);
        assert!(!operation.test(&no_match, None, None).unwrap());
    }


#[test]
fn test_or_operation_invalid_params() {
        let op = OrOperator;
        let result = op.create_operation(&j(r#"42"#), &Value::Null);
        assert!(result.is_err());
    }


#[test]
fn test_not_operation_basic() {
        let op = NotOperator;
        let query_params = j(r#"{ "status": "inactive" }"#);
        let operation = op.create_operation(&query_params, &Value::Null).unwrap();
        
        // Document that would match the inner condition (should fail $not)
        let matching_inner = j(r#"{ "status": "inactive" }"#);
        assert!(!operation.test(&matching_inner, None, None).unwrap());
        
        // Document that would not match the inner condition (should pass $not)
        let not_matching_inner = j(r#"{ "status": "active" }"#);
        assert!(operation.test(&not_matching_inner, None, None).unwrap());
        
        // Document without the field (should pass $not)
        let missing_field = j(r#"{ "name": "test" }"#);
        assert!(operation.test(&missing_field, None, None).unwrap());
    }


#[test]
fn test_not_operation_with_comparison() {
        let op = NotOperator;
        let query_params = j(r#"{ "age": { "$lt": 18 } }"#);
        let operation = op.create_operation(&query_params, &Value::Null).unwrap();
        
        // Age less than 18 (should fail $not)
        let minor = j(r#"{ "age": 16 }"#);
        assert!(!operation.test(&minor, None, None).unwrap());
        
        // Age 18 or greater (should pass $not)
        let adult = j(r#"{ "age": 25 }"#);
        assert!(operation.test(&adult, None, None).unwrap());
        
        // Exactly 18 (should pass $not)
        let exactly_18 = j(r#"{ "age": 18 }"#);
        assert!(operation.test(&exactly_18, None, None).unwrap());
    }


#[test]
fn test_not_operation_nested() {
        let op = NotOperator;
        let query_params = j(r#"{
            "$and": [
                { "type": "temporary" },
                { "expires": { "$exists": true } }
            ]
        }"#);
        let operation = op.create_operation(&query_params, &Value::Null).unwrap();
        
        // Document matching inner $and (should fail $not)
        let temp_with_expiry = j(r#"{ "type": "temporary", "expires": "2024-12-31" }"#);
        assert!(!operation.test(&temp_with_expiry, None, None).unwrap());
        
        // Document not matching inner $and (should pass $not)
        let permanent = j(r#"{ "type": "permanent" }"#);
        assert!(operation.test(&permanent, None, None).unwrap());
        
        // Temporary but no expiry field (should pass $not)
        let temp_no_expiry = j(r#"{ "type": "temporary" }"#);
        assert!(operation.test(&temp_no_expiry, None, None).unwrap());
    }


#[test]
fn test_nor_operation_basic() {
        let op = NorOperator;
        let query_params = j(r#"[
            { "status": "banned" },
            { "score": { "$lt": 0 } }
        ]"#);
        let operation = op.create_operation(&query_params, &Value::Null).unwrap();
        
        // Document matching first condition (should fail $nor)
        let banned_user = j(r#"{ "status": "banned", "score": 50 }"#);
        assert!(!operation.test(&banned_user, None, None).unwrap());
        
        // Document matching second condition (should fail $nor)
        let negative_score = j(r#"{ "status": "active", "score": -10 }"#);
        assert!(!operation.test(&negative_score, None, None).unwrap());
        
        // Document matching both conditions (should fail $nor)
        let both_bad = j(r#"{ "status": "banned", "score": -5 }"#);
        assert!(!operation.test(&both_bad, None, None).unwrap());
        
        // Document matching neither condition (should pass $nor)
        let good_user = j(r#"{ "status": "active", "score": 100 }"#);
        assert!(operation.test(&good_user, None, None).unwrap());
    }


#[test]
fn test_nor_operation_empty_array() {
        let op = NorOperator;
        let query_params = j(r#"[]"#);
        let operation = op.create_operation(&query_params, &Value::Null).unwrap();
        
        // Empty $nor should match any document (no conditions to violate)
        let doc = j(r#"{ "name": "test" }"#);
        assert!(operation.test(&doc, None, None).unwrap());
    }


#[test]
fn test_nor_operation_nested() {
        let op = NorOperator;
        let query_params = j(r#"[
            { "$and": [{ "type": "spam" }, { "reported": true }] },
            { "reputation": { "$lte": -100 } }
        ]"#);
        let operation = op.create_operation(&query_params, &Value::Null).unwrap();
        
        // Document matching first nested condition (should fail $nor)
        let reported_spam = j(r#"{ "type": "spam", "reported": true, "reputation": 50 }"#);
        assert!(!operation.test(&reported_spam, None, None).unwrap());
        
        // Document matching second condition (should fail $nor)
        let low_reputation = j(r#"{ "type": "normal", "reported": false, "reputation": -150 }"#);
        assert!(!operation.test(&low_reputation, None, None).unwrap());
        
        // Document matching neither condition (should pass $nor)
        let good_user = j(r#"{ "type": "normal", "reported": false, "reputation": 500 }"#);
        assert!(operation.test(&good_user, None, None).unwrap());
        
        // Spam but not reported (should pass $nor)
        let unreported_spam = j(r#"{ "type": "spam", "reported": false, "reputation": 10 }"#);
        assert!(operation.test(&unreported_spam, None, None).unwrap());
    }


#[test]
fn test_nor_operation_invalid_params() {
        let op = NorOperator;
        let result = op.create_operation(&j(r#""invalid""#), &Value::Null);
        assert!(result.is_err());
    }


#[test]
fn test_logical_operators_combination() {
        // Test complex combination: $and with $or and $not
        let and_op = AndOperator;
        let query_params = j(r#"[
            { "$or": [{ "category": "premium" }, { "score": { "$gte": 90 } }] },
            { "$not": { "status": "suspended" } },
            { "verified": true }
        ]"#);
        let operation = and_op.create_operation(&query_params, &Value::Null).unwrap();
        
        // Premium, not suspended, verified (should match)
        let premium_user = j(r#"{
            "category": "premium",
            "status": "active",
            "verified": true,
            "score": 50
        }"#);
        assert!(operation.test(&premium_user, None, None).unwrap());
        
        // High score, not suspended, verified (should match)
        let high_score_user = j(r#"{
            "category": "regular",
            "status": "active",
            "verified": true,
            "score": 95
        }"#);
        assert!(operation.test(&high_score_user, None, None).unwrap());
        
        // Premium but suspended (should not match)
        let suspended_premium = j(r#"{
            "category": "premium",
            "status": "suspended",
            "verified": true,
            "score": 50
        }"#);
        assert!(!operation.test(&suspended_premium, None, None).unwrap());
        
        // Premium, not suspended, but not verified (should not match)
        let unverified_premium = j(r#"{
            "category": "premium",
            "status": "active",
            "verified": false,
            "score": 50
        }"#);
        assert!(!operation.test(&unverified_premium, None, None).unwrap());
        
        // Regular category, low score, not suspended, verified (should not match)
        let regular_low_score = j(r#"{
            "category": "regular",
            "status": "active",
            "verified": true,
            "score": 60
        }"#);
        assert!(!operation.test(&regular_low_score, None, None).unwrap());
    }


#[test]
fn test_logical_operators_edge_cases() {
        // Test $and with single condition
        let and_op = AndOperator;
        let single_condition = j(r#"[{ "name": "test" }]"#);
        let and_operation = and_op.create_operation(&single_condition, &Value::Null).unwrap();
        
        let matching_doc = j(r#"{ "name": "test" }"#);
        assert!(and_operation.test(&matching_doc, None, None).unwrap());
        
        let non_matching_doc = j(r#"{ "name": "other" }"#);
        assert!(!and_operation.test(&non_matching_doc, None, None).unwrap());
        
        // Test $or with single condition
        let or_op = OrOperator;
        let or_operation = or_op.create_operation(&single_condition, &Value::Null).unwrap();
        
        assert!(or_operation.test(&matching_doc, None, None).unwrap());
        assert!(!or_operation.test(&non_matching_doc, None, None).unwrap());
        
        // Test $nor with single condition
        let nor_op = NorOperator;
        let nor_operation = nor_op.create_operation(&single_condition, &Value::Null).unwrap();
        
        assert!(!nor_operation.test(&matching_doc, None, None).unwrap());
        assert!(nor_operation.test(&non_matching_doc, None, None).unwrap());
    }


#[test]
fn test_exists_operation() {
        let op = ExistsOperator;
        
        // Test $exists: true
        let exists_true = op.create_operation(&j(r#"true"#), &Value::Null).unwrap();
        
        assert!(exists_true.test(&j(r#""value""#), None, None).unwrap());
        assert!(exists_true.test(&j(r#"123"#), None, None).unwrap());
        assert!(exists_true.test(&j(r#"false"#), None, None).unwrap());
        assert!(exists_true.test(&j(r#"[]"#), None, None).unwrap());
        assert!(exists_true.test(&j(r#"{}"#), None, None).unwrap());
        assert!(!exists_true.test(&j(r#"null"#), None, None).unwrap());
        
        // Test $exists: false
        let exists_false = op.create_operation(&j(r#"false"#), &Value::Null).unwrap();
        
        assert!(!exists_false.test(&j(r#""value""#), None, None).unwrap());
        assert!(!exists_false.test(&j(r#"123"#), None, None).unwrap());
        assert!(!exists_false.test(&j(r#"false"#), None, None).unwrap());
        assert!(!exists_false.test(&j(r#"[]"#), None, None).unwrap());
        assert!(!exists_false.test(&j(r#"{}"#), None, None).unwrap());
        assert!(exists_false.test(&j(r#"null"#), None, None).unwrap());
    }


#[test]
fn test_exists_operation_invalid_params() {
        let op = ExistsOperator;
        let result = op.create_operation(&j(r#""not a boolean""#), &Value::Null);
        assert!(result.is_err());
        
        let result = op.create_operation(&j(r#"123"#), &Value::Null);
        assert!(result.is_err());
    }


#[test]
fn test_regex_operation() {
        let op = RegexOperator;
        
        // Basic pattern matching
        let regex_op = op.create_operation(&j(r#""^test""#), &Value::Null).unwrap();
        
        assert!(regex_op.test(&j(r#""test123""#), None, None).unwrap());
        assert!(regex_op.test(&j(r#""testing""#), None, None).unwrap());
        assert!(!regex_op.test(&j(r#""abc test""#), None, None).unwrap());
        assert!(!regex_op.test(&j(r#""TEST""#), None, None).unwrap()); // case sensitive
        
        // Case insensitive pattern
        let case_insensitive = op.create_operation(&j(r#""(?i)hello""#), &Value::Null).unwrap();
        
        assert!(case_insensitive.test(&j(r#""hello""#), None, None).unwrap());
        assert!(case_insensitive.test(&j(r#""Hello""#), None, None).unwrap());
        assert!(case_insensitive.test(&j(r#""HELLO""#), None, None).unwrap());
        assert!(case_insensitive.test(&j(r#""say hello world""#), None, None).unwrap());
        assert!(!case_insensitive.test(&j(r#""hi there""#), None, None).unwrap());
        
        // Number pattern
        let number_pattern = op.create_operation(&Value::String(r"^\d+$".to_string()), &Value::Null).unwrap();
        
        assert!(number_pattern.test(&j(r#""123""#), None, None).unwrap());
        assert!(number_pattern.test(&j(r#""0""#), None, None).unwrap());
        assert!(!number_pattern.test(&j(r#""12.3""#), None, None).unwrap());
        assert!(!number_pattern.test(&j(r#""abc123""#), None, None).unwrap());
        
        // Non-string values should return false
        assert!(!regex_op.test(&j(r#"123"#), None, None).unwrap());
        assert!(!regex_op.test(&j(r#"true"#), None, None).unwrap());
        assert!(!regex_op.test(&j(r#"null"#), None, None).unwrap());
        assert!(!regex_op.test(&j(r#"[]"#), None, None).unwrap());
        assert!(!regex_op.test(&j(r#"{}"#), None, None).unwrap());
    }


#[test]
fn test_regex_operation_invalid_params() {
        let op = RegexOperator;
        
        // Invalid regex pattern
        let result = op.create_operation(&j(r#""[""#), &Value::Null);
        assert!(result.is_err());
        
        // Non-string parameter
        let result = op.create_operation(&j(r#"123"#), &Value::Null);
        assert!(result.is_err());
        
        let result = op.create_operation(&j(r#"true"#), &Value::Null);
        assert!(result.is_err());
    }


#[test]
fn test_mod_operation_invalid_params() {
        let op = ModOperator;
        
        // Not an array
        let result = op.create_operation(&j(r#""not an array""#), &Value::Null);
        assert!(result.is_err());
        
        // Wrong array length
        let result = op.create_operation(&j(r#"[4]"#), &Value::Null);
        assert!(result.is_err());
        
        let result = op.create_operation(&j(r#"[4, 2, 1]"#), &Value::Null);
        assert!(result.is_err());
        
        // Non-numeric values in array
        let result = op.create_operation(&j(r#"["4", 2]"#), &Value::Null);
        assert!(result.is_err());
        
        let result = op.create_operation(&j(r#"[4, "2"]"#), &Value::Null);
        assert!(result.is_err());
        
        // Zero divisor
        let result = op.create_operation(&j(r#"[0, 1]"#), &Value::Null);
        assert!(result.is_err());
    }


#[test]
fn test_type_operation() {
        let op = TypeOperator;
        
        // Test string type
        let string_type = op.create_operation(&j(r#""string""#), &Value::Null).unwrap();
        
        assert!(string_type.test(&j(r#""hello""#), None, None).unwrap());
        assert!(string_type.test(&j(r#""""#), None, None).unwrap());
        assert!(!string_type.test(&j(r#"123"#), None, None).unwrap());
        assert!(!string_type.test(&j(r#"true"#), None, None).unwrap());
        
        // Test number types
        let double_type = op.create_operation(&j(r#""double""#), &Value::Null).unwrap();
        let int_type = op.create_operation(&j(r#""int""#), &Value::Null).unwrap();
        let long_type = op.create_operation(&j(r#""long""#), &Value::Null).unwrap();
        
        assert!(double_type.test(&j(r#"3.14"#), None, None).unwrap());
        assert!(int_type.test(&j(r#"42"#), None, None).unwrap() || long_type.test(&j(r#"42"#), None, None).unwrap()); // depends on serde_json representation
        assert!(!double_type.test(&j(r#""3.14""#), None, None).unwrap());
        
        // Test boolean type
        let bool_type = op.create_operation(&j(r#""bool""#), &Value::Null).unwrap();
        
        assert!(bool_type.test(&j(r#"true"#), None, None).unwrap());
        assert!(bool_type.test(&j(r#"false"#), None, None).unwrap());
        assert!(!bool_type.test(&j(r#"1"#), None, None).unwrap());
        assert!(!bool_type.test(&j(r#"0"#), None, None).unwrap());
        
        // Test null type
        let null_type = op.create_operation(&j(r#""null""#), &Value::Null).unwrap();
        
        assert!(null_type.test(&j(r#"null"#), None, None).unwrap());
        assert!(!null_type.test(&j(r#"0"#), None, None).unwrap());
        assert!(!null_type.test(&j(r#""""#), None, None).unwrap());
        assert!(!null_type.test(&j(r#"false"#), None, None).unwrap());
        
        // Test array type
        let array_type = op.create_operation(&j(r#""array""#), &Value::Null).unwrap();
        
        assert!(array_type.test(&j(r#"[]"#), None, None).unwrap());
        assert!(array_type.test(&j(r#"[1, 2, 3]"#), None, None).unwrap());
        assert!(!array_type.test(&j(r#"{}"#), None, None).unwrap());
        assert!(!array_type.test(&j(r#""[]""#), None, None).unwrap());
        
        // Test object type
        let object_type = op.create_operation(&j(r#""object""#), &Value::Null).unwrap();
        
        assert!(object_type.test(&j(r#"{}"#), None, None).unwrap());
        assert!(object_type.test(&j(r#"{"key": "value"}"#), None, None).unwrap());
        assert!(!object_type.test(&j(r#"[]"#), None, None).unwrap());
        assert!(!object_type.test(&j(r#""{}""#), None, None).unwrap());
    }


#[test]
fn test_type_operation_bson_numbers() {
        let op = TypeOperator;
        
        // Test BSON type numbers
        let double_type = op.create_operation(&j(r#"1"#), &Value::Null).unwrap(); // 1 = double
        let string_type = op.create_operation(&j(r#"2"#), &Value::Null).unwrap(); // 2 = string
        let object_type = op.create_operation(&j(r#"3"#), &Value::Null).unwrap(); // 3 = object
        let array_type = op.create_operation(&j(r#"4"#), &Value::Null).unwrap();  // 4 = array
        let bool_type = op.create_operation(&j(r#"8"#), &Value::Null).unwrap();   // 8 = bool
        let null_type = op.create_operation(&j(r#"10"#), &Value::Null).unwrap();  // 10 = null
        let int_type = op.create_operation(&j(r#"16"#), &Value::Null).unwrap();   // 16 = int
        let long_type = op.create_operation(&j(r#"18"#), &Value::Null).unwrap();  // 18 = long
        
        assert!(double_type.test(&j(r#"3.14"#), None, None).unwrap());
        assert!(string_type.test(&j(r#""hello""#), None, None).unwrap());
        assert!(object_type.test(&j(r#"{}"#), None, None).unwrap());
        assert!(array_type.test(&j(r#"[]"#), None, None).unwrap());
        assert!(bool_type.test(&j(r#"true"#), None, None).unwrap());
        assert!(null_type.test(&j(r#"null"#), None, None).unwrap());
        assert!(int_type.test(&j(r#"42"#), None, None).unwrap() || long_type.test(&j(r#"42"#), None, None).unwrap());
    }


#[test]
fn test_type_operation_invalid_params() {
        let op = TypeOperator;
        
        // Invalid type name
        let result = op.create_operation(&j(r#""invalid_type""#), &Value::Null);
        assert!(result.is_ok()); // This should actually be ok, it just won't match anything
        
        // Invalid BSON type number
        let result = op.create_operation(&j(r#"999"#), &Value::Null);
        assert!(result.is_err());
        
        // Non-string, non-number parameter
        let result = op.create_operation(&j(r#"true"#), &Value::Null);
        assert!(result.is_err());
        
        let result = op.create_operation(&j(r#"[]"#), &Value::Null);
        assert!(result.is_err());
    }
