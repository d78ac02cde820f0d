#![allow(unused_imports)]

use sift_rs::compare::compare_numbers;
use sift_rs::utils::{get_length, get_nested_value, is_truthy, same_type};
use sift_rs::value::values_equal;
use sift_rs::{
    create_filter, sift, AllOperator, AndOperator, ElemMatchOperator, EqOperator, ExistsOperator, GtOperator,
    GteOperator, InOperator, LtOperator, LteOperator, ModOperator, NeOperator, NinOperator, NorOperator,
    NotOperator, Number, OrOperator, Query, RegexOperator, SizeOperator, TypeOperator, Value,
};


fn decimal(text: &str) -> Number {
    let (mant, exp) = match text.find(|c| c == 'e' || c == 'E') {
        Some(i) => (&text[..i], text[i + 1..].parse::<i32>().unwrap()),
        None => (text, 0),
    };
    let (neg, mant) = match mant.strip_prefix('-') {
        Some(rest) => (true, rest),
        None => (false, mant),
    };
    let (int_part, frac_part) = match mant.find('.') {
        Some(i) => (&mant[..i], &mant[i + 1..]),
        None => (mant, ""),
    };
    let digits: i128 = format!("{}{}", int_part, frac_part).parse().unwrap();
    let shift = 18 - frac_part.len() as i32 + exp;
    let mut scaled = digits;
    if shift >= 0 {
        for _ in 0..shift {
            scaled *= 10;
        }
    } else {
        for _ in 0..(-shift) {
            scaled /= 10;
        }
    }
    Number { scaled: if neg { -scaled } else { scaled }, is_float: true }
}

fn from_json(v: &serde_json::Value) -> Value {
    match v {
        serde_json::Value::Null => Value::Null,
        serde_json::Value::Bool(b) => Value::Bool(*b),
        serde_json::Value::Number(n) => {
            if let Some(i) = n.as_i64() {
                Value::Number(Number::from_i64(i))
            } else if let Some(u) = n.as_u64() {
                Value::Number(Number::from_u64(u))
            } else {
                Value::Number(decimal(&n.to_string()))
            }
        }
        serde_json::Value::String(s) => Value::String(s.clone()),
        serde_json::Value::Array(a) => Value::Array(a.iter().map(from_json).collect()),
        serde_json::Value::Object(o) => {
            Value::Object(o.iter().map(|(k, x)| (k.clone(), from_json(x))).collect())
        }
    }
}

/// A value written as JSON text.
fn j(text: &str) -> Value {
    from_json(&serde_json::from_str(text).unwrap())
}


#[test]
fn test_date_greater_than() {
        let query = j(r#"{
            "date": { "$gt": "2023-01-01T00:00:00Z" }
        }"#);
        
        let data1 = j(r#"{
            "date": "2023-06-15T12:30:00Z"
        }"#);
        
        let data2 = j(r#"{
            "date": "2022-12-31T23:59:59Z"
        }"#);
        
        assert!(sift(&query, &data1).unwrap());
        assert!(!sift(&query, &data2).unwrap());
    }


#[test]
fn test_date_greater_than_or_equal() {
        let query = j(r#"{
            "date": { "$gte": "2023-01-01T00:00:00Z" }
        }"#);
        
        let data1 = j(r#"{
            "date": "2023-01-01T00:00:00Z"
        }"#);
        
        let data2 = j(r#"{
            "date": "2023-06-15T12:30:00Z"
        }"#);
        
        let data3 = j(r#"{
            "date": "2022-12-31T23:59:59Z"
        }"#);
        
        assert!(sift(&query, &data1).unwrap());
        assert!(sift(&query, &data2).unwrap());
        assert!(!sift(&query, &data3).unwrap());
    }


#[test]
fn test_date_less_than() {
        let query = j(r#"{
            "date": { "$lt": "2023-06-01T00:00:00Z" }
        }"#);
        
        let data1 = j(r#"{
            "date": "2023-01-15T10:30:00Z"
        }"#);
        
        let data2 = j(r#"{
            "date": "2023-07-01T12:00:00Z"
        }"#);
        
        assert!(sift(&query, &data1).unwrap());
        assert!(!sift(&query, &data2).unwrap());
    }


#[test]
fn test_date_less_than_or_equal() {
        let query = j(r#"{
            "date": { "$lte": "2023-06-01T00:00:00Z" }
        }"#);
        
        let data1 = j(r#"{
            "date": "2023-06-01T00:00:00Z"
        }"#);
        
        let data2 = j(r#"{
            "date": "2023-01-15T10:30:00Z"
        }"#);
        
        let data3 = j(r#"{
            "date": "2023-07-01T12:00:00Z"
        }"#);
        
        assert!(sift(&query, &data1).unwrap());
        assert!(sift(&query, &data2).unwrap());
        assert!(!sift(&query, &data3).unwrap());
    }


#[test]
fn test_date_range_query() {
        let query = j(r#"{
            "date": {
                "$gte": "2023-01-01T00:00:00Z",
                "$lt": "2024-01-01T00:00:00Z"
            }
        }"#);
        
        let data1 = j(r#"{
            "date": "2023-06-15T12:30:00Z"
        }"#);
        
        let data2 = j(r#"{
            "date": "2022-12-31T23:59:59Z"
        }"#);
        
        let data3 = j(r#"{
            "date": "2024-01-01T00:00:00Z"
        }"#);
        
        assert!(sift(&query, &data1).unwrap());
        assert!(!sift(&query, &data2).unwrap());
        assert!(!sift(&query, &data3).unwrap());
    }


#[test]
fn test_mixed_numeric_and_date_comparisons() {
        // Test that numeric comparisons still work
        let numeric_query = j(r#"{
            "value": { "$gt": 10 }
        }"#);
        
        let numeric_data = j(r#"{
            "value": 15
        }"#);
        
        assert!(sift(&numeric_query, &numeric_data).unwrap());
        
        // Test date comparisons in the same test
        let date_query = j(r#"{
            "timestamp": { "$gt": "2023-01-01T00:00:00Z" }
        }"#);
        
        let date_data = j(r#"{
            "timestamp": "2023-06-15T12:30:00Z"
        }"#);
        
        assert!(sift(&date_query, &date_data).unwrap());
    }


#[test]
fn test_create_filter_with_dates() {
        let query = j(r#"{
            "created_at": { "$gte": "2023-01-01T00:00:00Z" }
        }"#);
        
        let filter = create_filter(&query).unwrap();
        
        let data = vec![
            j(r#"{ "created_at": "2023-06-15T12:30:00Z", "name": "record1" }"#),
            j(r#"{ "created_at": "2022-11-20T10:00:00Z", "name": "record2" }"#),
            j(r#"{ "created_at": "2023-03-10T08:45:00Z", "name": "record3" }"#),
        ];
        
        let results: Vec<_> = data.iter().filter(|&item| filter.test(item)).collect();
        
        assert_eq!(results.len(), 2);
        assert_eq!(get_nested_value(results[0], &"name".to_string()), Some(&j(r#""record1""#)));
        assert_eq!(get_nested_value(results[1], &"name".to_string()), Some(&j(r#""record3""#)));
    }


#[test]
fn test_invalid_date_fallback_to_string_comparison() {
        let query = j(r#"{
            "date": { "$gt": "not-a-date" }
        }"#);
        
        let data = j(r#"{
            "date": "z-string-that-comes-after"
        }"#);
        
        // Should fall back to string comparison
        assert!(sift(&query, &data).unwrap());
    }


#[test]
fn test_different_date_formats() {
        // Test various ISO8601 formats
        let queries_and_data = vec![
            // With timezone offset
            ("2023-01-01T00:00:00+00:00", "2023-06-15T12:30:00+00:00"),
            // With different timezone
            ("2023-01-01T00:00:00-05:00", "2023-06-15T12:30:00-05:00"),
            // Date only (should parse with default time)
            ("2023-01-01", "2023-06-15"),
        ];
        
        for (threshold, test_date) in queries_and_data {
            let query = j(&format!(r#"{{"date": {{"$gt": "{}"}}}}"#, threshold));
            
            let data = j(&format!(r#"{{"date": "{}"}}"#, test_date));
            
            assert!(sift(&query, &data).unwrap(), 
                "Failed for threshold: {} and test_date: {}", threshold, test_date);
        }
    }
