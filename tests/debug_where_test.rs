#![allow(unused_imports)]

use sift_rs::compare::compare_numbers;
use sift_rs::utils::{get_length, get_nested_value, is_truthy, same_type};
use sift_rs::value::values_equal;
use sift_rs::{
    create_filter, sift, AllOperator, AndOperator, ElemMatchOperator, EqOperator, ExistsOperator, GtOperator,
    GteOperator, InOperator, LtOperator, LteOperator, ModOperator, NeOperator, NinOperator, NorOperator,
    NotOperator, Number, OrOperator, Query, RegexOperator, SizeOperator, TypeOperator, Value,
};


fn decimal(text: &str) -> Number {
    let (mant, exp) = match text.find(|c| c == 'e' || c == 'E') {
        Some(i) => (&text[..i], text[i + 1..].parse::<i32>().unwrap()),
        None => (text, 0),
    };
    let (neg, mant) = match mant.strip_prefix('-') {
        Some(rest) => (true, rest),
        None => (false, mant),
    };
    let (int_part, frac_part) = match mant.find('.') {
        Some(i) => (&mant[..i], &mant[i + 1..]),
        None => (mant, ""),
    };
    let digits: i128 = format!("{}{}", int_part, frac_part).parse().unwrap();
    let shift = 18 - frac_part.len() as i32 + exp;
    let mut scaled = digits;
    if shift >= 0 {
        for _ in 0..shift {
            scaled *= 10;
        }
    } else {
        for _ in 0..(-shift) {
            scaled /= 10;
        }
    }
    Number { scaled: if neg { -scaled } else { scaled }, is_float: true }
}

fn from_json(v: &serde_json::Value) -> Value {
    match v {
        serde_json::Value::Null => Value::Null,
        serde_json::Value::Bool(b) => Value::Bool(*b),
        serde_json::Value::Number(n) => {
            if let Some(i) = n.as_i64() {
                Value::Number(Number::from_i64(i))
            } else if let Some(u) = n.as_u64() {
                Value::Number(Number::from_u64(u))
            } else {
                Value::Number(decimal(&n.to_string()))
            }
        }
        serde_json::Value::String(s) => Value::String(s.clone()),
        serde_json::Value::Array(a) => Value::Array(a.iter().map(from_json).collect()),
        serde_json::Value::Object(o) => {
            Value::Object(o.iter().map(|(k, x)| (k.clone(), from_json(x))).collect())
        }
    }
}

/// A value written as JSON text.
fn j(text: &str) -> Value {
    from_json(&serde_json::from_str(text).unwrap())
}


#[test]
fn debug_where_math_test() {
    let math_data = j(r#"{
        "product": {
            "base_price": 100,
            "tax_amount": 10,
            "final_price": 110
        }
    }"#);
    let math_query = j(r#"{
        "$where": "this.product.base_price + this.product.tax_amount === this.product.final_price"
    }"#);
    
    println!("Testing data: {:?}", math_data);
    println!("Testing query: {:?}", math_query);
    
    match sift(&math_query, &math_data) {
        Ok(result) => {
            println!("Sift result: {}", result);
            assert!(result);
        }
        Err(e) => {
            println!("Sift error: {}", e.message());
            panic!("Sift returned an error: {}", e.message());
        }
    }
}


#[test]
fn debug_simple_where_test() {
    let simple_data = j(r#"{"a": 10, "b": 5}"#);
    let simple_query = j(r#"{"$where": "this.a > this.b"}"#);
    
    println!("Simple test data: {:?}", simple_data);
    println!("Simple test query: {:?}", simple_query);
    
    match sift(&simple_query, &simple_data) {
        Ok(result) => {
            println!("Simple sift result: {}", result);
            assert!(result);
        }
        Err(e) => {
            println!("Simple sift error: {}", e.message());
            panic!("Simple sift returned an error: {}", e.message());
        }
    }
}
