#![allow(unused_imports)]
use sift_rs::compare::compare_values;
use sift_rs::utils::{get_nested_value, value_to_string};
use sift_rs::{create_filter, sift, ErrorKind, Number, Query, Value, ModOperator, RegexOperator, TypeOperator};
use std::cmp::Ordering;

fn decimal(text: &str) -> Number {
    let (mant, exp) = match text.find(|c| c == 'e' || c == 'E') {
        Some(i) => (&text[..i], text[i + 1..].parse::<i32>().unwrap()),
        None => (text, 0),
    };
    let (neg, mant) = match mant.strip_prefix('-') {
        Some(rest) => (true, rest),
        None => (false, mant),
    };
    let (int_part, frac_part) = match mant.find('.') {
        Some(i) => (&mant[..i], &mant[i + 1..]),
        None => (mant, ""),
    };
    let digits: i128 = format!("{}{}", int_part, frac_part).parse().unwrap();
    let shift = 18 - frac_part.len() as i32 + exp;
    let mut scaled = digits;
    if shift >= 0 {
        for _ in 0..shift {
            scaled *= 10;
        }
    } else {
        for _ in 0..(-shift) {
            scaled /= 10;
        }
    }
    Number { scaled: if neg { -scaled } else { scaled }, is_float: true }
}

fn from_json(v: &serde_json::Value) -> Value {
    match v {
        serde_json::Value::Null => Value::Null,
        serde_json::Value::Bool(b) => Value::Bool(*b),
        serde_json::Value::Number(n) => {
            if let Some(i) = n.as_i64() {
                Value::Number(Number::from_i64(i))
            } else if let Some(u) = n.as_u64() {
                Value::Number(Number::from_u64(u))
            } else {
                Value::Number(decimal(&n.to_string()))
            }
        }
        serde_json::Value::String(s) => Value::String(s.clone()),
        serde_json::Value::Array(a) => Value::Array(a.iter().map(from_json).collect()),
        serde_json::Value::Object(o) => {
            Value::Object(o.iter().map(|(k, x)| (k.clone(), from_json(x))).collect())
        }
    }
}

/// A value written as JSON text.
fn j(text: &str) -> Value {
    from_json(&serde_json::from_str(text).unwrap())
}



fn kind_of(q: &str, d: &str) -> Option<ErrorKind> {
    match sift(&j(q), &j(d)) {
        Ok(_) => None,
        Err(e) => Some(e.kind()),
    }
}

fn matches(q: &str, d: &str) -> bool {
    sift(&j(q), &j(d)).unwrap()
}

#[test]
fn scenario_age_gte() {
    assert!(matches(r#"{"age":{"$gte":30}}"#, r#"{"name":"Alice","age":30}"#));
}

#[test]
fn scenario_nested_salary() {
    assert!(matches(r#"{"user.profile.salary":{"$gt":80000}}"#, r#"{"user":{"profile":{"salary":85000}}}"#));
}

#[test]
fn scenario_all_tags() {
    let q = r#"{"tags":{"$all":["rust","leadership"]}}"#;
    assert!(matches(q, r#"{"tags":["rust","python","leadership"]}"#));
    assert!(!matches(q, r#"{"tags":["rust","python"]}"#));
}

#[test]
fn scenario_and_or_cooccurrence() {
    let q = r#"{"$and":[{"x":1}],"$or":[{"y":2}]}"#;
    assert!(matches(q, r#"{"x":9,"y":2}"#));
    assert!(matches(q, r#"{"x":1,"y":9}"#));
    assert!(!matches(q, r#"{"x":9,"y":9}"#));
}

#[test]
fn scenario_elem_match_reviews() {
    let q = r#"{"reviews":{"$elemMatch":{"rating":{"$gte":4},"verified":true}}}"#;
    let d = r#"{"reviews":[{"rating":5,"verified":false},{"rating":3,"verified":true}]}"#;
    assert!(!matches(q, d));
    assert!(matches(q, r#"{"reviews":[{"rating":4,"verified":true}]}"#));
}

#[test]
fn scenario_dates() {
    let q = r#"{"date":{"$gt":"2023-01-01T00:00:00Z"}}"#;
    assert!(matches(q, r#"{"date":"2023-06-15T12:30:00Z"}"#));
    assert!(!matches(q, r#"{"date":"2022-12-31T23:59:59Z"}"#));
}

#[test]
fn scenario_where_expression() {
    let q = r#"{"$where":"this.items.length === this.count"}"#;
    assert!(matches(q, r#"{"items":["a","b","c","d"],"count":4}"#));
    assert!(!matches(q, r#"{"items":["a"],"count":4}"#));
}

#[test]
fn where_failures_are_evaluation_errors() {
    assert_eq!(kind_of(r#"{"$where":"this.a.b.c"}"#, r#"{}"#), Some(ErrorKind::EvaluationError));
    assert_eq!(kind_of(r#"{"$where":5}"#, r#"{}"#), Some(ErrorKind::InvalidQuery));
    assert!(matches(r#"{"$where":"this.s === 'a\"b' && this.f === 1.5"}"#, r#"{"s":"a\"b","f":1.5}"#));
}

#[test]
fn mod_keeps_the_dividend_sign() {
    let op = ModOperator.create_operation(&j(r#"[3, -2]"#), &Value::Null).unwrap();
    assert!(op.test(&j(r#"-2"#), None, None).unwrap());
    assert!(op.test(&j(r#"-5"#), None, None).unwrap());
    let pos = ModOperator.create_operation(&j(r#"[4, 2]"#), &Value::Null).unwrap();
    for (x, want) in [(6, true), (10, true), (2, true), (5, false), (8, false), (3, false)] {
        assert_eq!(pos.test(&j(&x.to_string()), None, None).unwrap(), want);
    }
    let one = ModOperator.create_operation(&j(r#"[3, 1]"#), &Value::Null).unwrap();
    assert!(!one.test(&j(r#"-2"#), None, None).unwrap());
    let float_mod = ModOperator.create_operation(&j(r#"[2.5, 1.5]"#), &Value::Null).unwrap();
    assert!(float_mod.test(&j(r#"4.0"#), None, None).unwrap());
    assert!(!float_mod.test(&j(r#"5.0"#), None, None).unwrap());
}

#[test]
fn dotted_absent_and_null_fields() {
    assert!(matches(r#"{"a.b":null}"#, r#"{}"#));
    assert!(matches(r#"{"a.b":{"$exists":false}}"#, r#"{}"#));
    assert!(!matches(r#"{"a.b":{"$exists":true}}"#, r#"{}"#));
    assert!(!matches(r#"{"a.b":{"$gt":0}}"#, r#"{}"#));
    assert!(matches(r#"{"a.b":{"$exists":true}}"#, r#"{"a":{"b":null}}"#));
    assert!(matches(r#"{"a.b":null}"#, r#"{"a":{"b":null}}"#));
    assert!(matches(r#"{"a.1":{"$exists":true}}"#, r#"{"a":[0,null]}"#));
}

#[test]
fn empty_query_matches_everything() {
    for d in [r#"{}"#, r#"{"a":1}"#, r#"[1,2]"#, r#"null"#] {
        assert!(matches(r#"{}"#, d));
    }
}

#[test]
fn literal_field_round() {
    assert!(matches(r#"{"f":5}"#, r#"{"f":5}"#));
    assert!(matches(r#"{"f":{"a":[1,2]}}"#, r#"{"f":{"a":[1,2]}}"#));
    assert!(!matches(r#"{"f":5}"#, r#"{}"#));
    assert!(matches(r#"{"f":null}"#, r#"{}"#));
}

#[test]
fn nor_and_not_negate() {
    let docs = [r#"{"a":1}"#, r#"{"a":2}"#, r#"{}"#];
    for d in docs {
        let inner = matches(r#"{"a":1}"#, d);
        assert_eq!(matches(r#"{"$nor":[{"a":1}]}"#, d), !inner);
        let or_inner = matches(r#"{"$or":[{"a":1}]}"#, d);
        assert_eq!(matches(r#"{"$not":{"$or":[{"a":1}]}}"#, d), !or_inner);
        let two = matches(r#"{"a":1,"b":{"$exists":false}}"#, d);
        assert_eq!(matches(r#"{"$not":{"a":1,"b":{"$exists":false}}}"#, d), !two);
    }
}

#[test]
fn empty_logical_operators() {
    assert!(matches(r#"{"$and":[]}"#, r#"{"x":1}"#));
    assert!(!matches(r#"{"$or":[]}"#, r#"{"x":1}"#));
    assert!(matches(r#"{"$nor":[]}"#, r#"{"x":1}"#));
}

#[test]
fn compiled_query_is_pure() {
    let f = create_filter(&j(r#"{"n":{"$mod":[3,1]}}"#)).unwrap();
    let docs: Vec<Value> = (0..10).map(|i| j(&format!(r#"{{"n":{}}}"#, i))).collect();
    let first: Vec<bool> = docs.iter().map(|d| f.test(d)).collect();
    let second: Vec<bool> = docs.iter().rev().map(|d| f.test(d)).collect::<Vec<_>>().into_iter().rev().collect();
    assert_eq!(first, second);
    assert_eq!(first, vec![false, true, false, false, true, false, false, true, false, false]);
}

#[test]
fn absent_field_behaviour() {
    let d = r#"{"other":1}"#;
    assert!(matches(r#"{"f":{"$exists":false}}"#, d));
    assert!(!matches(r#"{"f":{"$exists":true}}"#, d));
    assert!(!matches(r#"{"f":{"$gt":0}}"#, d));
    assert!(!matches(r#"{"f":{"$lte":0}}"#, d));
    assert!(matches(r#"{"f":{"$eq":null}}"#, d));
}

#[test]
fn present_null_behaviour() {
    let d = r#"{"f":null}"#;
    assert!(matches(r#"{"f":{"$exists":true}}"#, d));
    assert!(matches(r#"{"f":{"$eq":null}}"#, d));
}

#[test]
fn int_and_float_are_equal() {
    assert!(matches(r#"{"x":{"$eq":1}}"#, r#"{"x":1.0}"#));
    assert!(matches(r#"{"x":1.0}"#, r#"{"x":1}"#));
}

#[test]
fn regex_on_non_string_is_false() {
    assert!(!matches(r#"{"x":{"$regex":"1"}}"#, r#"{"x":1}"#));
    assert!(!matches(r#"{"x":{"$regex":"."}}"#, r#"{"x":null}"#));
}

#[test]
fn in_with_array_field() {
    assert!(matches(r#"{"t":{"$in":["b","z"]}}"#, r#"{"t":["a","b"]}"#));
    assert!(!matches(r#"{"t":{"$in":["y","z"]}}"#, r#"{"t":["a","b"]}"#));
}

#[test]
fn errors_by_kind() {
    assert_eq!(kind_of(r#"{"x":{"$foo":1}}"#, r#"{}"#), Some(ErrorKind::UnsupportedOperation));
    assert_eq!(kind_of(r#"{"x":{"$in":5}}"#, r#"{}"#), Some(ErrorKind::InvalidQuery));
    assert_eq!(kind_of(r#"{"x":{"$mod":[0,1]}}"#, r#"{}"#), Some(ErrorKind::InvalidQuery));
    assert_eq!(kind_of(r#"{"x":{"$regex":"("}}"#, r#"{}"#), Some(ErrorKind::InvalidQuery));
    assert_eq!(kind_of(r#"{"x":{"$type":99}}"#, r#"{}"#), Some(ErrorKind::InvalidQuery));
    assert_eq!(kind_of(r#"{"x":{"$exists":1}}"#, r#"{}"#), Some(ErrorKind::InvalidQuery));
    assert_eq!(kind_of(r#"{"$and":{"x":1}}"#, r#"{}"#), Some(ErrorKind::InvalidQuery));
}

#[test]
fn error_message_names_the_kind() {
    let e = sift(&j(r#"{"x":{"$foo":1}}"#), &j(r#"{}"#)).unwrap_err();
    assert_eq!(e.message(), "Unsupported operation: Unknown operator: $foo");
}

#[test]
fn timestamps_compare_as_instants() {
    // Later as text, earlier as an instant: 19:00 UTC against 20:00 UTC.
    let q = r#"{"d":{"$gt":"2022-12-31T20:00:00Z"}}"#;
    assert!(!matches(q, r#"{"d":"2023-01-01T00:00:00+05:00"}"#));
    let a = j(r#""2023-01-01T00:00:00+05:00""#);
    let b = j(r#""2022-12-31T20:00:00Z""#);
    assert_eq!(compare_values(&a, &b), Some(Ordering::Less));
    let c = j(r#""apple""#);
    let d = j(r#""banana""#);
    assert_eq!(compare_values(&c, &d), Some(Ordering::Less));
}

#[test]
fn regex_matches_through_the_engine() {
    let op = RegexOperator.create_operation(&j(r#""^ab+c$""#), &Value::Null).unwrap();
    assert!(op.test(&j(r#""abbbc""#), None, None).unwrap());
    assert!(!op.test(&j(r#""abd""#), None, None).unwrap());
}

#[test]
fn mod_remainder_of_negative_values() {
    let op = ModOperator.create_operation(&j(r#"[3, 1]"#), &Value::Null).unwrap();
    assert!(!op.test(&j(r#"-2"#), None, None).unwrap());
    assert!(op.test(&j(r#"7"#), None, None).unwrap());
    assert!(op.test(&j(r#"-1"#), None, None).is_ok());
}

#[test]
fn type_families() {
    let double = TypeOperator.create_operation(&j(r#""double""#), &Value::Null).unwrap();
    assert!(double.test(&j(r#"1.5"#), None, None).unwrap());
    assert!(!double.test(&j(r#"2"#), None, None).unwrap());
    let unknown = TypeOperator.create_operation(&j(r#""banana""#), &Value::Null).unwrap();
    assert!(!unknown.test(&j(r#"1"#), None, None).unwrap());
}

#[test]
fn decimal_numbers_are_exact() {
    let n = Number::from_decimal(314, 2);
    assert_eq!(n.scaled, 3_140_000_000_000_000_000);
    assert!(n.is_float);
    assert_eq!(Number::from_i64(-3).scaled, -3_000_000_000_000_000_000);
}

#[test]
fn parse_keeps_condition_order() {
    let q = Query::from_value(&j(r#"{"b":1,"a":{"$gt":1},"c":{"x":1,"$lt":3}}"#)).unwrap();
    assert_eq!(q.len(), 3);
    let again = Query::from_value(&j(r#"{"b":1,"a":{"$gt":1},"c":{"x":1,"$lt":3}}"#)).unwrap();
    assert_eq!(again.len(), q.len());
}

#[test]
fn size_counts_bytes_of_strings() {
    assert!(matches(r#"{"s":{"$size":3}}"#, r#"{"s":"abc"}"#));
    assert!(matches(r#"{"s":{"$size":2}}"#, r#"{"s":"é"}"#));
    assert!(matches(r#"{"s":{"$size":2}}"#, r#"{"s":[1,[2,3]]}"#));
}

#[test]
fn dotted_path_descends_into_arrays() {
    assert!(matches(r#"{"a.b":2}"#, r#"{"a":[{"b":1},{"b":2}]}"#));
    assert!(matches(r#"{"a.1.b":2}"#, r#"{"a":[{"b":1},{"b":2}]}"#));
    assert!(!matches(r#"{"a.0.b":2}"#, r#"{"a":[{"b":1},{"b":2}]}"#));
    let v = j(r#"{"a":[10,20]}"#);
    assert_eq!(get_nested_value(&v, &"a.1".to_string()), Some(&j(r#"20"#)));
}

#[test]
fn printed_query_reparses_alike() {
    let queries = [
        r#"{"$and":[{"x":1}],"$or":[{"y":2}],"z":{"$exists":false}}"#,
        r#"{"a":{"$gt":1,"b":2},"c":[1,2],"d":{"e":1}}"#,
        r#"5"#,
        r#"{"$not":{"$or":[{"a":1}]},"tags":{"$size":2}}"#,
    ];
    let docs = [r#"{"x":1,"y":9}"#, r#"{"x":9,"y":2,"z":1}"#, r#"5"#, r#"{"a":{"b":2},"c":[1,2]}"#, r#"{"tags":[1,2]}"#];
    for q in queries {
        let parsed = Query::from_value(&j(q)).unwrap();
        let printed = parsed.to_value();
        let again = Query::from_value(&printed).unwrap();
        assert_eq!(again.len(), parsed.len());
        assert_eq!(again.to_value(), printed);
        for d in docs {
            let doc = j(d);
            assert_eq!(parsed.test(&doc).unwrap(), again.test(&doc).unwrap());
        }
    }
}

#[test]
fn registry_knows_every_operator() {
    let registry = sift_rs::OperatorRegistry::new();
    assert_eq!(registry.get("$elemMatch"), Some(sift_rs::OperatorKind::ElemMatch));
    assert_eq!(registry.get("$nor"), Some(sift_rs::OperatorKind::Nor));
    assert_eq!(registry.get("$text"), None);
    assert_eq!(sift_rs::EqOperator.name(), "$eq");
}

#[test]
fn regex_options_become_flags() {
    use_regex_options();
}

fn use_regex_options() {
    let v = j(r#""Hello""#);
    assert!(!sift_rs::ops::test_regex(&v, "^hello$", None).unwrap());
    assert!(sift_rs::ops::test_regex(&v, "^hello$", Some("i")).unwrap());
    assert!(!sift_rs::ops::test_regex(&j(r#"5"#), "5", Some("i")).unwrap());
    assert!(sift_rs::ops::test_regex(&v, "(", None).is_err());
}

#[test]
fn duplicate_keys_compare_by_first_entry() {
    let a = Value::Object(vec![
        ("k".to_string(), j(r#"1"#)),
        ("k".to_string(), j(r#"2"#)),
    ]);
    assert!(sift_rs::value::values_equal(&a, &a));
    assert!(sift_rs::value::values_equal(&a, &j(r#"{"k":1}"#)));
    assert!(!sift_rs::value::values_equal(&a, &j(r#"{"k":2}"#)));
}

#[test]
fn display_text_of_values() {
    assert_eq!(value_to_string(&j(r#"null"#)), "null");
    assert_eq!(value_to_string(&j(r#"true"#)), "true");
    assert_eq!(value_to_string(&j(r#"42"#)), "42");
    assert_eq!(value_to_string(&j(r#"-3.14"#)), "-3.14");
    assert_eq!(value_to_string(&j(r#""hi""#)), "hi");
    assert_eq!(value_to_string(&j(r#"[1]"#)), "[Array]");
    assert_eq!(value_to_string(&j(r#"{}"#)), "[Object]");
}

#[test]
fn unknown_operator_is_named() {
    let e = Query::from_value(&j(r#"{"a":{"$gt":1,"$bogus":2}}"#)).unwrap().compile().err().unwrap();
    assert_eq!(e.kind(), ErrorKind::UnsupportedOperation);
    assert_eq!(e.message(), "Unsupported operation: Unknown operator: $bogus");
}
