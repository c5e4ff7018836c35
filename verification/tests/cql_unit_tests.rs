use cxdb::cql::ast::CqlErrorType;
use cxdb::cql::dates::{parse_absolute_date, parse_relative_date, unix_time_ms};
use cxdb::cql::{parse, Expression, FieldName, Operator, Value};

#[test]
fn test_parse_relative_date() {
    let now = std::time::SystemTime::now()
        .duration_since(std::time::UNIX_EPOCH)
        .unwrap()
        .as_millis() as u64;

    let result = parse_relative_date("-24h", unix_time_ms()).unwrap();
    let expected = now - (24 * 60 * 60 * 1000);
    assert!((result as i64 - expected as i64).abs() < 1000);
}

#[test]
fn test_parse_absolute_date() {
    let result = parse_absolute_date("2024-01-15T00:00:00Z").unwrap();
    assert_eq!(result, 1705276800000);
}

#[test]
fn test_simple_eq() {
    let result = parse(r#"tag = "amplifier""#).unwrap();
    assert_eq!(result.raw, r#"tag = "amplifier""#);
    match result.ast {
        Expression::Comparison { field, operator, .. } => {
            assert_eq!(field, "tag");
            assert_eq!(operator, Operator::Eq);
        }
        _ => panic!("Expected comparison"),
    }
}

#[test]
fn test_and_expr() {
    let result = parse(r#"tag = "amplifier" AND user = "jay""#).unwrap();
    match result.ast {
        Expression::And { .. } => {}
        _ => panic!("Expected AND expression"),
    }
}

#[test]
fn test_or_expr() {
    let result = parse(r#"tag = "a" OR tag = "b""#).unwrap();
    match result.ast {
        Expression::Or { .. } => {}
        _ => panic!("Expected OR expression"),
    }
}

#[test]
fn test_not_expr() {
    let result = parse(r#"NOT tag = "test""#).unwrap();
    match result.ast {
        Expression::Not { .. } => {}
        _ => panic!("Expected NOT expression"),
    }
}

#[test]
fn test_in_operator() {
    let result = parse(r#"tag IN ("a", "b", "c")"#).unwrap();
    match result.ast {
        Expression::Comparison { operator, value, .. } => {
            assert_eq!(operator, Operator::In);
            match value {
                Value::List { values } => assert_eq!(values.len(), 3),
                _ => panic!("Expected list value"),
            }
        }
        _ => panic!("Expected comparison"),
    }
}

#[test]
fn test_parentheses() {
    let result = parse(r#"(tag = "a" OR tag = "b") AND user = "jay""#).unwrap();
    match result.ast {
        Expression::And { left, .. } => match *left {
            Expression::Or { .. } => {}
            _ => panic!("Expected OR in left side"),
        },
        _ => panic!("Expected AND expression"),
    }
}

#[test]
fn test_unknown_field() {
    let result = parse(r#"unknown = "value""#);
    assert!(result.is_err());
    let err = result.unwrap_err();
    assert!(matches!(err.error_type, CqlErrorType::UnknownField));
}

#[test]
fn test_relative_date() {
    let result = parse(r#"created > "-24h""#).unwrap();
    match result.ast {
        Expression::Comparison { value, .. } => match value {
            Value::Date { relative, .. } => assert!(relative),
            _ => panic!("Expected date value"),
        },
        _ => panic!("Expected comparison"),
    }
}

#[test]
fn field_names_round_trip() {
    for f in FieldName::all() {
        assert_eq!(FieldName::from_str(f.as_str()), Some(f));
    }
    assert_eq!(FieldName::from_str("Tag"), None);
    assert_eq!(FieldName::from_str("trace_id"), Some(FieldName::TraceId));
}
