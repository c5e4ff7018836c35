use cxdb::cql::{execute, parse, Expression, Operator, SecondaryIndexes, Value};
use cxdb::store::{ContextMetadata, Provenance};
use std::collections::HashSet;

fn meta(tag: &str, title: &str, user: &str, service: &str) -> ContextMetadata {
    ContextMetadata {
        client_tag: Some(tag.to_string()),
        title: Some(title.to_string()),
        labels: Some(vec![]),
        provenance: Some(Provenance {
            on_behalf_of: Some(user.to_string()),
            service_name: Some(service.to_string()),
            ..Default::default()
        }),
    }
}

fn create_test_indexes() -> SecondaryIndexes {
    let mut indexes = SecondaryIndexes::new();
    indexes.add_context(1, Some(&meta("amplifier", "Test context 1", "jay", "dotrunner")), 1000, 5);
    indexes.add_context(2, Some(&meta("amplifier", "Test context 2", "alex", "gen")), 2000, 3);
    indexes.add_context(3, Some(&meta("test", "Test context 3", "jay", "dotrunner")), 3000, 10);
    indexes.add_context(4, Some(&meta("core", "Test context 4", "sam", "generator")), 4000, 2);
    indexes.add_context(5, Some(&meta("amplifier-core", "Test context 5", "jay", "dot-test")), 5000, 7);
    indexes
}

#[test]
fn test_parse_simple_equality() {
    let query = parse(r#"tag = "amplifier""#).expect("should parse");
    assert_eq!(query.raw, r#"tag = "amplifier""#);
    match &query.ast {
        Expression::Comparison { field, operator, value } => {
            assert_eq!(field, "tag");
            assert!(matches!(operator, Operator::Eq));
            match value {
                Value::String { value: v } => assert_eq!(v, "amplifier"),
                _ => panic!("expected String value"),
            }
        }
        _ => panic!("expected Comparison"),
    }
}

#[test]
fn test_parse_and_expression() {
    let query = parse(r#"tag = "amplifier" AND user = "jay""#).expect("should parse");
    match &query.ast {
        Expression::And { left, right } => {
            assert!(matches!(left.as_ref(), Expression::Comparison { .. }));
            assert!(matches!(right.as_ref(), Expression::Comparison { .. }));
        }
        _ => panic!("expected And expression"),
    }
}

#[test]
fn test_parse_or_expression() {
    let query = parse(r#"service = "dotrunner" OR service = "gen""#).expect("should parse");
    match &query.ast {
        Expression::Or { left, right } => {
            assert!(matches!(left.as_ref(), Expression::Comparison { .. }));
            assert!(matches!(right.as_ref(), Expression::Comparison { .. }));
        }
        _ => panic!("expected Or expression"),
    }
}

#[test]
fn test_parse_not_expression() {
    let query = parse(r#"NOT tag = "test""#).expect("should parse");
    match &query.ast {
        Expression::Not { inner } => {
            assert!(matches!(inner.as_ref(), Expression::Comparison { .. }));
        }
        _ => panic!("expected Not expression"),
    }
}

#[test]
fn test_parse_parentheses() {
    let query = parse(r#"(service = "dotrunner" OR service = "gen") AND tag = "amplifier""#).expect("should parse");
    match &query.ast {
        Expression::And { left, right } => {
            assert!(matches!(left.as_ref(), Expression::Or { .. }));
            assert!(matches!(right.as_ref(), Expression::Comparison { .. }));
        }
        _ => panic!("expected And with Or on left"),
    }
}

#[test]
fn test_parse_prefix_operator() {
    let query = parse(r#"tag ^= "amp""#).expect("should parse");
    match &query.ast {
        Expression::Comparison { operator, .. } => assert!(matches!(operator, Operator::Starts)),
        _ => panic!("expected Comparison"),
    }
}

#[test]
fn test_parse_case_insensitive_operator() {
    let query = parse(r#"user ~= "Jay""#).expect("should parse");
    match &query.ast {
        Expression::Comparison { operator, .. } => assert!(matches!(operator, Operator::EqCi)),
        _ => panic!("expected Comparison"),
    }
}

#[test]
fn test_parse_in_operator() {
    let query = parse(r#"tag IN ("a", "b", "c")"#).expect("should parse");
    match &query.ast {
        Expression::Comparison { operator, value, .. } => {
            assert!(matches!(operator, Operator::In));
            match value {
                Value::List { values } => assert_eq!(values.len(), 3),
                _ => panic!("expected List value"),
            }
        }
        _ => panic!("expected Comparison"),
    }
}

#[test]
fn test_parse_numeric_value() {
    let query = parse("id = 12345").expect("should parse");
    match &query.ast {
        Expression::Comparison { value, .. } => match value {
            Value::Number { .. } => assert_eq!(value.as_u64(), Some(12345)),
            _ => panic!("expected Number value"),
        },
        _ => panic!("expected Comparison"),
    }
}

#[test]
fn test_parse_error_missing_value() {
    assert!(parse("tag = ").is_err());
}

#[test]
fn test_parse_error_unknown_field() {
    assert!(parse(r#"unknown_field = "value""#).is_err());
}

#[test]
fn test_parse_error_unclosed_paren() {
    assert!(parse(r#"(tag = "test""#).is_err());
}

#[test]
fn test_execute_exact_match() {
    let indexes = create_test_indexes();
    let live_contexts = HashSet::new();
    let query = parse(r#"tag = "amplifier""#).unwrap();
    let result = execute(&query.ast, &indexes, &live_contexts).unwrap();
    assert_eq!(result.len(), 2);
    assert!(result.contains(&1));
    assert!(result.contains(&2));
}

#[test]
fn test_execute_and_query() {
    let indexes = create_test_indexes();
    let live_contexts = HashSet::new();
    let query = parse(r#"tag = "amplifier" AND user = "jay""#).unwrap();
    let result = execute(&query.ast, &indexes, &live_contexts).unwrap();
    assert_eq!(result.len(), 1);
    assert!(result.contains(&1));
}

#[test]
fn test_execute_or_query() {
    let indexes = create_test_indexes();
    let live_contexts = HashSet::new();
    let query = parse(r#"service = "dotrunner" OR service = "gen""#).unwrap();
    let result = execute(&query.ast, &indexes, &live_contexts).unwrap();
    assert_eq!(result.len(), 3);
    assert!(result.contains(&1));
    assert!(result.contains(&2));
    assert!(result.contains(&3));
}

#[test]
fn test_execute_not_query() {
    let indexes = create_test_indexes();
    let live_contexts = HashSet::new();
    let query = parse(r#"NOT tag = "test""#).unwrap();
    let result = execute(&query.ast, &indexes, &live_contexts).unwrap();
    assert!(!result.contains(&3));
    assert!(result.contains(&1));
    assert!(result.contains(&2));
    assert!(result.contains(&4));
    assert!(result.contains(&5));
}

#[test]
fn test_execute_prefix_query() {
    let indexes = create_test_indexes();
    let live_contexts = HashSet::new();
    let query = parse(r#"tag ^= "amp""#).unwrap();
    let result = execute(&query.ast, &indexes, &live_contexts).unwrap();
    assert_eq!(result.len(), 3);
    assert!(result.contains(&1));
    assert!(result.contains(&2));
    assert!(result.contains(&5));
}

#[test]
fn test_execute_case_insensitive_query() {
    let indexes = create_test_indexes();
    let live_contexts = HashSet::new();
    let query = parse(r#"user ~= "JAY""#).unwrap();
    let result = execute(&query.ast, &indexes, &live_contexts).unwrap();
    assert_eq!(result.len(), 3);
    assert!(result.contains(&1));
    assert!(result.contains(&3));
    assert!(result.contains(&5));
}

#[test]
fn test_execute_in_query() {
    let indexes = create_test_indexes();
    let live_contexts = HashSet::new();
    let query = parse(r#"tag IN ("amplifier", "core")"#).unwrap();
    let result = execute(&query.ast, &indexes, &live_contexts).unwrap();
    assert_eq!(result.len(), 3);
    assert!(result.contains(&1));
    assert!(result.contains(&2));
    assert!(result.contains(&4));
}

#[test]
fn test_execute_complex_query() {
    let indexes = create_test_indexes();
    let live_contexts = HashSet::new();
    let query = parse(r#"(tag = "amplifier" OR tag = "core") AND user = "jay""#).unwrap();
    let result = execute(&query.ast, &indexes, &live_contexts).unwrap();
    assert_eq!(result.len(), 1);
    assert!(result.contains(&1));
}

#[test]
fn test_execute_empty_result() {
    let indexes = create_test_indexes();
    let live_contexts = HashSet::new();
    let query = parse(r#"tag = "nonexistent""#).unwrap();
    let result = execute(&query.ast, &indexes, &live_contexts).unwrap();
    assert!(result.is_empty());
}

#[test]
fn test_execute_is_live() {
    let indexes = create_test_indexes();
    let mut live_contexts = HashSet::new();
    live_contexts.insert(1u64);
    live_contexts.insert(3u64);
    let query = parse("is_live = true").unwrap();
    let result = execute(&query.ast, &indexes, &live_contexts).unwrap();
    assert_eq!(result.len(), 2);
    assert!(result.contains(&1));
    assert!(result.contains(&3));
}

#[test]
fn test_execute_depth_range() {
    let indexes = create_test_indexes();
    let live_contexts = HashSet::new();
    let query = parse("depth >= 5").unwrap();
    let result = execute(&query.ast, &indexes, &live_contexts).unwrap();
    assert_eq!(result.len(), 3);
    assert!(result.contains(&1));
    assert!(result.contains(&3));
    assert!(result.contains(&5));
}

#[test]
fn test_index_exact_lookup() {
    let indexes = create_test_indexes();
    let results = indexes.lookup_tag_exact("amplifier");
    assert_eq!(results.len(), 2);
    assert!(results.contains(&1));
    assert!(results.contains(&2));
}

#[test]
fn test_index_prefix_lookup() {
    let indexes = create_test_indexes();
    let results = indexes.lookup_service_prefix("dot");
    assert_eq!(results.len(), 3);
}

#[test]
fn test_index_case_insensitive_lookup() {
    let indexes = create_test_indexes();
    let results = indexes.lookup_user_exact_ci("JAY");
    assert_eq!(results.len(), 3);
}

#[test]
fn test_index_all_context_ids() {
    let indexes = create_test_indexes();
    assert_eq!(indexes.all_contexts().len(), 5);
}
