use qeos_core::api::{
    correlated_contexts, create_split, query, register_rule, QueryRequest, RuleRequest, SplitRequest,
    CONFIDENCE_BITS,
};
use qeos_core::correlation::Correlation;
use qeos_core::estimate::Estimate;
use qeos_core::field::FieldState;
use qeos_core::rule::{RuleEngine, RuleType};
use qeos_core::scalar::Scalar;
use qeos_core::source::Source;
use qeos_core::split::Split;

fn scalar(x: f64) -> Scalar {
    Scalar { bits: x.to_bits() }
}

fn entry(key: &str, coefficient: Option<f64>) -> Correlation {
    Correlation {
        key: key.to_string(),
        left: vec![scalar(0.1), scalar(0.2)],
        right: vec![scalar(0.3), scalar(0.4)],
        coefficient: coefficient.map(scalar),
    }
}

fn field_with(entries: Vec<Correlation>) -> FieldState {
    let mut field = FieldState::new();
    field.correlations = entries;
    field
}

#[test]
fn confidence_is_seven_tenths() {
    assert_eq!(CONFIDENCE_BITS, 0.7f64.to_bits());
}

#[test]
fn correlated_contexts_needs_a_coefficient_above_one_half() {
    let field = field_with(vec![
        entry("a:b", Some(0.9)),
        entry("a:c", Some(0.5)),
        entry("a:d", Some(-0.75)),
        entry("a:e", Some(0.1)),
        entry("a:f", None),
        entry("a:g", Some(f64::NAN)),
    ]);
    assert_eq!(correlated_contexts(&field, "a"), vec!["b", "d"]);
}

#[test]
fn correlated_contexts_looks_on_both_sides_of_the_key() {
    let field = field_with(vec![
        entry("a:b", Some(0.9)),
        entry("c:a", Some(0.8)),
        entry("b:c", Some(0.7)),
    ]);
    assert_eq!(correlated_contexts(&field, "a"), vec!["b", "c"]);
    assert_eq!(correlated_contexts(&field, "b"), vec!["a", "c"]);
    assert_eq!(correlated_contexts(&field, "c"), vec!["a", "b"]);
    assert!(correlated_contexts(&field, "d").is_empty());
}

#[test]
fn correlated_contexts_goes_by_the_text_of_the_key() {
    let field = field_with(vec![entry("ab:c", Some(0.9)), entry("x:y", Some(0.9))]);
    assert_eq!(correlated_contexts(&field, "a"), vec!["ab", "c"]);
    assert_eq!(correlated_contexts(&field, "b:c"), vec!["ab", "c"]);
    assert_eq!(correlated_contexts(&field, ""), vec!["ab", "c", "x", "y"]);
}

#[test]
fn correlated_contexts_leaves_out_every_piece_that_is_the_context() {
    let field = field_with(vec![entry("a:a", Some(0.9)), entry("a:b:a", Some(0.9))]);
    assert_eq!(correlated_contexts(&field, "a"), vec!["b"]);
}

#[test]
fn correlated_contexts_of_an_empty_mapping() {
    assert!(correlated_contexts(&FieldState::new(), "a").is_empty());
}

#[test]
fn create_split_takes_the_observation_in() {
    let source = Source::new();
    let mut field = FieldState::new();
    let request = SplitRequest { context: "rain".to_string() };
    let response = create_split(&request, &source, &mut field, scalar(0.375));
    assert_eq!(response.value, scalar(0.375));
    assert_eq!(field.splits.len(), 1);
    let split = &field.splits[0];
    assert_eq!(split.split_id, response.split_id);
    assert_eq!(split.source_id, source.id);
    assert_eq!(split.context, "rain");
    assert_eq!(split.value, scalar(0.375));
}

#[test]
fn create_split_keeps_the_window() {
    let source = Source::new();
    let mut field = FieldState::new();
    let request = SplitRequest { context: "rain".to_string() };
    let mut last = String::new();
    for i in 0..120u32 {
        last = create_split(&request, &source, &mut field, scalar(i as f64)).split_id;
    }
    assert_eq!(field.splits.len(), 100);
    assert_eq!(field.splits[0].value, scalar(20.0));
    assert_eq!(field.splits[99].split_id, last);
}

#[test]
fn query_puts_the_answer_together() {
    let mut field = FieldState::new();
    for (context, value) in [("a", 0.1), ("b", 0.9), ("a", 0.2), ("b", 0.8)] {
        field.add_split(Split::new("station", context, scalar(value)));
    }
    assert!(field.record_coefficients(&vec![scalar(-1.0)]));
    let mut engine = RuleEngine::new();
    let response = query(&QueryRequest { context: "a".to_string() }, &field, &mut engine);
    assert_eq!(response.confidence, scalar(0.7));
    assert_eq!(response.correlated_contexts, vec!["b"]);
    match response.estimate {
        Estimate::Weighted { samples, transforms } => {
            assert_eq!(samples, vec![scalar(0.2), scalar(0.1)]);
            assert!(transforms.is_empty());
        }
        Estimate::Unseen => panic!("a has samples"),
    }
}

#[test]
fn query_for_an_unseen_context() {
    let field = FieldState::new();
    let mut engine = RuleEngine::new();
    let response = query(&QueryRequest { context: "sun".to_string() }, &field, &mut engine);
    assert!(matches!(response.estimate, Estimate::Unseen));
    assert!(response.correlated_contexts.is_empty());
    assert_eq!(response.confidence, scalar(0.7));
}

#[test]
fn register_rule_reads_the_request() {
    let request = RuleRequest {
        name: "damp".to_string(),
        rule_type: "inverse".to_string(),
        contexts: vec!["rain".to_string(), "fog".to_string()],
        strength: scalar(0.125),
    };
    let rule = register_rule(request);
    assert_eq!(rule.name, "damp");
    assert_eq!(rule.rule_type, RuleType::Inverse);
    assert_eq!(rule.contexts, vec!["rain".to_string(), "fog".to_string()]);
    assert_eq!(rule.strength, scalar(0.125));
    assert!(rule.active);
    assert_eq!(rule.times_applied, 0);
    assert_eq!(rule.id.len(), 36);
}

#[test]
fn register_rule_takes_an_unknown_type_for_direct() {
    let request = RuleRequest {
        name: "odd".to_string(),
        rule_type: "sideways".to_string(),
        contexts: vec![],
        strength: scalar(2.0),
    };
    assert_eq!(register_rule(request).rule_type, RuleType::Direct);
}

#[test]
fn create_split_builds_the_mapping_anew() {
    let source = Source::new();
    let mut field = FieldState::new();
    for (context, value) in [("a", 0.1), ("b", 0.9), ("a", 0.2)] {
        field.add_split(Split::new("station", context, scalar(value)));
    }
    field.correlations = vec![entry("stale:key", Some(0.9))];
    let response = create_split(&SplitRequest { context: "b".to_string() }, &source, &mut field, scalar(0.8));
    assert!(!response.split_id.is_empty() && response.split_id.len() <= 32);
    assert!(response.split_id.chars().all(|c| c.is_ascii_digit() || ('a'..='f').contains(&c)));
    assert_eq!(field.correlations.len(), 1);
    let pair = &field.correlations[0];
    assert_eq!(pair.key, "a:b");
    assert_eq!(pair.left, vec![scalar(0.1), scalar(0.2)]);
    assert_eq!(pair.right, vec![scalar(0.9), scalar(0.8)]);
    assert_eq!(pair.coefficient, None);
}
