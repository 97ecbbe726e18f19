use qeos_core::estimate::Estimate;
use qeos_core::field::FieldState;
use qeos_core::rule::{Rule, RuleEngine, RuleType, Transform};
use qeos_core::scalar::Scalar;
use qeos_core::split::Split;

fn scalar(x: f64) -> Scalar {
    Scalar { bits: x.to_bits() }
}

fn rule_for(name: &str, rule_type: RuleType, contexts: &[&str], strength: f64) -> Rule {
    Rule::new(name, rule_type, contexts.iter().map(|c| c.to_string()).collect(), scalar(strength))
}

fn is_uuid(text: &str) -> bool {
    text.len() == 36
        && text.chars().enumerate().all(|(i, c)| {
            if i == 8 || i == 13 || i == 18 || i == 23 {
                c == '-'
            } else {
                c.is_ascii_digit() || ('a'..='f').contains(&c)
            }
        })
}

#[test]
fn new_rule_is_active_and_unapplied() {
    let rule = rule_for("boost", RuleType::Inverse, &["rain", "snow"], 0.25);
    assert_eq!(rule.name, "boost");
    assert_eq!(rule.rule_type, RuleType::Inverse);
    assert_eq!(rule.contexts, vec!["rain".to_string(), "snow".to_string()]);
    assert_eq!(rule.strength, scalar(0.25));
    assert_eq!(rule.condition, None);
    assert_eq!(rule.decay, None);
    assert!(rule.active);
    assert_eq!(rule.times_applied, 0);
}

#[test]
fn new_rule_has_a_uuid() {
    let first = rule_for("a", RuleType::Direct, &["x"], 0.1);
    let second = rule_for("a", RuleType::Direct, &["x"], 0.1);
    assert!(is_uuid(&first.id));
    assert!(is_uuid(&second.id));
    assert_eq!(first.id.as_bytes()[14], b'4');
    assert_ne!(first.id, second.id);
}

#[test]
fn new_rule_accepts_degenerate_input() {
    let rule = rule_for("", RuleType::Direct, &[], -1.0e300);
    assert!(rule.contexts.is_empty());
    assert_eq!(rule.strength, scalar(-1.0e300));
    let nan = Rule::new("n", RuleType::Cascade, vec![], scalar(f64::NAN));
    assert_eq!(nan.strength, scalar(f64::NAN));
}

#[test]
fn apply_counts_exactly_one_for_every_type() {
    for rule_type in [RuleType::Direct, RuleType::Inverse, RuleType::Delayed, RuleType::Cascade] {
        let mut rule = rule_for("r", rule_type, &["x"], 0.5);
        for n in 1..=4u32 {
            let t = rule.apply();
            assert_eq!(rule.times_applied, n);
            assert_eq!(t, Transform { rule_type, strength: scalar(0.5) });
        }
    }
}

#[test]
fn apply_changes_nothing_but_the_counter() {
    let mut rule = rule_for("keep", RuleType::Inverse, &["x", "y"], 0.5);
    rule.condition = Some("cond".to_string());
    rule.decay = Some("decay".to_string());
    let id = rule.id.clone();
    rule.apply();
    assert_eq!(rule.id, id);
    assert_eq!(rule.name, "keep");
    assert_eq!(rule.rule_type, RuleType::Inverse);
    assert_eq!(rule.contexts, vec!["x".to_string(), "y".to_string()]);
    assert_eq!(rule.strength, scalar(0.5));
    assert_eq!(rule.condition, Some("cond".to_string()));
    assert_eq!(rule.decay, Some("decay".to_string()));
    assert!(rule.active);
}

#[test]
fn apply_counts_an_inactive_rule_too() {
    let mut rule = rule_for("off", RuleType::Direct, &["x"], 0.5);
    rule.active = false;
    rule.apply();
    assert_eq!(rule.times_applied, 1);
}

#[test]
fn apply_reaches_the_largest_count() {
    let mut rule = rule_for("r", RuleType::Direct, &["x"], 0.5);
    rule.times_applied = u32::MAX - 1;
    rule.apply();
    assert_eq!(rule.times_applied, u32::MAX);
}

#[test]
fn applies_to_needs_an_active_rule_and_a_listed_context() {
    let mut rule = rule_for("r", RuleType::Direct, &["rain", "snow"], 0.5);
    assert!(rule.applies_to("rain"));
    assert!(rule.applies_to("snow"));
    assert!(!rule.applies_to("sun"));
    assert!(!rule.applies_to("rai"));
    assert!(!rule.applies_to(""));
    rule.active = false;
    assert!(!rule.applies_to("rain"));
    let empty = rule_for("r", RuleType::Direct, &[], 0.5);
    assert!(!empty.applies_to("rain"));
}

#[test]
fn record_name_is_the_identifier_with_json() {
    let mut rule = rule_for("r", RuleType::Direct, &["x"], 0.5);
    rule.id = "abc".to_string();
    assert_eq!(rule.record_name(), "abc.json");
    let fresh = rule_for("r", RuleType::Direct, &["x"], 0.5);
    assert_eq!(fresh.record_name(), format!("{}.json", fresh.id));
}

#[test]
fn from_tag_reads_the_four_tags() {
    assert_eq!(RuleType::from_tag("direct"), RuleType::Direct);
    assert_eq!(RuleType::from_tag("inverse"), RuleType::Inverse);
    assert_eq!(RuleType::from_tag("delayed"), RuleType::Delayed);
    assert_eq!(RuleType::from_tag("cascade"), RuleType::Cascade);
}

#[test]
fn from_tag_takes_anything_else_for_direct() {
    assert_eq!(RuleType::from_tag(""), RuleType::Direct);
    assert_eq!(RuleType::from_tag("Inverse"), RuleType::Direct);
    assert_eq!(RuleType::from_tag("inverse "), RuleType::Direct);
    assert_eq!(RuleType::from_tag("unknown"), RuleType::Direct);
}

#[test]
fn new_engine_has_no_rules() {
    let engine = RuleEngine::new();
    assert_eq!(engine.len(), 0);
    assert!(engine.get_applicable_rules("rain").is_empty());
    assert!(engine.is_countable("rain"));
}

#[test]
fn load_all_passes_over_unreadable_records() {
    let records = vec![
        None,
        Some(rule_for("one", RuleType::Direct, &["rain"], 0.1)),
        None,
        None,
        Some(rule_for("two", RuleType::Inverse, &["sun"], 0.2)),
    ];
    let engine = RuleEngine::load_all(records);
    assert_eq!(engine.len(), 2);
    assert_eq!(engine.rule(0).name, "one");
    assert_eq!(engine.rule(1).name, "two");
}

#[test]
fn load_all_of_nothing_is_an_empty_engine() {
    assert_eq!(RuleEngine::load_all(Vec::new()).len(), 0);
    assert_eq!(RuleEngine::load_all(vec![None, None]).len(), 0);
}

#[test]
fn load_all_keeps_what_the_records_hold() {
    let mut stored = rule_for("kept", RuleType::Cascade, &["rain"], 0.75);
    stored.times_applied = 12;
    stored.active = false;
    stored.condition = Some("wet".to_string());
    let id = stored.id.clone();
    let engine = RuleEngine::load_all(vec![Some(stored)]);
    let rule = engine.rule(0);
    assert_eq!(rule.id, id);
    assert_eq!(rule.times_applied, 12);
    assert!(!rule.active);
    assert_eq!(rule.condition, Some("wet".to_string()));
    assert_eq!(rule.strength, scalar(0.75));
}

#[test]
fn loading_the_same_records_twice_gives_the_same_applicable_rules() {
    let records = vec![
        Some(rule_for("one", RuleType::Direct, &["rain"], 0.1)),
        None,
        Some(rule_for("two", RuleType::Inverse, &["sun"], 0.2)),
        Some(rule_for("three", RuleType::Delayed, &["rain", "sun"], 0.3)),
    ];
    let first = RuleEngine::load_all(records.clone());
    let second = RuleEngine::load_all(records);
    for context in ["rain", "sun", "snow"] {
        let a: Vec<&str> = first.get_applicable_rules(context).iter().map(|r| r.id.as_str()).collect();
        let b: Vec<&str> = second.get_applicable_rules(context).iter().map(|r| r.id.as_str()).collect();
        assert_eq!(a, b);
    }
    let rain: Vec<&str> = first.get_applicable_rules("rain").iter().map(|r| r.name.as_str()).collect();
    assert_eq!(rain, vec!["one", "three"]);
}

#[test]
fn add_rule_appends_without_comparing() {
    let mut engine = RuleEngine::new();
    let rule = rule_for("twin", RuleType::Direct, &["rain"], 0.1);
    engine.add_rule(rule.clone());
    engine.add_rule(rule.clone());
    engine.add_rule(rule_for("last", RuleType::Direct, &["rain"], 0.1));
    assert_eq!(engine.len(), 3);
    assert_eq!(engine.rule(0).id, rule.id);
    assert_eq!(engine.rule(1).id, rule.id);
    assert_eq!(engine.rule(2).name, "last");
}

#[test]
fn applicable_rules_come_in_engine_order() {
    let mut engine = RuleEngine::new();
    engine.add_rule(rule_for("a", RuleType::Direct, &["rain"], 0.1));
    engine.add_rule(rule_for("b", RuleType::Direct, &["sun"], 0.1));
    let mut off = rule_for("c", RuleType::Direct, &["rain"], 0.1);
    off.active = false;
    engine.add_rule(off);
    engine.add_rule(rule_for("d", RuleType::Cascade, &["sun", "rain"], 0.1));
    engine.add_rule(rule_for("e", RuleType::Direct, &[], 0.1));
    let names: Vec<&str> = engine.get_applicable_rules("rain").iter().map(|r| r.name.as_str()).collect();
    assert_eq!(names, vec!["a", "d"]);
    let names: Vec<&str> = engine.get_applicable_rules("sun").iter().map(|r| r.name.as_str()).collect();
    assert_eq!(names, vec!["b", "d"]);
    assert!(engine.get_applicable_rules("snow").is_empty());
}

#[test]
fn apply_applicable_counts_the_applicable_rules_only() {
    let mut engine = RuleEngine::new();
    engine.add_rule(rule_for("a", RuleType::Direct, &["rain"], 0.1));
    engine.add_rule(rule_for("b", RuleType::Inverse, &["sun"], 0.2));
    let mut off = rule_for("c", RuleType::Direct, &["rain"], 0.3);
    off.active = false;
    engine.add_rule(off);
    engine.add_rule(rule_for("d", RuleType::Cascade, &["sun", "rain"], 0.4));
    let transforms = engine.apply_applicable("rain");
    assert_eq!(
        transforms,
        vec![
            Transform { rule_type: RuleType::Direct, strength: scalar(0.1) },
            Transform { rule_type: RuleType::Cascade, strength: scalar(0.4) },
        ]
    );
    let counts: Vec<u32> = (0..engine.len()).map(|i| engine.rule(i).times_applied).collect();
    assert_eq!(counts, vec![1, 0, 0, 1]);
    engine.apply_applicable("rain");
    engine.apply_applicable("sun");
    let counts: Vec<u32> = (0..engine.len()).map(|i| engine.rule(i).times_applied).collect();
    assert_eq!(counts, vec![2, 1, 0, 3]);
}

#[test]
fn is_countable_sees_a_full_counter() {
    let mut full = rule_for("full", RuleType::Direct, &["rain"], 0.1);
    full.times_applied = u32::MAX;
    let mut engine = RuleEngine::new();
    engine.add_rule(rule_for("a", RuleType::Direct, &["rain"], 0.1));
    engine.add_rule(full);
    assert!(!engine.is_countable("rain"));
    assert!(engine.is_countable("sun"));
}

#[test]
fn is_countable_ignores_a_full_counter_of_an_inactive_rule() {
    let mut full = rule_for("full", RuleType::Direct, &["rain"], 0.1);
    full.times_applied = u32::MAX;
    full.active = false;
    let mut engine = RuleEngine::new();
    engine.add_rule(full);
    assert!(engine.is_countable("rain"));
}

#[test]
fn query_counts_each_applicable_rule_once() {
    let mut field = FieldState::new();
    field.add_split(Split::new("station", "rain", scalar(0.5)));
    let mut engine = RuleEngine::new();
    engine.add_rule(rule_for("a", RuleType::Direct, &["rain"], 0.1));
    engine.add_rule(rule_for("b", RuleType::Direct, &["sun"], 0.1));
    for n in 1..=3u32 {
        field.query_probability("rain", &mut engine);
        assert_eq!(engine.rule(0).times_applied, n);
        assert_eq!(engine.rule(1).times_applied, 0);
    }
}

#[test]
fn query_for_an_unseen_context_applies_no_rule() {
    let field = FieldState::new();
    let mut engine = RuleEngine::new();
    engine.add_rule(rule_for("a", RuleType::Direct, &["sun"], 0.1));
    let estimate = field.query_probability("sun", &mut engine);
    assert!(matches!(estimate, Estimate::Unseen));
    assert_eq!(engine.rule(0).times_applied, 0);
}

#[test]
fn query_for_an_unseen_context_is_answered_with_full_counters() {
    let field = FieldState::new();
    let mut full = rule_for("full", RuleType::Direct, &["sun"], 0.1);
    full.times_applied = u32::MAX;
    let mut engine = RuleEngine::new();
    engine.add_rule(full);
    let estimate = field.query_probability("sun", &mut engine);
    assert!(matches!(estimate, Estimate::Unseen));
    assert_eq!(engine.rule(0).times_applied, u32::MAX);
}

#[test]
fn rule_with_a_given_identifier() {
    let rule = Rule::with_id(
        "r-1".to_string(),
        "named",
        RuleType::Delayed,
        vec!["rain".to_string()],
        scalar(0.75),
    );
    assert_eq!(rule.id, "r-1");
    assert_eq!(rule.name, "named");
    assert_eq!(rule.rule_type, RuleType::Delayed);
    assert_eq!(rule.contexts, vec!["rain".to_string()]);
    assert_eq!(rule.strength, scalar(0.75));
    assert_eq!(rule.condition, None);
    assert_eq!(rule.decay, None);
    assert!(rule.active);
    assert_eq!(rule.times_applied, 0);
    assert_eq!(rule.record_name(), "r-1.json");
}
