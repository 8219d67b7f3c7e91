use wol::rule::{parse_rule_to_cond, Rule, RuleError};

#[test]
fn parses_conway_rule() {
    let rule = Rule::parse("B3/S23").unwrap();
    for sum in 0u8..=8 {
        assert_eq!(rule.is_born(sum), sum == 3);
        assert_eq!(rule.survives(sum), sum == 2 || sum == 3);
    }
}

#[test]
fn parses_highlife_rule() {
    let rule = Rule::parse("B36/S23").unwrap();
    for sum in 0u8..=8 {
        assert_eq!(rule.is_born(sum), sum == 3 || sum == 6);
        assert_eq!(rule.survives(sum), sum == 2 || sum == 3);
    }
}

#[test]
fn empty_birth_run_never_fires() {
    let rule = Rule::parse("B/S23").unwrap();
    for sum in 0u8..=8 {
        assert!(!rule.is_born(sum));
        assert_eq!(rule.survives(sum), sum == 2 || sum == 3);
    }
}

#[test]
fn empty_survival_run_never_fires() {
    let rule = Rule::parse("B3/S").unwrap();
    for sum in 0u8..=8 {
        assert_eq!(rule.is_born(sum), sum == 3);
        assert!(!rule.survives(sum));
    }
}

#[test]
fn missing_survival_marker_is_a_format_error() {
    assert_eq!(Rule::parse("B3S23").unwrap_err(), RuleError::InvalidRuleFormat);
}

#[test]
fn missing_birth_marker_is_a_format_error() {
    assert_eq!(Rule::parse("3/S23").unwrap_err(), RuleError::InvalidRuleFormat);
    assert_eq!(Rule::parse("").unwrap_err(), RuleError::InvalidRuleFormat);
}

#[test]
fn out_of_range_digit_is_a_digit_error() {
    assert_eq!(Rule::parse("B9/S23").unwrap_err(), RuleError::InvalidRuleDigit);
    assert_eq!(Rule::parse("B3/S29").unwrap_err(), RuleError::InvalidRuleDigit);
    assert_eq!(Rule::parse("Bx/S23").unwrap_err(), RuleError::InvalidRuleDigit);
}

#[test]
fn conway_constructor_matches_parsed_conway() {
    let built = Rule::conway();
    let parsed = Rule::parse("B3/S23").unwrap();
    for sum in 0u8..=8 {
        assert_eq!(built.is_born(sum), parsed.is_born(sum));
        assert_eq!(built.survives(sum), parsed.survives(sum));
    }
}

#[test]
fn emits_condition_text_for_conway() {
    let (born, survive) = parse_rule_to_cond("B3/S23").unwrap();
    assert_eq!(born, "sum == 3");
    assert_eq!(survive, "sum == 2 || sum == 3");
}

#[test]
fn emits_false_for_an_empty_run() {
    let (born, survive) = parse_rule_to_cond("B/S23").unwrap();
    assert_eq!(born, "false");
    assert_eq!(survive, "sum == 2 || sum == 3");

    let (born, survive) = parse_rule_to_cond("B3/S").unwrap();
    assert_eq!(born, "sum == 3");
    assert_eq!(survive, "false");
}

#[test]
fn emission_orders_and_deduplicates_digits() {
    let (born, survive) = parse_rule_to_cond("B633/S").unwrap();
    assert_eq!(born, "sum == 3 || sum == 6");
    assert_eq!(survive, "false");
}

#[test]
fn emission_and_membership_never_diverge() {
    let rule = Rule::parse("B45678/S01234").unwrap();
    let (born, survive) = parse_rule_to_cond("B45678/S01234").unwrap();
    let mut expected_born = String::new();
    let mut expected_survive = String::new();
    for sum in 0u8..=8 {
        if rule.is_born(sum) {
            if !expected_born.is_empty() {
                expected_born.push_str(" || ");
            }
            expected_born.push_str(&format!("sum == {}", sum));
        }
        if rule.survives(sum) {
            if !expected_survive.is_empty() {
                expected_survive.push_str(" || ");
            }
            expected_survive.push_str(&format!("sum == {}", sum));
        }
    }
    assert_eq!(born, expected_born);
    assert_eq!(survive, expected_survive);
}

#[test]
fn parse_rule_to_cond_reports_the_same_errors_as_parse() {
    assert_eq!(parse_rule_to_cond("B3S23").unwrap_err(), RuleError::InvalidRuleFormat);
    assert_eq!(parse_rule_to_cond("B9/S23").unwrap_err(), RuleError::InvalidRuleDigit);
}
