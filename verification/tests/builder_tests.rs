use arka_sdk::builder::{and, condition, not, or, rule, ConditionBuilder, RuleBuilder};
use arka_sdk::json::{canonical_json, JsonNumber, JsonValue};
use arka_sdk::types::{Condition, Decision, Severity, Timestamp};

fn num(text: &str) -> JsonValue {
    JsonValue::Number(JsonNumber::parse(text).unwrap())
}

fn text(s: &str) -> JsonValue {
    JsonValue::String(s.to_string())
}

fn now() -> Timestamp {
    let t = chrono::Utc::now();
    Timestamp { secs: t.timestamp(), nanos: t.timestamp_subsec_nanos() }
}

#[test]
fn test_condition_builder_new() {
    let builder = ConditionBuilder::new();
    assert!(builder.build().is_none());
}

#[test]
fn test_condition_builder_default() {
    let builder = ConditionBuilder::default();
    assert!(builder.build().is_none());
}

#[test]
fn test_condition_builder_eq() {
    let cond = condition().field("amount").eq(num("1000")).build().unwrap();
    match cond {
        Condition::Compare { field, operator, value } => {
            assert_eq!(field, "amount");
            assert_eq!(operator, "eq");
            assert_eq!(canonical_json(&value), "1000");
        }
        _ => panic!("Expected Compare condition"),
    }
}

#[test]
fn test_condition_builder_ne() {
    let cond = condition().field("status").ne(text("blocked")).build().unwrap();
    match cond {
        Condition::Compare { field, operator, value } => {
            assert_eq!(field, "status");
            assert_eq!(operator, "ne");
            assert_eq!(canonical_json(&value), "\"blocked\"");
        }
        _ => panic!("Expected Compare condition"),
    }
}

#[test]
fn test_condition_builder_gt() {
    let cond = condition().field("price").gt(num("100")).build().unwrap();
    match cond {
        Condition::Compare { operator, .. } => assert_eq!(operator, "gt"),
        _ => panic!("Expected Compare condition"),
    }
}

#[test]
fn test_condition_builder_gte() {
    let cond = condition().field("age").gte(num("18")).build().unwrap();
    match cond {
        Condition::Compare { operator, .. } => assert_eq!(operator, "gte"),
        _ => panic!("Expected Compare condition"),
    }
}

#[test]
fn test_condition_builder_lt() {
    let cond = condition().field("count").lt(num("10")).build().unwrap();
    match cond {
        Condition::Compare { operator, .. } => assert_eq!(operator, "lt"),
        _ => panic!("Expected Compare condition"),
    }
}

#[test]
fn test_condition_builder_lte() {
    let cond = condition().field("limit").lte(num("1000")).build().unwrap();
    match cond {
        Condition::Compare { operator, .. } => assert_eq!(operator, "lte"),
        _ => panic!("Expected Compare condition"),
    }
}

#[test]
fn test_condition_builder_contains() {
    let cond = condition().field("description").contains("urgent").build().unwrap();
    match cond {
        Condition::Compare { field, operator, value } => {
            assert_eq!(field, "description");
            assert_eq!(operator, "contains");
            assert_eq!(canonical_json(&value), "\"urgent\"");
        }
        _ => panic!("Expected Compare condition"),
    }
}

#[test]
fn test_condition_builder_matches() {
    let cond = condition().field("email").matches(r"^[\w\.]+@[\w\.]+$").build().unwrap();
    match cond {
        Condition::Compare { operator, value, .. } => {
            assert_eq!(operator, "regex");
            match value {
                JsonValue::String(p) => assert_eq!(p, r"^[\w\.]+@[\w\.]+$"),
                _ => panic!("Expected a string pattern"),
            }
        }
        _ => panic!("Expected Compare condition"),
    }
}

#[test]
fn test_condition_builder_exists() {
    let cond = condition().field("optional_field").field_exists().build().unwrap();
    match cond {
        Condition::Exists { field } => assert_eq!(field, "optional_field"),
        _ => panic!("Expected Exists condition"),
    }
}

#[test]
fn test_condition_builder_in_values() {
    let cond = condition()
        .field("country")
        .in_values(vec![text("US"), text("CA"), text("MX")])
        .build()
        .unwrap();
    match cond {
        Condition::In { field, values } => {
            assert_eq!(field, "country");
            assert_eq!(values.len(), 3);
        }
        _ => panic!("Expected In condition"),
    }
}

#[test]
fn test_condition_builder_between() {
    let cond = condition()
        .field("temperature")
        .between(Some(JsonNumber::parse("0.0").unwrap()), Some(JsonNumber::parse("100.0").unwrap()))
        .build()
        .unwrap();
    match cond {
        Condition::Range { field, min, max, min_inclusive, max_inclusive } => {
            assert_eq!(field, "temperature");
            assert_eq!(min.unwrap().text(), "0.0");
            assert_eq!(max.unwrap().text(), "100.0");
            assert!(min_inclusive);
            assert!(max_inclusive);
        }
        _ => panic!("Expected Range condition"),
    }
}

#[test]
fn test_condition_builder_between_partial() {
    let cond = condition()
        .field("score")
        .between(Some(JsonNumber::parse("0.0").unwrap()), None)
        .build()
        .unwrap();
    match cond {
        Condition::Range { min, max, .. } => {
            assert_eq!(min.unwrap().text(), "0.0");
            assert!(max.is_none());
        }
        _ => panic!("Expected Range condition"),
    }
}

#[test]
fn test_condition_builder_expression() {
    let cond = condition().expression("amount > threshold", None).build().unwrap();
    match cond {
        Condition::Expression { expression, language } => {
            assert_eq!(expression, "amount > threshold");
            assert_eq!(language, "cel");
        }
        _ => panic!("Expected Expression condition"),
    }
}

#[test]
fn test_condition_builder_expression_custom_language() {
    let cond = condition().expression("return amount > 100", Some("lua")).build().unwrap();
    match cond {
        Condition::Expression { language, .. } => assert_eq!(language, "lua"),
        _ => panic!("Expected Expression condition"),
    }
}

#[test]
fn comparison_without_field_uses_empty_field() {
    let cond = condition().gt(num("5")).build().unwrap();
    match cond {
        Condition::Compare { field, .. } => assert_eq!(field, ""),
        _ => panic!("Expected Compare condition"),
    }
}

#[test]
fn later_operator_replaces_earlier_one() {
    let cond = condition().field("a").eq(num("1")).lt(num("2")).build().unwrap();
    match cond {
        Condition::Compare { operator, value, .. } => {
            assert_eq!(operator, "lt");
            assert_eq!(canonical_json(&value), "2");
        }
        _ => panic!("Expected Compare condition"),
    }
}

#[test]
fn test_and_operator() {
    let c1 = condition().field("a").eq(num("1")).build().unwrap();
    let c2 = condition().field("b").eq(num("2")).build().unwrap();
    match and(vec![c1, c2]) {
        Condition::And { conditions } => assert_eq!(conditions.len(), 2),
        _ => panic!("Expected And condition"),
    }
}

#[test]
fn test_or_operator() {
    let c1 = condition().field("status").eq(text("active")).build().unwrap();
    let c2 = condition().field("status").eq(text("pending")).build().unwrap();
    match or(vec![c1, c2]) {
        Condition::Or { conditions } => assert_eq!(conditions.len(), 2),
        _ => panic!("Expected Or condition"),
    }
}

#[test]
fn test_not_operator() {
    let c = condition().field("blocked").field_exists().build().unwrap();
    match not(c) {
        Condition::Not { condition } => match *condition {
            Condition::Exists { field } => assert_eq!(field, "blocked"),
            _ => panic!("Expected Exists inside Not"),
        },
        _ => panic!("Expected Not condition"),
    }
}

#[test]
fn test_complex_nested_conditions() {
    let high_amount = condition().field("amount").gt(num("10000")).build().unwrap();
    let is_international = condition().field("international").eq(JsonValue::Bool(true)).build().unwrap();
    let is_flagged = condition().field("flagged").eq(JsonValue::Bool(true)).build().unwrap();
    let combined = or(vec![and(vec![high_amount, is_international]), is_flagged]);
    match combined {
        Condition::Or { conditions } => {
            assert_eq!(conditions.len(), 2);
            match &conditions[0] {
                Condition::And { conditions } => assert_eq!(conditions.len(), 2),
                _ => panic!("Expected And condition"),
            }
        }
        _ => panic!("Expected Or condition"),
    }
}

#[test]
fn test_rule_builder_new() {
    let builder = RuleBuilder::new();
    assert!(builder.build().is_err());
}

#[test]
fn test_rule_builder_default() {
    let builder = RuleBuilder::default();
    assert!(builder.build().is_err());
}

#[test]
fn test_rule_builder_minimal() {
    let r = rule()
        .name("Test Rule")
        .when_field("amount", "gt", num("1000"))
        .then_deny("LIMIT_EXCEEDED", "Amount exceeds limit")
        .build()
        .unwrap();
    assert_eq!(r.name, "Test Rule");
    assert!(!r.id.is_empty());
    assert!(r.id.starts_with("rule_"));
    assert_eq!(r.severity, Severity::Medium);
}

#[test]
fn generated_rule_id_has_uuid_prefix_shape() {
    let r = rule()
        .name("Test Rule")
        .when_field("amount", "gt", num("1000"))
        .then_deny("LIMIT_EXCEEDED", "Amount exceeds limit")
        .build()
        .unwrap();
    assert_eq!(r.id.len(), "rule_".len() + 12);
    let tail: Vec<char> = r.id["rule_".len()..].chars().collect();
    for (i, c) in tail.iter().enumerate() {
        if i == 8 {
            assert_eq!(*c, '-');
        } else {
            assert!(c.is_ascii_hexdigit() && !c.is_ascii_uppercase());
        }
    }
}

#[test]
fn test_rule_builder_with_id() {
    let r = rule()
        .id("custom-rule-id")
        .name("Custom Rule")
        .when_field("status", "eq", text("blocked"))
        .then_deny("BLOCKED", "Account is blocked")
        .build()
        .unwrap();
    assert_eq!(r.id, "custom-rule-id");
}

#[test]
fn test_rule_builder_with_description() {
    let r = rule()
        .name("Rule Name")
        .description("A detailed description")
        .when_field("a", "eq", num("1"))
        .then_allow("OK", "Allowed")
        .build()
        .unwrap();
    assert_eq!(r.description, "A detailed description");
}

#[test]
fn test_rule_builder_description_defaults_to_name() {
    let r = rule().name("My Rule").when_field("a", "eq", num("1")).then_allow("OK", "Ok").build().unwrap();
    assert_eq!(r.description, "My Rule");
}

#[test]
fn test_rule_builder_with_jurisdiction() {
    let r = rule()
        .name("US Rule")
        .jurisdiction("US")
        .when_field("amount", "gt", num("10000"))
        .then_flag("US_REPORTING", "US reporting threshold")
        .build()
        .unwrap();
    assert_eq!(r.jurisdiction, Some("US".to_string()));
}

#[test]
fn test_rule_builder_with_severity() {
    let r = rule()
        .name("Critical Rule")
        .severity(Severity::Critical)
        .when_field("a", "eq", num("1"))
        .then_deny("CRITICAL", "Critical error")
        .build()
        .unwrap();
    assert_eq!(r.severity, Severity::Critical);
}

#[test]
fn test_rule_builder_with_condition() {
    let cond = and(vec![
        condition().field("a").gt(num("10")).build().unwrap(),
        condition().field("b").lt(num("100")).build().unwrap(),
    ]);
    let r = rule().name("Complex Rule").when(cond).then_flag("COMPLEX", "Complex condition matched").build().unwrap();
    match &r.condition {
        Condition::And { conditions } => assert_eq!(conditions.len(), 2),
        _ => panic!("Expected And condition"),
    }
}

#[test]
fn test_rule_builder_then_deny() {
    let r = rule()
        .name("Deny Rule")
        .when_field("blocked", "eq", JsonValue::Bool(true))
        .then_deny("BLOCKED", "Access denied")
        .build()
        .unwrap();
    assert_eq!(r.consequence.decision, Decision::Deny);
    assert_eq!(r.consequence.code, "BLOCKED");
    assert_eq!(r.consequence.message, "Access denied");
    assert_eq!(r.consequence.metadata.len(), 0);
}

#[test]
fn test_rule_builder_then_flag() {
    let r = rule()
        .name("Flag Rule")
        .when_field("suspicious", "eq", JsonValue::Bool(true))
        .then_flag("SUSPICIOUS", "Suspicious activity")
        .build()
        .unwrap();
    assert_eq!(r.consequence.decision, Decision::Flag);
}

#[test]
fn test_rule_builder_then_allow() {
    let r = rule()
        .name("Allow Rule")
        .when_field("verified", "eq", JsonValue::Bool(true))
        .then_allow("VERIFIED", "Verified user")
        .build()
        .unwrap();
    assert_eq!(r.consequence.decision, Decision::Allow);
}

#[test]
fn test_rule_builder_with_tags() {
    let r = rule()
        .name("Tagged Rule")
        .tags(vec!["finance", "aml", "compliance"])
        .when_field("a", "eq", num("1"))
        .then_allow("OK", "Ok")
        .build()
        .unwrap();
    assert_eq!(r.tags.len(), 3);
    assert!(r.tags.contains(&"finance".to_string()));
    assert!(r.tags.contains(&"aml".to_string()));
}

#[test]
fn tags_accumulate_in_order() {
    let r = rule()
        .name("Tagged Rule")
        .tags(vec!["a"])
        .tags(vec!["b", "c"])
        .when_field("a", "eq", num("1"))
        .then_allow("OK", "Ok")
        .build()
        .unwrap();
    assert_eq!(r.tags, vec!["a".to_string(), "b".to_string(), "c".to_string()]);
}

#[test]
fn test_rule_builder_with_effective_dates() {
    let from = now();
    let to = Timestamp { secs: from.secs + 30 * 86400, nanos: from.nanos };
    let r = rule()
        .name("Time-limited Rule")
        .effective_from(from)
        .effective_to(to)
        .when_field("a", "eq", num("1"))
        .then_allow("OK", "Ok")
        .build()
        .unwrap();
    assert!(r.effective_from.is_some());
    assert!(r.effective_to.is_some());
    let f = r.effective_from.unwrap();
    let t = r.effective_to.unwrap();
    assert!((t.secs, t.nanos) > (f.secs, f.nanos));
}

#[test]
fn test_rule_builder_with_metadata() {
    let r = rule()
        .name("Metadata Rule")
        .metadata("source", text("external"))
        .metadata("version", num("1"))
        .when_field("a", "eq", num("1"))
        .then_allow("OK", "Ok")
        .build()
        .unwrap();
    assert_eq!(r.metadata.len(), 2);
    assert_eq!(canonical_json(r.metadata.get("source").unwrap()), "\"external\"");
    assert_eq!(canonical_json(r.metadata.get("version").unwrap()), "1");
}

#[test]
fn metadata_key_set_twice_keeps_last_value() {
    let r = rule()
        .name("Metadata Rule")
        .metadata("version", num("1"))
        .metadata("version", num("2"))
        .when_field("a", "eq", num("1"))
        .then_allow("OK", "Ok")
        .build()
        .unwrap();
    assert_eq!(r.metadata.len(), 1);
    assert_eq!(canonical_json(r.metadata.get("version").unwrap()), "2");
}

#[test]
fn test_rule_builder_missing_name() {
    let result = rule().when_field("a", "eq", num("1")).then_allow("OK", "Ok").build();
    assert!(result.is_err());
    assert_eq!(result.unwrap_err(), "Rule name is required");
}

#[test]
fn test_rule_builder_missing_condition() {
    let result = rule().name("No Condition Rule").then_allow("OK", "Ok").build();
    assert!(result.is_err());
    assert_eq!(result.unwrap_err(), "Rule condition is required");
}

#[test]
fn test_rule_builder_missing_consequence() {
    let result = rule().name("No Consequence Rule").when_field("a", "eq", num("1")).build();
    assert!(result.is_err());
    assert_eq!(result.unwrap_err(), "Rule consequence is required");
}

#[test]
fn missing_name_is_reported_before_missing_condition() {
    let result = RuleBuilder::new().build();
    assert_eq!(result.unwrap_err(), "Rule name is required");
}

#[test]
fn test_condition_helper() {
    let builder = condition();
    let cond = builder.field("test").eq(text("value")).build();
    assert!(cond.is_some());
}

#[test]
fn test_rule_helper() {
    let builder = rule();
    let r = builder.name("Test").when_field("x", "eq", num("1")).then_allow("OK", "Ok").build();
    assert!(r.is_ok());
}

#[test]
fn test_build_aml_rule() {
    let high_value = condition().field("amount").gt(num("10000")).build().unwrap();
    let is_international = condition().field("international").eq(JsonValue::Bool(true)).build().unwrap();
    let high_risk_country = condition()
        .field("destination_country")
        .in_values(vec![text("XX"), text("YY"), text("ZZ")])
        .build()
        .unwrap();
    let aml_condition = or(vec![high_value, and(vec![is_international, high_risk_country])]);
    let aml_rule = rule()
        .id("aml-001")
        .name("AML High Risk Transaction")
        .description("Flag transactions that match AML criteria")
        .jurisdiction("US")
        .severity(Severity::High)
        .when(aml_condition)
        .then_flag("AML_REVIEW_REQUIRED", "Transaction requires AML review")
        .tags(vec!["aml", "compliance", "financial-crime"])
        .metadata("regulation", text("BSA"))
        .metadata("threshold_usd", num("10000"))
        .build()
        .unwrap();
    assert_eq!(aml_rule.id, "aml-001");
    assert_eq!(aml_rule.severity, Severity::High);
    assert_eq!(aml_rule.consequence.decision, Decision::Flag);
    assert_eq!(aml_rule.tags.len(), 3);
}

#[test]
fn test_build_kyc_rule() {
    let kyc_rule = rule()
        .id("kyc-001")
        .name("KYC Verification Required")
        .description("Require KYC verification for high-value accounts")
        .when(and(vec![
            condition().field("account_balance").gte(num("50000")).build().unwrap(),
            not(condition().field("kyc_verified").eq(JsonValue::Bool(true)).build().unwrap()),
        ]))
        .then_deny("KYC_REQUIRED", "KYC verification required for this operation")
        .severity(Severity::Medium)
        .tags(vec!["kyc", "compliance"])
        .build()
        .unwrap();
    assert_eq!(kyc_rule.id, "kyc-001");
    assert_eq!(kyc_rule.consequence.decision, Decision::Deny);
}
