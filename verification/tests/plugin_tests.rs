use arka_sdk::json::{canonical_json, JsonMap, JsonNumber, JsonValue};
use arka_sdk::plugin::{capitalize, deserialize_from_chain, infer_entity_type, serialize_for_chain, BasePlugin, PluginHooks};
use arka_sdk::types::{
    Condition, Consequence, Decision, DomainEvent, PactEntityType, PactRule, PluginManifest, Severity, Timestamp,
};

type Hook = fn() -> Result<(), String>;

fn num(text: &str) -> JsonValue {
    JsonValue::Number(JsonNumber::parse(text).unwrap())
}

fn text(s: &str) -> JsonValue {
    JsonValue::String(s.to_string())
}

fn object(members: Vec<(&str, JsonValue)>) -> JsonMap {
    let mut m = JsonMap::new();
    for (k, v) in members {
        m.insert(k.to_string(), v);
    }
    m
}

fn now() -> Timestamp {
    let t = chrono::Utc::now();
    Timestamp { secs: t.timestamp(), nanos: t.timestamp_subsec_nanos() }
}

fn create_test_manifest() -> PluginManifest {
    PluginManifest {
        id: "test-plugin".to_string(),
        name: "Test Plugin".to_string(),
        version: "1.0.0".to_string(),
        author: "Test Author".to_string(),
        description: "A test plugin".to_string(),
        entity_types: vec!["TestEntity".to_string()],
        event_types: vec!["TEST_EVENT".to_string()],
        dependencies: vec![],
        pact_core_version: "0.1.0".to_string(),
        config_schema: None,
    }
}

fn create_test_entity_types() -> Vec<PactEntityType> {
    vec![PactEntityType {
        name: "TestEntity".to_string(),
        description: "A test entity".to_string(),
        schema: JsonMap::new(),
        required_fields: vec!["id".to_string(), "name".to_string()],
    }]
}

fn create_test_rules() -> Vec<PactRule> {
    vec![PactRule {
        id: "test-rule-1".to_string(),
        name: "Test Rule".to_string(),
        description: "A test rule".to_string(),
        jurisdiction: None,
        severity: Severity::Medium,
        condition: Condition::Compare { field: "value".to_string(), operator: "gt".to_string(), value: num("100") },
        consequence: Consequence {
            decision: Decision::Flag,
            code: "TEST_FLAG".to_string(),
            message: "Test flag triggered".to_string(),
            metadata: JsonMap::new(),
        },
        tags: vec!["test".to_string()],
        effective_from: None,
        effective_to: None,
        metadata: JsonMap::new(),
    }]
}

fn event(event_type: &str) -> DomainEvent {
    DomainEvent {
        event_type: event_type.to_string(),
        payload: JsonMap::new(),
        entity_id: None,
        jurisdiction: None,
        occurred_at: None,
        metadata: JsonMap::new(),
    }
}

fn plain_plugin(entity_types: Vec<PactEntityType>, rules: Vec<PactRule>) -> BasePlugin<Hook> {
    BasePlugin::new(create_test_manifest(), entity_types, rules)
}

#[test]
fn test_base_plugin_new() {
    let manifest = create_test_manifest();
    let plugin: BasePlugin<Hook> =
        BasePlugin::new(manifest.duplicate(), create_test_entity_types(), create_test_rules());
    assert_eq!(plugin.manifest().id, "test-plugin");
    assert_eq!(plugin.manifest().name, "Test Plugin");
    assert!(plugin.hooks().is_none());
}

#[test]
fn test_base_plugin_manifest() {
    let plugin = plain_plugin(create_test_entity_types(), create_test_rules());
    let manifest = plugin.manifest();
    assert_eq!(manifest.id, "test-plugin");
    assert_eq!(manifest.version, "1.0.0");
    assert_eq!(manifest.entity_types.len(), 1);
    assert_eq!(manifest.event_types.len(), 1);
}

#[test]
fn test_base_plugin_get_entity_types() {
    let plugin = plain_plugin(create_test_entity_types(), vec![]);
    let entity_types = plugin.get_entity_types();
    assert_eq!(entity_types.len(), 1);
    assert_eq!(entity_types[0].name, "TestEntity");
    assert_eq!(entity_types[0].required_fields.len(), 2);
}

#[test]
fn test_base_plugin_get_default_rules() {
    let plugin = plain_plugin(vec![], create_test_rules());
    let rules = plugin.get_default_rules();
    assert_eq!(rules.len(), 1);
    assert_eq!(rules[0].name, "Test Rule");
}

#[test]
fn test_base_plugin_with_hooks() {
    let hooks: PluginHooks<Hook> = PluginHooks { on_load: Some(|| Ok(())), on_unload: None };
    let plugin = plain_plugin(vec![], vec![]).with_hooks(hooks);
    assert!(plugin.hooks().is_some());
    assert!(plugin.hooks().unwrap().on_load.is_some());
    assert!(plugin.hooks().unwrap().on_unload.is_none());
}

#[test]
fn test_map_to_canonical_event_minimal() {
    let plugin = plain_plugin(vec![], vec![]);
    let pact_event = plugin.map_to_canonical_event(&event("TEST_EVENT"));
    assert!(pact_event.id.starts_with("evt_"));
    assert_eq!(pact_event.source, "test-plugin");
    assert_eq!(pact_event.event_type, "TEST_EVENT");
    assert!(pact_event.entity_id.is_none());
}

#[test]
fn test_map_to_canonical_event_full() {
    let plugin = plain_plugin(vec![], vec![]);
    let payload = object(vec![("amount", num("1000")), ("currency", text("USD"))]);
    let metadata = object(vec![("source_system", text("external-api"))]);
    let current = now();
    let occurred_at = Timestamp { secs: current.secs - 3600, nanos: current.nanos };
    let domain_event = DomainEvent {
        event_type: "TRANSACTION_CREATED".to_string(),
        payload,
        entity_id: Some("entity-123".to_string()),
        jurisdiction: Some("US".to_string()),
        occurred_at: Some(occurred_at),
        metadata,
    };
    let pact_event = plugin.map_to_canonical_event(&domain_event);
    assert_eq!(pact_event.source, "test-plugin");
    assert_eq!(pact_event.event_type, "TRANSACTION_CREATED");
    assert_eq!(pact_event.entity_id, Some("entity-123".to_string()));
    assert_eq!(pact_event.jurisdiction, Some("US".to_string()));
    assert_eq!(canonical_json(pact_event.payload.get("amount").unwrap()), "1000");
    assert_eq!(pact_event.occurred_at, occurred_at);
    assert!((pact_event.received_at.secs, pact_event.received_at.nanos) >= (occurred_at.secs, occurred_at.nanos));
    assert_eq!(canonical_json(pact_event.metadata.get("source_system").unwrap()), "\"external-api\"");
}

#[test]
fn event_without_time_occurs_when_received() {
    let plugin = plain_plugin(vec![], vec![]);
    let pact_event = plugin.map_to_canonical_event(&event("TEST_EVENT"));
    assert_eq!(pact_event.occurred_at, pact_event.received_at);
}

#[test]
fn test_map_to_canonical_event_infers_entity_type() {
    let plugin = plain_plugin(vec![], vec![]);
    let pact_event = plugin.map_to_canonical_event(&event("ACCOUNT_CREATED"));
    assert_eq!(pact_event.entity_type, Some("Account".to_string()));
}

#[test]
fn test_map_to_canonical_event_infers_entity_type_user() {
    let plugin = plain_plugin(vec![], vec![]);
    let pact_event = plugin.map_to_canonical_event(&event("USER_UPDATED"));
    assert_eq!(pact_event.entity_type, Some("User".to_string()));
}

#[test]
fn event_type_without_underscore_names_no_entity_type() {
    assert_eq!(infer_entity_type("TEST"), None);
    let plugin = plain_plugin(vec![], vec![]);
    assert_eq!(plugin.map_to_canonical_event(&event("TEST")).entity_type, None);
}

#[test]
fn event_type_starting_with_underscore_names_no_entity_type() {
    assert_eq!(infer_entity_type("_CREATED"), None);
}

#[test]
fn entity_type_is_the_part_before_the_first_underscore() {
    assert_eq!(infer_entity_type("LOAN_PAYMENT_MISSED"), Some("Loan".to_string()));
    assert_eq!(infer_entity_type("bank_account_opened"), Some("Bank".to_string()));
}

#[test]
fn test_validate_domain_data_success() {
    let plugin = plain_plugin(create_test_entity_types(), vec![]);
    let data = object(vec![("id", text("123")), ("name", text("Test")), ("extra", text("value"))]);
    let result = plugin.validate_domain_data("TestEntity", &data);
    assert!(result.valid);
    assert!(result.errors.is_empty());
}

#[test]
fn test_validate_domain_data_missing_required() {
    let plugin = plain_plugin(create_test_entity_types(), vec![]);
    let data = object(vec![("id", text("123"))]);
    let result = plugin.validate_domain_data("TestEntity", &data);
    assert!(!result.valid);
    assert_eq!(result.errors.len(), 1);
    assert_eq!(result.errors[0].field, "name");
    assert_eq!(result.errors[0].code, "REQUIRED_FIELD_MISSING");
    assert_eq!(result.errors[0].message, "Required field 'name' is missing");
}

#[test]
fn test_validate_domain_data_multiple_missing() {
    let plugin = plain_plugin(create_test_entity_types(), vec![]);
    let data = JsonMap::new();
    let result = plugin.validate_domain_data("TestEntity", &data);
    assert!(!result.valid);
    assert_eq!(result.errors.len(), 2);
    assert_eq!(result.errors[0].field, "id");
    assert_eq!(result.errors[1].field, "name");
}

#[test]
fn test_validate_domain_data_unknown_entity_type() {
    let plugin = plain_plugin(create_test_entity_types(), vec![]);
    let data = JsonMap::new();
    let result = plugin.validate_domain_data("UnknownEntity", &data);
    assert!(!result.valid);
    assert_eq!(result.errors.len(), 1);
    assert_eq!(result.errors[0].field, "entity_type");
    assert_eq!(result.errors[0].code, "UNKNOWN_ENTITY_TYPE");
    assert_eq!(result.errors[0].message, "Unknown entity type: UnknownEntity");
}

#[test]
fn test_create_rule_id() {
    let plugin = plain_plugin(vec![], vec![]);
    let id1 = plugin.create_rule_id();
    let id2 = plugin.create_rule_id();
    assert!(id1.starts_with("rule_"));
    assert!(id2.starts_with("rule_"));
    assert_ne!(id1, id2);
}

#[test]
fn test_create_rule() {
    let plugin = plain_plugin(vec![], vec![]);
    let condition = Condition::Compare { field: "amount".to_string(), operator: "gt".to_string(), value: num("10000") };
    let consequence = Consequence {
        decision: Decision::Flag,
        code: "HIGH_VALUE".to_string(),
        message: "High value transaction".to_string(),
        metadata: JsonMap::new(),
    };
    let rule = plugin.create_rule("High Value Check", condition, consequence);
    assert!(rule.id.starts_with("rule_"));
    assert_eq!(rule.name, "High Value Check");
    assert_eq!(rule.description, "High Value Check");
    assert_eq!(rule.severity, Severity::Medium);
    assert!(rule.tags.contains(&"test-plugin".to_string()));
    assert_eq!(canonical_json(rule.metadata.get("plugin_id").unwrap()), "\"test-plugin\"");
    assert_eq!(canonical_json(rule.metadata.get("plugin_version").unwrap()), "\"1.0.0\"");
}

#[test]
fn test_plugin_hooks_default() {
    let hooks: PluginHooks<Hook> = PluginHooks::default();
    assert!(hooks.on_load.is_none());
    assert!(hooks.on_unload.is_none());
}

#[test]
fn test_plugin_hooks_on_load_success() {
    let hooks: PluginHooks<Hook> = PluginHooks { on_load: Some(|| Ok(())), on_unload: None };
    let result = (hooks.on_load.unwrap())();
    assert!(result.is_ok());
}

#[test]
fn test_plugin_hooks_on_load_error() {
    let hooks: PluginHooks<Hook> = PluginHooks { on_load: Some(|| Err("Load failed".to_string())), on_unload: None };
    let result = (hooks.on_load.unwrap())();
    assert!(result.is_err());
}

#[test]
fn test_domain_plugin_serialize_for_chain() {
    let data = JsonValue::Object(object(vec![("key", text("value")), ("number", num("42"))]));
    let serialized = serialize_for_chain(&data);
    let as_string = String::from_utf8(serialized).unwrap();
    assert!(as_string.contains("\"key\""));
    assert!(as_string.contains("\"number\""));
    assert_eq!(as_string, r#"{"key":"value","number":42}"#);
}

#[test]
fn serialize_for_chain_sorts_keys() {
    let data = JsonValue::Object(object(vec![("b", num("2")), ("a", num("1"))]));
    assert_eq!(serialize_for_chain(&data), br#"{"a":1,"b":2}"#.to_vec());
}

#[test]
fn serialize_for_chain_encodes_utf8() {
    let data = JsonValue::String("é".to_string());
    assert_eq!(serialize_for_chain(&data), vec![b'"', 0xc3, 0xa9, b'"']);
}

#[test]
fn canonical_event_uses_given_id_and_time() {
    let plugin = plain_plugin(vec![], vec![]);
    let at = Timestamp { secs: 1_700_000_000, nanos: 5 };
    let e = plugin.canonical_event(&event("ORDER_PLACED"), "evt_fixed".to_string(), at);
    assert_eq!(e.id, "evt_fixed");
    assert_eq!(e.received_at, at);
    assert_eq!(e.occurred_at, at);
    assert_eq!(e.source, "test-plugin");
    assert_eq!(e.entity_type, Some("Order".to_string()));
}

#[test]
fn canonical_event_keeps_given_occurrence_time() {
    let plugin = plain_plugin(vec![], vec![]);
    let at = Timestamp { secs: 1_700_000_000, nanos: 0 };
    let earlier = Timestamp { secs: 1_600_000_000, nanos: 0 };
    let mut ev = event("ORDER_PLACED");
    ev.occurred_at = Some(earlier);
    let e = plugin.canonical_event(&ev, "evt_x".to_string(), at);
    assert_eq!(e.occurred_at, earlier);
    assert_eq!(e.received_at, at);
}

#[test]
fn create_rule_with_id_keeps_id() {
    let plugin = plain_plugin(vec![], vec![]);
    let condition = Condition::Exists { field: "x".to_string() };
    let consequence =
        Consequence { decision: Decision::Allow, code: "OK".to_string(), message: "ok".to_string(), metadata: JsonMap::new() };
    let rule = plugin.create_rule_with_id("rule_given".to_string(), "Named", condition, consequence);
    assert_eq!(rule.id, "rule_given");
    assert_eq!(rule.tags, vec!["test-plugin".to_string()]);
    assert_eq!(rule.metadata.len(), 2);
    let (k0, _) = rule.metadata.entry(0);
    let (k1, _) = rule.metadata.entry(1);
    assert_eq!(k0, "plugin_id");
    assert_eq!(k1, "plugin_version");
}

#[test]
fn test_domain_plugin_deserialize_from_chain() {
    let data = r#"{"key":"value","number":42}"#.as_bytes();
    let deserialized = deserialize_from_chain(data).unwrap();
    match &deserialized {
        JsonValue::Object(m) => {
            assert_eq!(canonical_json(m.get("key").unwrap()), "\"value\"");
            assert_eq!(canonical_json(m.get("number").unwrap()), "42");
        }
        _ => panic!("Expected an object"),
    }
}

#[test]
fn test_domain_plugin_roundtrip_serialization() {
    let original = JsonValue::Object(object(vec![
        ("transaction_id", text("tx_123")),
        ("amount", num("1000.50")),
        ("metadata", JsonValue::Object(object(vec![("source", text("api")), ("version", num("1"))]))),
    ]));
    let serialized = serialize_for_chain(&original);
    let deserialized = deserialize_from_chain(&serialized).unwrap();
    match &deserialized {
        JsonValue::Object(m) => {
            assert_eq!(canonical_json(m.get("transaction_id").unwrap()), "\"tx_123\"");
            match m.get("amount").unwrap() {
                JsonValue::Number(n) => assert_eq!(n.text().parse::<f64>().unwrap(), 1000.50),
                _ => panic!("Expected a number"),
            }
            match m.get("metadata").unwrap() {
                JsonValue::Object(inner) => assert_eq!(canonical_json(inner.get("source").unwrap()), "\"api\""),
                _ => panic!("Expected an object"),
            }
        }
        _ => panic!("Expected an object"),
    }
}

#[test]
fn deserialize_from_chain_rejects_bad_bytes() {
    assert!(deserialize_from_chain(b"{\"a\":").is_err());
    assert!(deserialize_from_chain(b"not json").is_err());
    assert!(deserialize_from_chain(&[0xff, 0xfe]).is_err());
}

#[test]
fn deserialize_from_chain_reads_scalars_and_arrays() {
    assert_eq!(canonical_json(&deserialize_from_chain(b"[1, true, null, \"s\"]").unwrap()), r#"[1,true,null,"s"]"#);
    let v = deserialize_from_chain(br#"{"b":1,"a":2,"b":3}"#).unwrap();
    assert_eq!(canonical_json(&v), r#"{"a":2,"b":3}"#);
}

#[test]
fn empty_first_segment_names_no_entity_type() {
    assert_eq!(infer_entity_type("_X"), None);
}

#[test]
fn capitalize_lowercase_words() {
    assert_eq!(capitalize("account"), Some("Account".to_string()));
    assert_eq!(capitalize("x"), Some("X".to_string()));
    assert_eq!(capitalize(""), None);
}
