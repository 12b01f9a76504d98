use std::cell::Cell;
use std::rc::Rc;

use arka_sdk::json::{JsonMap, JsonNumber, JsonValue};
use arka_sdk::plugin::PluginHooks;
use arka_sdk::registry::{Registry, RegistryError, RegistryEvent};
use arka_sdk::table::StringTable;
use arka_sdk::types::{Condition, Consequence, Decision, PactEntityType, PactRule, PluginManifest, Severity};

type Hook = Box<dyn Fn() -> Result<(), String>>;

struct TestPlugin {
    manifest: PluginManifest,
    entity_types: Vec<PactEntityType>,
    rules: Vec<PactRule>,
    hooks: Option<PluginHooks<Hook>>,
}

impl TestPlugin {
    fn new(manifest: PluginManifest) -> Self {
        let entity_type = PactEntityType {
            name: manifest.entity_types.first().cloned().unwrap_or_default(),
            description: "Test entity".to_string(),
            schema: JsonMap::new(),
            required_fields: vec![],
        };
        TestPlugin { manifest, entity_types: vec![entity_type], rules: vec![], hooks: None }
    }

    fn with_hooks(mut self, hooks: PluginHooks<Hook>) -> Self {
        self.hooks = Some(hooks);
        self
    }
}

fn create_test_manifest(id: &str) -> PluginManifest {
    create_test_manifest_with_deps(id, vec![])
}

fn create_test_manifest_with_deps(id: &str, deps: Vec<&str>) -> PluginManifest {
    PluginManifest {
        id: id.to_string(),
        name: format!("{} Plugin", id),
        version: "1.0.0".to_string(),
        author: "Test".to_string(),
        description: "Test plugin".to_string(),
        entity_types: vec![format!("{}Entity", id)],
        event_types: vec![format!("{}_EVENT", id.to_uppercase())],
        dependencies: deps.into_iter().map(String::from).collect(),
        pact_core_version: "0.1.0".to_string(),
        config_schema: None,
    }
}

/// Registers a plugin the way a runtime registry does: checks first, runs the plugin's
/// `on_load` hook only when the checks pass, then records the outcome.
fn register(registry: &mut Registry<TestPlugin>, plugin: TestPlugin) -> Result<(), RegistryError> {
    registry.check_registration(&plugin.manifest)?;
    let on_load = match plugin.hooks.as_ref().and_then(|h| h.on_load.as_ref()) {
        Some(hook) => hook(),
        None => Ok(()),
    };
    let manifest = plugin.manifest.duplicate();
    let entity_types = plugin.entity_types.iter().map(|t| t.duplicate()).collect();
    let rules = plugin.rules.iter().map(|r| r.duplicate()).collect();
    registry.register(plugin, manifest, entity_types, rules, on_load)
}

/// Unregisters a plugin the way a runtime registry does, running `on_unload` only when
/// the checks pass.
fn unregister(registry: &mut Registry<TestPlugin>, plugin_id: &str) -> Result<(), RegistryError> {
    registry.check_unregistration(plugin_id)?;
    let on_unload = match registry
        .get_plugin(plugin_id)
        .and_then(|p| p.hooks.as_ref())
        .and_then(|h| h.on_unload.as_ref())
    {
        Some(hook) => hook(),
        None => Ok(()),
    };
    registry.unregister(plugin_id, on_unload)
}

#[test]
fn test_registry_new() {
    let registry: Registry<TestPlugin> = Registry::new();
    assert_eq!(registry.get_all_plugins().len(), 0);
}

#[test]
fn test_registry_default() {
    let registry: Registry<TestPlugin> = Registry::default();
    assert_eq!(registry.get_all_plugins().len(), 0);
}

#[test]
fn test_registry_register_plugin() {
    let mut registry = Registry::new();
    let result = register(&mut registry, TestPlugin::new(create_test_manifest("test")));
    assert!(result.is_ok());
    assert!(registry.is_registered("test"));
}

#[test]
fn test_registry_register_duplicate() {
    let mut registry = Registry::new();
    register(&mut registry, TestPlugin::new(create_test_manifest("test"))).unwrap();
    let result = register(&mut registry, TestPlugin::new(create_test_manifest("test")));
    assert!(matches!(result, Err(RegistryError::AlreadyRegistered(_))));
}

#[test]
fn test_registry_register_multiple_plugins() {
    let mut registry = Registry::new();
    register(&mut registry, TestPlugin::new(create_test_manifest("plugin1"))).unwrap();
    register(&mut registry, TestPlugin::new(create_test_manifest("plugin2"))).unwrap();
    assert_eq!(registry.get_all_plugins().len(), 2);
    assert!(registry.is_registered("plugin1"));
    assert!(registry.is_registered("plugin2"));
}

#[test]
fn test_registry_unregister_plugin() {
    let mut registry = Registry::new();
    register(&mut registry, TestPlugin::new(create_test_manifest("test"))).unwrap();
    assert!(registry.is_registered("test"));
    let result = unregister(&mut registry, "test");
    assert!(result.is_ok());
    assert!(!registry.is_registered("test"));
}

#[test]
fn test_registry_unregister_not_registered() {
    let mut registry: Registry<TestPlugin> = Registry::new();
    let result = unregister(&mut registry, "nonexistent");
    assert!(matches!(result, Err(RegistryError::NotRegistered(_))));
}

#[test]
fn test_registry_get_plugin() {
    let mut registry = Registry::new();
    register(&mut registry, TestPlugin::new(create_test_manifest("test"))).unwrap();
    let retrieved = registry.get_plugin("test");
    assert!(retrieved.is_some());
    assert_eq!(retrieved.unwrap().manifest.id, "test");
}

#[test]
fn test_registry_get_plugin_not_found() {
    let registry: Registry<TestPlugin> = Registry::new();
    assert!(registry.get_plugin("nonexistent").is_none());
}

#[test]
fn test_registry_get_plugin_for_entity_type() {
    let mut registry = Registry::new();
    register(&mut registry, TestPlugin::new(create_test_manifest("test"))).unwrap();
    let retrieved = registry.get_plugin_for_entity_type("testEntity");
    assert!(retrieved.is_some());
    assert_eq!(retrieved.unwrap().manifest.id, "test");
}

#[test]
fn test_registry_get_plugin_for_entity_type_not_found() {
    let registry: Registry<TestPlugin> = Registry::new();
    assert!(registry.get_plugin_for_entity_type("UnknownEntity").is_none());
}

#[test]
fn test_registry_entity_type_conflict() {
    let mut registry = Registry::new();
    let mut manifest1 = create_test_manifest("plugin1");
    manifest1.entity_types = vec!["SharedEntity".to_string()];
    let mut manifest2 = create_test_manifest("plugin2");
    manifest2.entity_types = vec!["SharedEntity".to_string()];
    register(&mut registry, TestPlugin::new(manifest1)).unwrap();
    let result = register(&mut registry, TestPlugin::new(manifest2));
    assert!(matches!(result, Err(RegistryError::EntityTypeConflict(_, _))));
    match result {
        Err(RegistryError::EntityTypeConflict(t, owner)) => {
            assert_eq!(t, "SharedEntity");
            assert_eq!(owner, "plugin1");
        }
        _ => panic!("Expected an entity type conflict"),
    }
    assert!(!registry.is_registered("plugin2"));
}

#[test]
fn test_registry_get_plugin_for_event_type() {
    let mut registry = Registry::new();
    register(&mut registry, TestPlugin::new(create_test_manifest("test"))).unwrap();
    let retrieved = registry.get_plugin_for_event_type("TEST_EVENT");
    assert!(retrieved.is_some());
    assert_eq!(retrieved.unwrap().manifest.id, "test");
}

#[test]
fn test_registry_get_plugin_for_event_type_not_found() {
    let registry: Registry<TestPlugin> = Registry::new();
    assert!(registry.get_plugin_for_event_type("UNKNOWN_EVENT").is_none());
}

#[test]
fn test_registry_event_type_conflict() {
    let mut registry = Registry::new();
    let mut manifest1 = create_test_manifest("plugin1");
    manifest1.event_types = vec!["SHARED_EVENT".to_string()];
    let mut manifest2 = create_test_manifest("plugin2");
    manifest2.event_types = vec!["SHARED_EVENT".to_string()];
    manifest2.entity_types = vec!["Plugin2Entity".to_string()];
    register(&mut registry, TestPlugin::new(manifest1)).unwrap();
    let result = register(&mut registry, TestPlugin::new(manifest2));
    assert!(matches!(result, Err(RegistryError::EventTypeConflict(_, _))));
}

#[test]
fn test_registry_dependency_satisfied() {
    let mut registry = Registry::new();
    register(&mut registry, TestPlugin::new(create_test_manifest("base"))).unwrap();
    let result = register(&mut registry, TestPlugin::new(create_test_manifest_with_deps("dependent", vec!["base"])));
    assert!(result.is_ok());
}

#[test]
fn test_registry_dependency_missing() {
    let mut registry = Registry::new();
    let result = register(&mut registry, TestPlugin::new(create_test_manifest_with_deps("plugin", vec!["nonexistent"])));
    assert!(matches!(result, Err(RegistryError::MissingDependency(_, _))));
    match result {
        Err(e) => assert_eq!(e.message(), "Plugin 'plugin' requires 'nonexistent' which is not registered"),
        Ok(()) => panic!("Expected a missing dependency"),
    }
}

#[test]
fn test_registry_cannot_unregister_with_dependents() {
    let mut registry = Registry::new();
    register(&mut registry, TestPlugin::new(create_test_manifest("base"))).unwrap();
    register(&mut registry, TestPlugin::new(create_test_manifest_with_deps("dependent", vec!["base"]))).unwrap();
    let result = unregister(&mut registry, "base");
    assert!(matches!(result, Err(RegistryError::HasDependents(_, _))));
    assert!(registry.is_registered("base"));
}

#[test]
fn test_registry_can_unregister_after_dependent_removed() {
    let mut registry = Registry::new();
    register(&mut registry, TestPlugin::new(create_test_manifest("base"))).unwrap();
    register(&mut registry, TestPlugin::new(create_test_manifest_with_deps("dependent", vec!["base"]))).unwrap();
    unregister(&mut registry, "dependent").unwrap();
    let result = unregister(&mut registry, "base");
    assert!(result.is_ok());
}

#[test]
fn test_registry_calls_on_load_hook() {
    let mut registry = Registry::new();
    let called = Rc::new(Cell::new(false));
    let called_clone = called.clone();
    let hooks: PluginHooks<Hook> = PluginHooks {
        on_load: Some(Box::new(move || {
            called_clone.set(true);
            Ok(())
        })),
        on_unload: None,
    };
    register(&mut registry, TestPlugin::new(create_test_manifest("test")).with_hooks(hooks)).unwrap();
    assert!(called.get());
}

#[test]
fn test_registry_on_load_hook_error() {
    let mut registry = Registry::new();
    let hooks: PluginHooks<Hook> =
        PluginHooks { on_load: Some(Box::new(|| Err("Load failed".to_string()))), on_unload: None };
    let result = register(&mut registry, TestPlugin::new(create_test_manifest("test")).with_hooks(hooks));
    assert!(matches!(result, Err(RegistryError::HookError(_))));
    assert!(!registry.is_registered("test"));
    assert!(registry.get_plugin_for_entity_type("testEntity").is_none());
}

#[test]
fn test_registry_calls_on_unload_hook() {
    let mut registry = Registry::new();
    let called = Rc::new(Cell::new(false));
    let called_clone = called.clone();
    let hooks: PluginHooks<Hook> = PluginHooks {
        on_load: None,
        on_unload: Some(Box::new(move || {
            called_clone.set(true);
            Ok(())
        })),
    };
    register(&mut registry, TestPlugin::new(create_test_manifest("test")).with_hooks(hooks)).unwrap();
    unregister(&mut registry, "test").unwrap();
    assert!(called.get());
}

#[test]
fn on_unload_hook_error_keeps_plugin() {
    let mut registry = Registry::new();
    let hooks: PluginHooks<Hook> =
        PluginHooks { on_load: None, on_unload: Some(Box::new(|| Err("busy".to_string()))) };
    register(&mut registry, TestPlugin::new(create_test_manifest("test")).with_hooks(hooks)).unwrap();
    match unregister(&mut registry, "test") {
        Err(e) => assert_eq!(e.message(), "Hook error: busy"),
        Ok(()) => panic!("Expected a hook error"),
    }
    assert!(registry.is_registered("test"));
}

#[test]
fn test_registry_get_status() {
    let mut registry = Registry::new();
    register(&mut registry, TestPlugin::new(create_test_manifest("test"))).unwrap();
    assert_eq!(registry.get_status("test"), Some("active".to_string()));
}

#[test]
fn test_registry_get_status_not_found() {
    let registry: Registry<TestPlugin> = Registry::new();
    assert!(registry.get_status("nonexistent").is_none());
}

#[test]
fn test_registry_stats_empty() {
    let registry: Registry<TestPlugin> = Registry::new();
    let stats = registry.stats();
    assert_eq!(stats.plugin_count, 0);
    assert_eq!(stats.entity_type_count, 0);
    assert_eq!(stats.event_type_count, 0);
}

#[test]
fn test_registry_stats_with_plugins() {
    let mut registry = Registry::new();
    register(&mut registry, TestPlugin::new(create_test_manifest("plugin1"))).unwrap();
    register(&mut registry, TestPlugin::new(create_test_manifest("plugin2"))).unwrap();
    let stats = registry.stats();
    assert_eq!(stats.plugin_count, 2);
    assert_eq!(stats.entity_type_count, 2);
    assert_eq!(stats.event_type_count, 2);
    assert_eq!(stats.active_plugins.len(), 2);
    assert_eq!(stats.active_plugins, vec!["plugin1".to_string(), "plugin2".to_string()]);
}

#[test]
fn test_registry_clear() {
    let mut registry = Registry::new();
    register(&mut registry, TestPlugin::new(create_test_manifest("plugin1"))).unwrap();
    register(&mut registry, TestPlugin::new(create_test_manifest("plugin2"))).unwrap();
    assert_eq!(registry.get_all_plugins().len(), 2);
    registry.clear();
    assert_eq!(registry.get_all_plugins().len(), 0);
    assert!(!registry.is_registered("plugin1"));
    assert!(!registry.is_registered("plugin2"));
    assert_eq!(registry.stats().entity_type_count, 0);
}

#[test]
fn test_registry_get_all_entity_types() {
    let mut registry = Registry::new();
    register(&mut registry, TestPlugin::new(create_test_manifest("plugin1"))).unwrap();
    register(&mut registry, TestPlugin::new(create_test_manifest("plugin2"))).unwrap();
    let entity_types = registry.get_all_entity_types();
    assert_eq!(entity_types.len(), 2);
    assert_eq!(entity_types[0].name, "plugin1Entity");
    assert_eq!(entity_types[1].name, "plugin2Entity");
}

#[test]
fn test_registry_get_all_default_rules() {
    let mut registry = Registry::new();
    let mut plugin = TestPlugin::new(create_test_manifest("test"));
    plugin.rules = vec![PactRule {
        id: "rule1".to_string(),
        name: "Rule 1".to_string(),
        description: "Test rule".to_string(),
        jurisdiction: None,
        severity: Severity::Medium,
        condition: Condition::Compare {
            field: "x".to_string(),
            operator: "eq".to_string(),
            value: JsonValue::Number(JsonNumber::parse("1").unwrap()),
        },
        consequence: Consequence {
            decision: Decision::Allow,
            code: "OK".to_string(),
            message: "Ok".to_string(),
            metadata: JsonMap::new(),
        },
        tags: vec![],
        effective_from: None,
        effective_to: None,
        metadata: JsonMap::new(),
    }];
    register(&mut registry, plugin).unwrap();
    let rules = registry.get_all_default_rules();
    assert_eq!(rules.len(), 1);
    assert_eq!(rules[0].id, "rule1");
}

#[test]
fn test_registry_event_handler() {
    let mut registry = Registry::new();
    register(&mut registry, TestPlugin::new(create_test_manifest("test"))).unwrap();
    let events = registry.take_events();
    assert!(events.len() >= 2);
    assert_eq!(events.len(), 2);
    assert_eq!(events[0].event_type, "entity_type:registered");
    assert_eq!(events[0].plugin_id, "test");
    assert_eq!(events[0].data.get("entity_type"), Some(&"testEntity".to_string()));
    assert_eq!(events[1].event_type, "plugin:registered");
    assert_eq!(events[1].data.len(), 0);
    assert!(registry.take_events().is_empty());
}

#[test]
fn test_registry_event_handler_on_unregister() {
    let mut registry = Registry::new();
    register(&mut registry, TestPlugin::new(create_test_manifest("test"))).unwrap();
    unregister(&mut registry, "test").unwrap();
    let events = registry.take_events();
    assert!(events.iter().any(|e| e.event_type == "plugin:unregistered"));
    assert_eq!(events.last().unwrap().data.len(), 0);
    assert_eq!(events.last().unwrap().plugin_id, "test");
}

#[test]
fn refused_registration_emits_nothing() {
    let mut registry = Registry::new();
    register(&mut registry, TestPlugin::new(create_test_manifest("test"))).unwrap();
    registry.take_events();
    let _ = register(&mut registry, TestPlugin::new(create_test_manifest("test")));
    assert!(registry.take_events().is_empty());
}

#[test]
fn unregister_then_register_again_succeeds() {
    let mut registry = Registry::new();
    register(&mut registry, TestPlugin::new(create_test_manifest("test"))).unwrap();
    unregister(&mut registry, "test").unwrap();
    assert!(registry.get_plugin_for_entity_type("testEntity").is_none());
    assert!(registry.get_plugin_for_event_type("TEST_EVENT").is_none());
    assert_eq!(registry.stats().entity_type_count, 0);
    assert!(register(&mut registry, TestPlugin::new(create_test_manifest("test"))).is_ok());
}

#[test]
fn test_registry_error_display() {
    let err = RegistryError::AlreadyRegistered("test".to_string());
    assert_eq!(err.message(), "Plugin 'test' is already registered");

    let err = RegistryError::NotRegistered("test".to_string());
    assert_eq!(err.message(), "Plugin 'test' is not registered");

    let err = RegistryError::MissingDependency("plugin".to_string(), "dep".to_string());
    assert_eq!(err.message(), "Plugin 'plugin' requires 'dep' which is not registered");

    let err = RegistryError::EntityTypeConflict("Entity".to_string(), "plugin".to_string());
    assert_eq!(err.message(), "Entity type 'Entity' is already registered by plugin 'plugin'");

    let err = RegistryError::EventTypeConflict("EVENT".to_string(), "plugin".to_string());
    assert_eq!(err.message(), "Event type 'EVENT' is already registered by plugin 'plugin'");

    let err = RegistryError::HasDependents("base".to_string(), "dependent".to_string());
    assert_eq!(err.message(), "Cannot unregister 'base': plugin 'dependent' depends on it");

    let err = RegistryError::HookError("error".to_string());
    assert_eq!(err.message(), "Hook error: error");
}

#[test]
fn test_registry_event_clone() {
    let event = RegistryEvent {
        event_type: "plugin:registered".to_string(),
        plugin_id: "test".to_string(),
        data: {
            let mut data = StringTable::new();
            data.insert("key".to_string(), "value".to_string());
            data
        },
    };
    let cloned = event.clone();
    assert_eq!(cloned.event_type, event.event_type);
    assert_eq!(cloned.plugin_id, event.plugin_id);
    assert_eq!(cloned.data.get("key"), Some(&"value".to_string()));
}

#[test]
fn refused_registration_does_not_run_on_load() {
    let mut registry = Registry::new();
    register(&mut registry, TestPlugin::new(create_test_manifest("test"))).unwrap();
    let called = Rc::new(Cell::new(false));
    let called_clone = called.clone();
    let hooks: PluginHooks<Hook> = PluginHooks {
        on_load: Some(Box::new(move || {
            called_clone.set(true);
            Err("never".to_string())
        })),
        on_unload: None,
    };
    let result = register(&mut registry, TestPlugin::new(create_test_manifest("test")).with_hooks(hooks));
    assert!(matches!(result, Err(RegistryError::AlreadyRegistered(_))));
    assert!(!called.get());
}

#[test]
fn check_registration_agrees_with_register() {
    let mut registry: Registry<TestPlugin> = Registry::new();
    let m = create_test_manifest_with_deps("p", vec!["missing"]);
    let checked = registry.check_registration(&m);
    let done = registry.register(TestPlugin::new(m.duplicate()), m, vec![], vec![], Ok(()));
    match (checked, done) {
        (Err(a), Err(b)) => assert_eq!(a.message(), b.message()),
        _ => panic!("Expected both to refuse"),
    }
}
