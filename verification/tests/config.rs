use meonode_compiler::config::CompileConfig;
use serde_json::Value;

/// Reads an object with an optional list of strings under `factoryModules`.
fn parse(text: &str) -> Option<CompileConfig> {
    let value: Value = serde_json::from_str(text).ok()?;
    let fields = value.as_object()?;
    let mut factory_modules = Vec::new();
    if let Some(list) = fields.get("factoryModules") {
        for item in list.as_array()? {
            factory_modules.push(item.as_str()?.to_string());
        }
    }
    Some(CompileConfig { factory_modules })
}

fn from_json(json: Option<&str>) -> CompileConfig {
    CompileConfig::from_json(json, parse)
}

#[test]
fn none_yields_default_empty_config() {
    assert_eq!(from_json(None), CompileConfig::default());
    assert!(from_json(None).factory_modules.is_empty());
}

#[test]
fn parses_factory_modules_list() {
    let config = from_json(Some(r#"{"factoryModules":["@meonode/mui"]}"#));
    assert_eq!(config.factory_modules, vec!["@meonode/mui".to_string()]);
}

#[test]
fn parses_multiple_factory_modules() {
    let config = from_json(Some(
        r#"{"factoryModules":["@meonode/mui","@acme/widgets"]}"#,
    ));
    assert_eq!(
        config.factory_modules,
        vec!["@meonode/mui".to_string(), "@acme/widgets".to_string()]
    );
}

#[test]
fn empty_json_object_yields_default() {
    let config = from_json(Some("{}"));
    assert_eq!(config, CompileConfig::default());
}

#[test]
fn malformed_json_degrades_to_default_rather_than_panicking() {
    let config = from_json(Some("not json at all"));
    assert_eq!(config, CompileConfig::default());
}

#[test]
fn wrong_shaped_json_degrades_to_default() {
    // A JSON array instead of an object: still must not panic, and must
    // still produce a safe, empty config.
    let config = from_json(Some(r#"["@meonode/mui"]"#));
    assert_eq!(config, CompileConfig::default());
}

#[test]
fn only_listed_modules_are_factory_modules() {
    let config = from_json(Some(r#"{"factoryModules":["@meonode/mui"]}"#));
    assert!(config.is_factory_module("@meonode/mui"));
    assert!(!config.is_factory_module("@meonode/mu"));
    assert!(!config.is_factory_module("@meonode/mui/x"));
    assert!(!CompileConfig::default().is_factory_module("@meonode/mui"));
}

#[test]
fn a_clone_equals_its_source() {
    let config = from_json(Some(r#"{"factoryModules":["@meonode/mui","@acme/widgets"]}"#));
    assert_eq!(config.clone(), config);
    assert_ne!(config, CompileConfig::default());
}
