use dprint_plugin_svgo::config::resolve_config;
use dprint_plugin_svgo::config_map::{ConfigMap, ConfigValue};
use dprint_plugin_svgo::configuration::{GlobalConfiguration, NewLineKind};

fn empty_global_config() -> GlobalConfiguration {
    GlobalConfiguration { line_width: None, use_tabs: None, indent_width: None, new_line_kind: None }
}

fn string(s: &str) -> ConfigValue {
    ConfigValue::String(s.to_string())
}

#[test]
fn resolve_config_with_custom_indent() {
    let mut config = ConfigMap::new();
    config.insert("indent".to_string(), ConfigValue::Number(4));

    let result = resolve_config(config, empty_global_config());

    assert_eq!(result.config.get_indent(), Some(4));
}

#[test]
fn resolve_config_with_global_indent_width() {
    let config = ConfigMap::new();
    let global_config = GlobalConfiguration { indent_width: Some(8), ..empty_global_config() };

    let result = resolve_config(config, global_config);

    assert_eq!(result.config.get_indent(), Some(8));
}

#[test]
fn resolve_config_local_overrides_global() {
    let mut config = ConfigMap::new();
    config.insert("indent".to_string(), ConfigValue::Number(3));
    let global_config = GlobalConfiguration { indent_width: Some(8), ..empty_global_config() };

    let result = resolve_config(config, global_config);

    assert_eq!(result.config.get_indent(), Some(3));
}

#[test]
fn resolve_config_with_crlf_eol() {
    let mut config = ConfigMap::new();
    config.insert("eol".to_string(), string("crlf"));

    let result = resolve_config(config, empty_global_config());

    assert_eq!(result.config.get_eol(), Some("crlf"));
}

#[test]
fn resolve_config_with_global_newline_kind() {
    let config = ConfigMap::new();
    let global_config = GlobalConfiguration {
        new_line_kind: Some(NewLineKind::CarriageReturnLineFeed),
        ..empty_global_config()
    };

    let result = resolve_config(config, global_config);

    assert_eq!(result.config.get_eol(), Some("crlf"));
}

#[test]
fn resolve_config_with_pretty_false() {
    let mut config = ConfigMap::new();
    config.insert("pretty".to_string(), ConfigValue::Bool(false));

    let result = resolve_config(config, empty_global_config());

    assert_eq!(result.config.is_pretty(), Some(false));
}

#[test]
fn resolve_config_plugins_as_string_json() {
    let mut config = ConfigMap::new();
    config.insert("plugins".to_string(), string(r#"["preset-default"]"#));

    let result = resolve_config(config, empty_global_config());

    let plugins = result.config.main.get("plugins").unwrap();
    assert!(plugins.is_array());
    let arr = plugins.as_array().unwrap();
    assert_eq!(arr.len(), 1);
    assert_eq!(arr[0].as_str().unwrap(), "preset-default");
}

#[test]
fn resolve_config_plugins_as_array() {
    let mut config = ConfigMap::new();
    config.insert("plugins".to_string(), ConfigValue::Array(vec![string("preset-default")]));

    let result = resolve_config(config, empty_global_config());

    let plugins = result.config.main.get("plugins").unwrap();
    assert!(plugins.is_array());
}

#[test]
fn resolve_config_unknown_key_passes_through_with_warning() {
    let mut config = ConfigMap::new();
    config.insert("customOption".to_string(), string("value"));

    let result = resolve_config(config, empty_global_config());

    assert_eq!(result.config.main.get("customOption").unwrap().as_str().unwrap(), "value");
    assert_eq!(result.diagnostics.len(), 1);
    assert!(result.diagnostics[0].message.contains("Unknown SVGO option"));
}

#[test]
fn resolve_config_with_nested_object() {
    let mut config = ConfigMap::new();
    let mut nested = ConfigMap::new();
    nested.insert("innerKey".to_string(), string("innerValue"));
    nested.insert("innerNum".to_string(), ConfigValue::Number(42));
    config.insert("customObject".to_string(), ConfigValue::Object(nested));

    let result = resolve_config(config, empty_global_config());

    let obj = result.config.main.get("customObject").unwrap().as_object().unwrap();
    assert_eq!(obj.get("innerKey").unwrap().as_str().unwrap(), "innerValue");
    assert_eq!(obj.get("innerNum").unwrap().as_i64().unwrap(), 42);
}

#[test]
fn resolve_config_with_array_of_mixed_types() {
    let mut config = ConfigMap::new();
    config.insert(
        "mixedArray".to_string(),
        ConfigValue::Array(vec![string("str"), ConfigValue::Number(123), ConfigValue::Bool(true), ConfigValue::Null]),
    );

    let result = resolve_config(config, empty_global_config());

    let arr = result.config.main.get("mixedArray").unwrap().as_array().unwrap();
    assert_eq!(arr.len(), 4);
    assert_eq!(arr[0].as_str().unwrap(), "str");
    assert_eq!(arr[1].as_i64().unwrap(), 123);
    assert!(arr[2].as_bool().unwrap());
    assert!(arr[3].is_null());
}

#[test]
fn resolve_config_with_deeply_nested_object() {
    let mut config = ConfigMap::new();
    let mut level2 = ConfigMap::new();
    level2.insert("deep".to_string(), string("value"));
    let mut level1 = ConfigMap::new();
    level1.insert("nested".to_string(), ConfigValue::Object(level2));
    config.insert("outer".to_string(), ConfigValue::Object(level1));

    let result = resolve_config(config, empty_global_config());

    let outer = result.config.main.get("outer").unwrap().as_object().unwrap();
    let nested = outer.get("nested").unwrap().as_object().unwrap();
    assert_eq!(nested.get("deep").unwrap().as_str().unwrap(), "value");
}

#[test]
fn resolve_config_with_array_of_objects() {
    let mut config = ConfigMap::new();
    let mut obj1 = ConfigMap::new();
    obj1.insert("name".to_string(), string("first"));
    let mut obj2 = ConfigMap::new();
    obj2.insert("name".to_string(), string("second"));
    config.insert(
        "objectArray".to_string(),
        ConfigValue::Array(vec![ConfigValue::Object(obj1), ConfigValue::Object(obj2)]),
    );

    let result = resolve_config(config, empty_global_config());

    let arr = result.config.main.get("objectArray").unwrap().as_array().unwrap();
    assert_eq!(arr.len(), 2);
    assert_eq!(arr[0].as_object().unwrap().get("name").unwrap().as_str().unwrap(), "first");
    assert_eq!(arr[1].as_object().unwrap().get("name").unwrap().as_str().unwrap(), "second");
}

#[test]
fn resolve_config_with_null_value() {
    let mut config = ConfigMap::new();
    config.insert("nullKey".to_string(), ConfigValue::Null);

    let result = resolve_config(config, empty_global_config());

    assert!(result.config.main.get("nullKey").unwrap().is_null());
}

#[test]
fn resolve_config_plugins_invalid_json_string_kept_as_string() {
    let mut config = ConfigMap::new();
    config.insert("plugins".to_string(), string("not valid json ["));

    let result = resolve_config(config, empty_global_config());

    assert_eq!(result.config.main.get("plugins").unwrap().as_str().unwrap(), "not valid json [");
}

#[test]
fn resolve_config_empty_extension_override() {
    let mut config = ConfigMap::new();
    config.insert("svg.".to_string(), ConfigValue::Bool(true));

    let result = resolve_config(config, empty_global_config());

    let svg_override = result.config.extension_overrides.get("svg").unwrap().as_object().unwrap();
    assert!(svg_override.contains_key(""));
}

#[test]
fn resolve_config_multiple_dots_in_key() {
    let mut config = ConfigMap::new();
    config.insert("some.extension.key".to_string(), string("value"));

    let result = resolve_config(config, empty_global_config());

    let override_config =
        result.config.extension_overrides.get("some.extension").unwrap().as_object().unwrap();
    assert_eq!(override_config.get("key").unwrap().as_str().unwrap(), "value");
}

#[test]
fn resolve_config_all_js2svg_options() {
    let mut config = ConfigMap::new();
    config.insert("indent".to_string(), ConfigValue::Number(4));
    config.insert("eol".to_string(), string("crlf"));
    config.insert("pretty".to_string(), ConfigValue::Bool(false));

    let result = resolve_config(config, empty_global_config());

    assert_eq!(result.config.get_indent(), Some(4));
    assert_eq!(result.config.get_eol(), Some("crlf"));
    assert_eq!(result.config.is_pretty(), Some(false));
}

#[test]
fn resolve_config_global_auto_newline() {
    let config = ConfigMap::new();
    let global_config = GlobalConfiguration { new_line_kind: Some(NewLineKind::Auto), ..empty_global_config() };

    let result = resolve_config(config, global_config);

    assert_eq!(result.config.get_eol(), Some("lf"));
}

#[test]
fn resolve_config_invalid_plugins_not_array() {
    let mut config = ConfigMap::new();
    config.insert("plugins".to_string(), string("preset-default"));

    let result = resolve_config(config, empty_global_config());

    assert_eq!(result.diagnostics.len(), 1);
    assert!(result.diagnostics[0].message.contains("array"));
}

#[test]
fn resolve_config_invalid_float_precision_negative() {
    let mut config = ConfigMap::new();
    config.insert("floatPrecision".to_string(), ConfigValue::Number(-1));

    let result = resolve_config(config, empty_global_config());

    assert_eq!(result.diagnostics.len(), 1);
    assert!(result.diagnostics[0].message.contains("between 0 and 20"));
}

#[test]
fn resolve_config_invalid_float_precision_too_high() {
    let mut config = ConfigMap::new();
    config.insert("floatPrecision".to_string(), ConfigValue::Number(25));

    let result = resolve_config(config, empty_global_config());

    assert_eq!(result.diagnostics.len(), 1);
    assert!(result.diagnostics[0].message.contains("between 0 and 20"));
}

#[test]
fn resolve_config_invalid_datauri() {
    let mut config = ConfigMap::new();
    config.insert("datauri".to_string(), string("invalid"));

    let result = resolve_config(config, empty_global_config());

    assert_eq!(result.diagnostics.len(), 1);
    assert!(result.diagnostics[0].message.contains("base64"));
}

#[test]
fn resolve_config_invalid_js2svg_not_object() {
    let mut config = ConfigMap::new();
    config.insert("js2svg".to_string(), string("invalid"));

    let result = resolve_config(config, empty_global_config());

    assert_eq!(result.diagnostics.len(), 1);
    assert!(result.diagnostics[0].message.contains("object"));
}

#[test]
fn resolve_config_valid_plugins_array() {
    let mut config = ConfigMap::new();
    config.insert("plugins".to_string(), ConfigValue::Array(vec![string("preset-default")]));

    let result = resolve_config(config, empty_global_config());

    assert!(result.diagnostics.is_empty());
}

#[test]
fn resolve_config_valid_datauri() {
    let mut config = ConfigMap::new();
    config.insert("datauri".to_string(), string("base64"));

    let result = resolve_config(config, empty_global_config());

    assert!(result.diagnostics.is_empty());
}

#[test]
fn resolve_config_valid_float_precision() {
    let mut config = ConfigMap::new();
    config.insert("floatPrecision".to_string(), ConfigValue::Number(5));

    let result = resolve_config(config, empty_global_config());

    assert!(result.diagnostics.is_empty());
}

#[test]
fn svgo_config_get_js2svg() {
    let config = ConfigMap::new();
    let result = resolve_config(config, empty_global_config());

    let js2svg = result.config.get_js2svg();
    assert!(js2svg.is_some());

    let js2svg = js2svg.unwrap();
    assert!(js2svg.contains_key("indent"));
    assert!(js2svg.contains_key("eol"));
    assert!(js2svg.contains_key("pretty"));
}

#[test]
fn prop_resolve_config_doesnt_panic_with_numeric_indent() {
    for indent in [-1000, -1, 0, 1, 2, 255, 256, 999] {
        let mut config = ConfigMap::new();
        config.insert("indent".to_string(), ConfigValue::Number(indent));
        let _ = resolve_config(config, empty_global_config());
    }
}

#[test]
fn prop_resolve_config_doesnt_panic_with_float_precision() {
    for precision in [-100, -1, 0, 20, 21, 99] {
        let mut config = ConfigMap::new();
        config.insert("floatPrecision".to_string(), ConfigValue::Number(precision));
        let _ = resolve_config(config, empty_global_config());
    }
}

#[test]
fn prop_resolve_config_doesnt_panic_with_arbitrary_string_values() {
    for value in ["", "lf", "crlf", "\u{1F600}", "a\u{0}b", "   "] {
        let mut config = ConfigMap::new();
        config.insert("eol".to_string(), string(value));
        let _ = resolve_config(config, empty_global_config());
    }
}

#[test]
fn prop_resolve_config_handles_arbitrary_extension_keys() {
    for (ext, key) in [("a", "b"), ("svgz", "Pretty"), ("abcdefghij", "abcdefghijABCDEFGHIJ")] {
        let mut config = ConfigMap::new();
        config.insert(format!("{ext}.{key}"), ConfigValue::Bool(true));
        let _ = resolve_config(config, empty_global_config());
    }
}

#[test]
fn prop_resolve_config_handles_global_config_variations() {
    for indent_width in [None, Some(1u8), Some(7), Some(19)] {
        for use_tabs in [None, Some(true), Some(false)] {
            let config = ConfigMap::new();
            let global_config = GlobalConfiguration { indent_width, use_tabs, line_width: None, new_line_kind: None };

            let result = resolve_config(config, global_config);

            let expected_indent = i64::from(indent_width.unwrap_or(2));
            assert_eq!(result.config.get_indent(), Some(expected_indent));
        }
    }
}

#[test]
fn resolve_config_defaults() {
    let config = ConfigMap::new();
    let result = resolve_config(config, empty_global_config());

    assert!(result.diagnostics.is_empty());

    assert_eq!(result.config.get_indent(), Some(2));
    assert_eq!(result.config.get_eol(), Some("lf"));
    assert_eq!(result.config.is_pretty(), Some(true));

    assert_eq!(result.config.is_multipass(), Some(false));
}

#[test]
fn resolve_config_with_multipass() {
    let mut config = ConfigMap::new();
    config.insert("multipass".to_string(), ConfigValue::Bool(true));

    let result = resolve_config(config, empty_global_config());

    assert_eq!(result.config.is_multipass(), Some(true));
}

#[test]
fn resolve_config_with_extension_override() {
    let mut config = ConfigMap::new();
    config.insert("svg.multipass".to_string(), ConfigValue::Bool(true));

    let result = resolve_config(config, empty_global_config());

    assert_eq!(result.config.is_multipass(), Some(false));

    let svg_override = result.config.get_extension_override("svg").unwrap().as_object().unwrap();
    assert!(svg_override.get("multipass").unwrap().as_bool().unwrap());
}

#[test]
fn resolve_config_with_multiple_extension_overrides() {
    let mut config = ConfigMap::new();
    config.insert("svg.multipass".to_string(), ConfigValue::Bool(true));
    config.insert("svg.pretty".to_string(), ConfigValue::Bool(false));
    config.insert("svgz.multipass".to_string(), ConfigValue::Bool(false));

    let result = resolve_config(config, empty_global_config());

    let svg_override = result.config.get_extension_override("svg").unwrap().as_object().unwrap();
    assert!(svg_override.get("multipass").unwrap().as_bool().unwrap());
    assert!(!svg_override.get("pretty").unwrap().as_bool().unwrap());

    let svgz_override = result.config.get_extension_override("svgz").unwrap().as_object().unwrap();
    assert!(!svgz_override.get("multipass").unwrap().as_bool().unwrap());
}

#[test]
fn resolve_config_extension_case_insensitive() {
    let mut config = ConfigMap::new();
    config.insert("SVG.multipass".to_string(), ConfigValue::Bool(true));

    let result = resolve_config(config, empty_global_config());

    assert!(result.config.has_extension_override("svg"));
    assert!(!result.config.has_extension_override("SVG"));
}

#[test]
fn svgo_config_get_main_value() {
    let mut config = ConfigMap::new();
    config.insert("multipass".to_string(), ConfigValue::Bool(true));
    config.insert("floatPrecision".to_string(), ConfigValue::Number(3));

    let result = resolve_config(config, empty_global_config());

    assert!(result.config.get_main_value("multipass").is_some());
    assert!(result.config.get_main_value("js2svg").is_some());
    assert!(result.config.get_main_value("nonexistent").is_none());
}

#[test]
fn svgo_config_has_extension_override() {
    let mut config = ConfigMap::new();
    config.insert("svg.multipass".to_string(), ConfigValue::Bool(true));

    let result = resolve_config(config, empty_global_config());

    assert!(result.config.has_extension_override("svg"));
    assert!(!result.config.has_extension_override("svgz"));
    assert!(!result.config.has_extension_override("png"));
}

#[test]
fn prop_resolve_config_handles_combined_settings() {
    for indent in [0, 1, 7, 19] {
        for multipass in [false, true] {
            for pretty in [false, true] {
                let mut config = ConfigMap::new();
                config.insert("indent".to_string(), ConfigValue::Number(indent));
                config.insert("multipass".to_string(), ConfigValue::Bool(multipass));
                config.insert("pretty".to_string(), ConfigValue::Bool(pretty));

                let result = resolve_config(config, empty_global_config());

                assert_eq!(result.config.get_indent(), Some(i64::from(indent)));
                assert_eq!(result.config.is_multipass(), Some(multipass));
                assert_eq!(result.config.is_pretty(), Some(pretty));
            }
        }
    }
}
