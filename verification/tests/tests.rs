use dprint_plugin_svgo::config::SvgoConfig;
use dprint_plugin_svgo::config_map::{ConfigMap, ConfigValue};
use dprint_plugin_svgo::configuration::GlobalConfiguration;
use dprint_plugin_svgo::error::SvgoError;
use dprint_plugin_svgo::formatter::prepare_format;
use dprint_plugin_svgo::handler::{plugin_info, resolve_plugin_config, skips_range_format};
use dprint_plugin_svgo::json::JsonValue;

fn default_global() -> GlobalConfiguration {
    GlobalConfiguration::empty()
}

fn svg_extensions() -> Vec<String> {
    vec!["svg".to_string()]
}

#[test]
fn plugin_info_returns_correct_values() {
    let info = plugin_info("0.1.0");

    assert_eq!(info.name, "dprint-plugin-svgo");
    assert_eq!(info.config_key, "svgo");
    assert_eq!(info.help_url, "https://svgo.dev");
    assert!(!info.version.is_empty());
}

#[test]
fn resolve_config_returns_svg_extensions() {
    let result = resolve_plugin_config(ConfigMap::new(), default_global(), svg_extensions());

    assert!(result.diagnostics.is_empty());
    assert!(result.file_matching.file_extensions.contains(&"svg".to_string()));
}

#[test]
fn resolve_config_with_custom_settings() {
    let mut config = ConfigMap::new();
    config.insert("finalNewline".to_string(), ConfigValue::Bool(true));
    config.insert("indent".to_string(), ConfigValue::Number(4));

    let result = resolve_plugin_config(config, default_global(), svg_extensions());

    assert!(result.diagnostics.is_empty());
    let js2svg = result.config.main.get("js2svg").unwrap().as_object().unwrap();
    assert!(js2svg.get("finalNewline").unwrap().as_bool().unwrap());
}

#[test]
fn format_with_range_returns_none() {
    let range = Some((0usize, 10usize));

    // A range request is answered with "no change" (`Ok(None)`) without formatting.
    let skipped = skips_range_format(&range);
    let result: Result<Option<Vec<u8>>, SvgoError> = if skipped { Ok(None) } else { Err(SvgoError::Runtime(String::new())) };
    assert!(result.is_ok());
    assert!(result.unwrap().is_none());
}

#[test]
fn format_with_invalid_utf8_returns_error() {
    let invalid_bytes = vec![0xff, 0xfe, 0x00, 0x01];

    let result = prepare_format("file.svg", '/', invalid_bytes, &SvgoConfig::new());

    assert!(result.is_err());
    let err_msg = result.unwrap_err().message();
    assert!(err_msg.contains("UTF-8") || err_msg.contains("utf8"));
}

#[test]
fn format_with_invalid_extension_override() {
    let mut config = SvgoConfig::new();
    config.extension_overrides.insert("svg".to_string(), JsonValue::String("not an object".to_string()));
    let svg = r#"<svg xmlns="http://www.w3.org/2000/svg"><rect/></svg>"#;

    let result = prepare_format("test.svg", '/', svg.to_string().into_bytes(), &config);

    assert!(result.is_err());
    let err_msg = result.unwrap_err().message();
    assert!(err_msg.contains("extension override"));
}

#[test]
fn format_deeply_nested_svg_fails() {
    let mut svg = String::from(r#"<svg xmlns="http://www.w3.org/2000/svg">"#);
    for _ in 0..101 {
        svg.push_str("<g>");
    }
    svg.push_str("<rect/>");
    for _ in 0..101 {
        svg.push_str("</g>");
    }
    svg.push_str("</svg>");

    let result = prepare_format("deep.svg", '/', svg.into_bytes(), &SvgoConfig::new());

    assert!(result.is_err());
    let err_msg = result.unwrap_err().message();
    assert!(err_msg.contains("too deep") || err_msg.contains("depth"));
}

#[test]
fn resolve_config_with_wrong_type_indent() {
    let mut config = ConfigMap::new();
    config.insert("indent".to_string(), ConfigValue::String("four".to_string()));

    let result = resolve_plugin_config(config, default_global(), svg_extensions());

    assert_eq!(result.diagnostics.len(), 1);
    assert!(result.diagnostics[0].message.contains("invalid digit"));
    let js2svg = result.config.main.get("js2svg").expect("js2svg should exist").as_object().expect("js2svg should be object");
    let indent = js2svg.get("indent").expect("indent should exist");
    assert!(indent.is_number(), "Should use default number indent");
}

#[test]
fn resolve_config_with_negative_indent() {
    let mut config = ConfigMap::new();
    config.insert("indent".to_string(), ConfigValue::Number(-1));

    let result = resolve_plugin_config(config, default_global(), svg_extensions());

    let js2svg = result.config.main.get("js2svg").unwrap().as_object().unwrap();
    let indent = js2svg.get("indent").unwrap().as_i64().unwrap();
    assert!(indent == 2 || indent == -1, "Unexpected indent: {}", indent);
}

#[test]
fn resolve_config_with_invalid_eol() {
    let mut config = ConfigMap::new();
    config.insert("eol".to_string(), ConfigValue::String("invalid".to_string()));

    let result = resolve_plugin_config(config, default_global(), svg_extensions());

    let js2svg = result.config.main.get("js2svg").unwrap().as_object().unwrap();
    assert_eq!(js2svg.get("eol").unwrap().as_str().unwrap(), "invalid");
}

#[test]
fn error_types_have_display() {
    let err = SvgoError::InvalidExtensionOverride("svg".to_string());
    let msg = err.message();
    assert!(msg.contains("extension override"));
    assert!(msg.contains("svg"));

    let utf8_err = String::from_utf8(vec![0xff, 0xfe]).unwrap_err();
    let err = SvgoError::InvalidUtf8(utf8_err.to_string());
    let msg = err.message();
    assert!(msg.contains("UTF-8"));
}
