use dprint_plugin_svgo::channel::PoolStats;
use dprint_plugin_svgo::config::{normalize_svg_aliases, resolve_config, validate_config_value};
use dprint_plugin_svgo::config_map::{ConfigMap, ConfigValue};
use dprint_plugin_svgo::configuration::{GlobalConfiguration, NewLineKind};
use dprint_plugin_svgo::error::SvgoError;
use dprint_plugin_svgo::formatter::{
    decode_svg_bytes, encode_svg_bytes, finish_format, normalize_path_for_json, normalize_path_with_separator,
    path_extension, prepare_format, resolve_file_config, svg_file_kind, SvgFileKind,
};
use dprint_plugin_svgo::handler::plugin_info;
use dprint_plugin_svgo::json::{JsonMap, JsonNumber, JsonValue};
use dprint_plugin_svgo::process_loop::{
    format_config_map, schema_handshake, Decision, IncomingMessage, LoopEvent, LoopState, Reply,
};
use dprint_plugin_svgo::snapshot::{deserialize_snapshot, SnapshotError};
use dprint_plugin_svgo::structure::validate_svg_structure;
use dprint_plugin_svgo::temporal::PlainMonthDay;

fn global() -> GlobalConfiguration {
    GlobalConfiguration::empty()
}

fn nested_svg(depth: usize) -> String {
    let mut svg = String::from("<svg>");
    for _ in 0..depth {
        svg.push_str("<g>");
    }
    for _ in 0..depth {
        svg.push_str("</g>");
    }
    svg.push_str("</svg>");
    svg
}

#[test]
fn defaults_without_settings() {
    let result = resolve_config(ConfigMap::new(), global());

    assert!(result.diagnostics.is_empty());
    assert_eq!(result.config.get_indent(), Some(2));
    assert_eq!(result.config.get_eol(), Some("lf"));
    assert_eq!(result.config.is_pretty(), Some(true));
    assert_eq!(result.config.main.len(), 2);
    assert_eq!(result.config.is_multipass(), Some(false));
    assert_eq!(result.config.get_js2svg().unwrap().len(), 3);
    assert_eq!(result.config.extension_overrides.len(), 0);
}

#[test]
fn indent_width_feeds_indent() {
    let mut config = ConfigMap::new();
    config.insert("indentWidth".to_string(), ConfigValue::Number(6));
    let result = resolve_config(config, GlobalConfiguration { indent_width: Some(3), ..global() });

    assert_eq!(result.config.get_indent(), Some(6));
    assert!(result.config.get_main_value("indentWidth").is_none());
}

#[test]
fn new_line_kind_setting_gives_eol() {
    let mut config = ConfigMap::new();
    config.insert("newLineKind".to_string(), ConfigValue::String("crlf".to_string()));
    let result = resolve_config(config, global());
    assert_eq!(result.config.get_eol(), Some("crlf"));

    let mut config = ConfigMap::new();
    config.insert("newLineKind".to_string(), ConfigValue::String("sideways".to_string()));
    let result = resolve_config(config, GlobalConfiguration { new_line_kind: Some(NewLineKind::CarriageReturnLineFeed), ..global() });
    assert_eq!(result.config.get_eol(), Some("crlf"));
    assert_eq!(result.diagnostics.len(), 1);
    assert_eq!(result.diagnostics[0].property_name, "newLineKind");
    assert_eq!(result.diagnostics[0].message, "Found invalid value 'sideways'.");
}

#[test]
fn array_for_scalar_setting_is_reported() {
    let mut config = ConfigMap::new();
    config.insert("pretty".to_string(), ConfigValue::Array(vec![]));
    let result = resolve_config(config, global());

    assert_eq!(result.config.is_pretty(), Some(true));
    assert_eq!(result.diagnostics.len(), 1);
    assert_eq!(result.diagnostics[0].message, "Arrays and objects are not supported for this value");
}

#[test]
fn indent_out_of_u8_range_is_reported() {
    let mut config = ConfigMap::new();
    config.insert("indent".to_string(), ConfigValue::Number(300));
    let result = resolve_config(config, global());

    assert_eq!(result.config.get_indent(), Some(2));
    assert_eq!(result.diagnostics.len(), 1);
    assert_eq!(result.diagnostics[0].property_name, "indent");
}

#[test]
fn normalize_puts_aliases_under_their_names() {
    let mut config = ConfigMap::new();
    config.insert("pretty".to_string(), ConfigValue::Bool(true));
    config.insert("svg.pretty".to_string(), ConfigValue::Bool(false));
    config.insert("SVG.indent".to_string(), ConfigValue::Number(7));

    let normalized = normalize_svg_aliases(config);
    assert_eq!(normalized.len(), 2);
    assert!(matches!(normalized.get("pretty"), Some(ConfigValue::Bool(false))));
    assert!(normalized.contains_key("indent"));
    assert!(!normalized.contains_key("svg.pretty"));
}

#[test]
fn svg_keys_apply_to_svg_files() {
    let mut config = ConfigMap::new();
    config.insert("floatPrecision".to_string(), ConfigValue::Number(3));
    config.insert("svg.floatPrecision".to_string(), ConfigValue::Number(1));
    let resolved = resolve_config(config, global()).config;

    assert_eq!(resolved.get_main_value("floatPrecision").unwrap().as_i64(), Some(3));
    let svg_file = resolve_file_config("a.svg", '/', &resolved).unwrap();
    assert_eq!(svg_file.get("floatPrecision").unwrap().as_i64(), Some(1));
    let other = resolve_file_config("a.svgz", '/', &resolved).unwrap();
    assert_eq!(other.get("floatPrecision").unwrap().as_i64(), Some(3));
}

#[test]
fn normalizing_twice_changes_nothing() {
    let mut config = ConfigMap::new();
    config.insert("svg.floatPrecision".to_string(), ConfigValue::Number(3));
    config.insert("floatPrecision".to_string(), ConfigValue::Number(1));
    config.insert("svgz.pretty".to_string(), ConfigValue::Bool(false));
    let once = normalize_svg_aliases(config);
    let keys_once: Vec<String> = once.entries.iter().map(|(k, _)| k.clone()).collect();
    let twice = normalize_svg_aliases(once);
    let keys_twice: Vec<String> = twice.entries.iter().map(|(k, _)| k.clone()).collect();

    assert_eq!(keys_once, keys_twice);
    assert_eq!(keys_once, vec!["floatPrecision".to_string(), "svgz.pretty".to_string()]);
    assert!(matches!(twice.get("floatPrecision"), Some(ConfigValue::Number(3))));
}

#[test]
fn multipass_is_kept_without_a_diagnostic() {
    let mut config = ConfigMap::new();
    config.insert("multipass".to_string(), ConfigValue::Bool(true));
    config.insert("svgz.multipass".to_string(), ConfigValue::Bool(false));
    let result = resolve_config(config, global());

    assert!(result.diagnostics.is_empty());
    assert_eq!(result.config.is_multipass(), Some(true));
    let svgz = result.config.get_extension_override("svgz").unwrap().as_object().unwrap();
    assert_eq!(svgz.get("multipass").unwrap().as_bool(), Some(false));

    let mut config = ConfigMap::new();
    config.insert("multipass".to_string(), ConfigValue::String("often".to_string()));
    let result = resolve_config(config, global());
    assert_eq!(result.config.is_multipass(), Some(false));
    assert_eq!(result.diagnostics.len(), 1);
    assert_eq!(result.diagnostics[0].property_name, "multipass");
}

#[test]
fn final_newline_and_short_tags_are_known_overrides() {
    let mut config = ConfigMap::new();
    config.insert("svgz.finalNewline".to_string(), ConfigValue::Bool(true));
    config.insert("svgz.useShortTags".to_string(), ConfigValue::Bool(false));
    let result = resolve_config(config, global());

    assert!(result.diagnostics.is_empty());
}

#[test]
fn other_extension_keys_become_overrides() {
    let mut config = ConfigMap::new();
    config.insert("SVGZ.pretty".to_string(), ConfigValue::Bool(false));
    config.insert("svgz.floatPrecision".to_string(), ConfigValue::Number(2));
    let result = resolve_config(config, global());

    let svgz = result.config.get_extension_override("svgz").unwrap().as_object().unwrap();
    assert_eq!(svgz.get("pretty").unwrap().as_bool(), Some(false));
    assert_eq!(svgz.get("floatPrecision").unwrap().as_i64(), Some(2));
    assert!(result.config.has_extension_override("svgz"));
    assert!(!result.config.has_extension_override("SVGZ"));
}

#[test]
fn unknown_option_message_lists_known_options() {
    let mut config = ConfigMap::new();
    config.insert("colour".to_string(), ConfigValue::Bool(true));
    let result = resolve_config(config, global());

    assert_eq!(
        result.diagnostics[0].message,
        "Unknown SVGO option 'colour'. Known options: plugins, floatPrecision, datauri, js2svg, path, finalNewline, useShortTags"
    );
}

#[test]
fn datauri_and_float_precision_messages() {
    let mut config = ConfigMap::new();
    config.insert("datauri".to_string(), ConfigValue::String("hex".to_string()));
    config.insert("floatPrecision".to_string(), ConfigValue::Number(21));
    config.insert("path".to_string(), ConfigValue::Bool(true));
    let result = resolve_config(config, global());

    assert_eq!(result.diagnostics.len(), 2);
    assert_eq!(result.diagnostics[0].message, "'datauri' must be 'base64', 'enc', or 'unenc', got 'hex'");
    assert_eq!(result.diagnostics[1].message, "'floatPrecision' should be between 0 and 20, got 21");
}

#[test]
fn plugins_string_with_objects_parses() {
    let mut config = ConfigMap::new();
    config.insert(
        "plugins".to_string(),
        ConfigValue::String(r#"[{"name":"prefixIds","params":{"prefix":"icon","delim":"__","n":-3,"f":1.5}}]"#.to_string()),
    );
    let result = resolve_config(config, global());

    assert!(result.diagnostics.is_empty());
    let plugins = result.config.main.get("plugins").unwrap().as_array().unwrap();
    let entry = plugins[0].as_object().unwrap();
    assert_eq!(entry.get("name").unwrap().as_str(), Some("prefixIds"));
    let params = entry.get("params").unwrap().as_object().unwrap();
    assert_eq!(params.get("prefix").unwrap().as_str(), Some("icon"));
    assert_eq!(params.get("n").unwrap().as_i64(), Some(-3));
    assert!(params.get("f").unwrap().is_number());
    assert_eq!(params.len(), 4);
}

#[test]
fn structure_accepts_plain_text_and_limits_depth() {
    assert_eq!(validate_svg_structure("no tags here"), Ok(()));
    assert_eq!(validate_svg_structure(""), Ok(()));
    assert_eq!(validate_svg_structure(&nested_svg(99)), Ok(()));
    assert_eq!(
        validate_svg_structure(&nested_svg(100)),
        Err(SvgoError::MaxDepthExceeded { max: 100 })
    );
}

#[test]
fn structure_skips_comments_and_instructions() {
    let mut svg = String::from("<?xml version=\"1.0\"?><svg><!-- ");
    for _ in 0..200 {
        svg.push_str("<g>");
    }
    svg.push_str(" --><![CDATA[ <g> -->]]></svg>");
    assert_eq!(validate_svg_structure(&svg), Ok(()));
}

#[test]
fn cdata_ends_at_its_close() {
    let svg = String::from("<![CDATA[a]]>") + &"<g>".repeat(101);
    assert_eq!(validate_svg_structure(&svg), Err(SvgoError::MaxDepthExceeded { max: 100 }));
    let comment = String::from("<!-- a -->") + &"<g>".repeat(101);
    assert_eq!(validate_svg_structure(&comment), Err(SvgoError::MaxDepthExceeded { max: 100 }));
    let inside = String::from("<![CDATA[") + &"<g>".repeat(101) + "]]>";
    assert_eq!(validate_svg_structure(&inside), Ok(()));
}

#[test]
fn structure_counts_elements() {
    let mut svg = String::from("<svg>");
    for _ in 0..99_999 {
        svg.push_str("<r/>");
    }
    svg.push_str("</svg>");
    assert_eq!(validate_svg_structure(&svg), Ok(()));
    let more = svg.replace("</svg>", "<r/></svg>");
    assert_eq!(validate_svg_structure(&more), Err(SvgoError::MaxElementsExceeded { max: 100_000 }));
}

#[test]
fn closing_tags_never_go_below_zero() {
    let mut svg = String::new();
    for _ in 0..500 {
        svg.push_str("</g>");
    }
    svg.push_str(&nested_svg(99));
    assert_eq!(validate_svg_structure(&svg), Ok(()));
}

#[test]
fn file_kinds() {
    assert_eq!(svg_file_kind("a.svg", '/'), SvgFileKind::Svg);
    assert_eq!(svg_file_kind("dir/a.SvGz", '/'), SvgFileKind::Svgz);
    assert_eq!(svg_file_kind("noextension", '/'), SvgFileKind::Svg);
    assert_eq!(svg_file_kind(".svgz", '/'), SvgFileKind::Svg);
    assert_eq!(svg_file_kind("a.svgz.bak", '/'), SvgFileKind::Svg);
}

#[test]
fn plain_bytes_round_trip() {
    let text = "<svg>\u{00e9}\u{1F600}</svg>".to_string();
    let bytes = encode_svg_bytes(text.clone(), SvgFileKind::Svg).unwrap();
    assert_eq!(bytes, text.as_bytes().to_vec());
    assert_eq!(decode_svg_bytes(bytes, SvgFileKind::Svg).unwrap(), text);
}

#[test]
fn compressed_bytes_round_trip() {
    let text = "<svg><rect/></svg>".to_string();
    let bytes = encode_svg_bytes(text.clone(), SvgFileKind::Svgz).unwrap();
    assert_ne!(bytes, text.as_bytes().to_vec());
    assert_eq!(&bytes[0..2], &[0x1f, 0x8b]);
    assert_eq!(decode_svg_bytes(bytes, SvgFileKind::Svgz).unwrap(), text);
}

#[test]
fn broken_compressed_input_is_reported() {
    let result = decode_svg_bytes(b"not gzip".to_vec(), SvgFileKind::Svgz);
    match result {
        Err(SvgoError::SvgzDecompression(m)) => assert!(!m.is_empty()),
        other => panic!("unexpected: {other:?}"),
    }
    let message = SvgoError::SvgzDecompression("bad".to_string()).message();
    assert_eq!(message, "SVGZ decompression failed: bad");
}

#[test]
fn invalid_utf8_is_reported() {
    match decode_svg_bytes(vec![0xff], SvgFileKind::Svg) {
        Err(SvgoError::InvalidUtf8(m)) => assert!(m.contains("utf-8") || m.contains("UTF-8")),
        other => panic!("unexpected: {other:?}"),
    }
}

#[test]
fn paths_for_json() {
    assert_eq!(normalize_path_with_separator("a\\b\\c.svg", '\\'), "a/b/c.svg");
    assert_eq!(normalize_path_with_separator("a\\b/c.svg", '/'), "a\\b/c.svg");
    let once = normalize_path_with_separator("x\\y", '\\');
    assert_eq!(normalize_path_with_separator(&once, '\\'), once);
    assert_eq!(normalize_path_for_json("dir/file.svg"), "dir/file.svg");
}

#[test]
fn override_merges_over_main_options() {
    let mut config = ConfigMap::new();
    config.insert("floatPrecision".to_string(), ConfigValue::Number(3));
    config.insert("svgz.floatPrecision".to_string(), ConfigValue::Number(1));
    config.insert("svgz.path".to_string(), ConfigValue::String("p".to_string()));
    let resolved = resolve_config(config, global()).config;

    let merged = resolve_file_config("icons/a.SVGZ", '/', &resolved).unwrap();
    assert_eq!(merged.get("floatPrecision").unwrap().as_i64(), Some(1));
    assert_eq!(merged.get("path").unwrap().as_str(), Some("p"));
    assert!(merged.get("js2svg").is_some());
    assert!(merged.get("multipass").is_some());
    assert_eq!(merged.len(), 4);

    let plain = resolve_file_config("icons/a.svg", '/', &resolved).unwrap();
    assert_eq!(plain.get("floatPrecision").unwrap().as_i64(), Some(3));
    assert_eq!(plain.len(), 3);
}

#[test]
fn prepare_format_gathers_the_job() {
    let resolved = resolve_config(ConfigMap::new(), global()).config;
    let job = prepare_format("dir\\a.svg", '\\', b"<svg/>".to_vec(), &resolved).unwrap();

    assert_eq!(job.file_kind, SvgFileKind::Svg);
    assert_eq!(job.file_path, "dir/a.svg");
    assert_eq!(job.file_text, "<svg/>");
    assert!(job.config.get("js2svg").is_some());
}

#[test]
fn finish_format_encodes_the_answer() {
    assert_eq!(finish_format(None, SvgFileKind::Svg), Ok(None));
    assert_eq!(finish_format(Some("<svg/>".to_string()), SvgFileKind::Svg), Ok(Some(b"<svg/>".to_vec())));
}

#[test]
fn error_messages() {
    assert_eq!(
        SvgoError::InvalidExtensionOverride("svg".to_string()).message(),
        "Invalid config: expected object for extension override 'svg'"
    );
    assert_eq!(SvgoError::MaxDepthExceeded { max: 100 }.message(), "SVG structure too deep: maximum depth 100 exceeded");
    assert_eq!(
        SvgoError::MaxElementsExceeded { max: 100_000 }.message(),
        "SVG has too many elements: maximum 100000 exceeded"
    );
    assert_eq!(SvgoError::Timeout { seconds: 30 }.message(), "Format operation timed out after 30 seconds");
    assert_eq!(SvgoError::Runtime("boom".to_string()).message(), "Formatting failed: boom");
    assert_eq!(SvgoError::JsonSerialization("x".to_string()).message(), "JSON serialization failed: x");
    assert_eq!(SvgoError::InvalidUtf8("y".to_string()).message(), "Invalid UTF-8 in input: y");
    assert_eq!(SvgoError::SvgzCompression("z".to_string()).message(), "SVGZ compression failed: z");
}

#[test]
fn plugin_info_schema_url() {
    let info = plugin_info("1.2.3");
    assert_eq!(info.version, "1.2.3");
    assert_eq!(info.config_schema_url, "https://plugins.dprint.dev/kjanat/dprint-plugin-svgo/1.2.3/schema.json");
    assert_eq!(info.update_url, None);
}

#[test]
fn snapshot_reading() {
    assert_eq!(deserialize_snapshot(&[1, 2, 3], true), Err(SnapshotError::TooShort));
    assert_eq!(
        SnapshotError::TooShort.message(),
        "Snapshot data too short: expected at least 4 bytes for size header"
    );

    let raw: Vec<u8> = (0..1000u32).map(|i| (i % 7) as u8).collect();
    let compressed = zstd::bulk::compress(&raw, 3).unwrap();
    let mut data = (raw.len() as u32).to_le_bytes().to_vec();
    data.extend_from_slice(&compressed);
    assert_eq!(deserialize_snapshot(&data, true), Ok(raw.clone()));

    let mut small = 10u32.to_le_bytes().to_vec();
    small.extend_from_slice(&compressed);
    assert!(matches!(deserialize_snapshot(&small, true), Err(SnapshotError::Decompression(_))));

    let mut garbage = 10u32.to_le_bytes().to_vec();
    garbage.extend_from_slice(b"garbage");
    assert!(matches!(deserialize_snapshot(&garbage, true), Err(SnapshotError::Decompression(_))));
    assert_eq!(deserialize_snapshot(&[1, 2, 3], false), Ok(vec![1, 2, 3]));
}

#[test]
fn pool_starts_one_runtime_at_a_time() {
    let mut stats = PoolStats::new();
    assert!(!stats.needs_memory_check());
    assert!(stats.begin_format(false));
    assert_eq!(stats.total_runtimes, 1);
    assert!(stats.needs_memory_check());
    assert!(!stats.begin_format(false));
    assert!(stats.begin_format(true));
    assert_eq!(stats.total_runtimes, 2);
    stats.runtime_ready();
    assert!(!stats.begin_format(true));
    stats.runtime_ready();
    assert_eq!(stats, PoolStats { pending_runtimes: 2, total_runtimes: 2 });
    assert!(stats.idle_timeout());
    assert_eq!(stats, PoolStats { pending_runtimes: 1, total_runtimes: 1 });
    let mut starting = PoolStats { pending_runtimes: 1, total_runtimes: 2 };
    assert!(!starting.idle_timeout());
    assert_eq!(starting, PoolStats { pending_runtimes: 1, total_runtimes: 2 });
    assert!(!stats.idle_timeout());
    assert_eq!(stats, PoolStats { pending_runtimes: 1, total_runtimes: 1 });
    stats.runtime_closed();
    assert_eq!(stats, PoolStats { pending_runtimes: 0, total_runtimes: 0 });
}

#[test]
fn loop_answers_every_request() {
    let mut state = LoopState::new();
    let d = state.step(LoopEvent::Message { id: 9, body: IncomingMessage::GetResolvedConfig { config_id: 7 } });
    assert_eq!(
        d,
        Decision::Send {
            id: 1,
            reply: Reply::Error { message_id: 9, text: "Did not find configuration for id: $7".to_string() }
        }
    );
    let d = state.step(LoopEvent::Message { id: 10, body: IncomingMessage::Unknown { kind: 99 } });
    assert_eq!(
        d,
        Decision::Send {
            id: 2,
            reply: Reply::Error { message_id: 10, text: "Unknown CLI to plugin message kind: 99.".to_string() }
        }
    );
    let d = state.step(LoopEvent::Message { id: 11, body: IncomingMessage::Unsupported });
    assert_eq!(
        d,
        Decision::Send {
            id: 3,
            reply: Reply::Error { message_id: 11, text: "Unsupported CLI to plugin message.".to_string() }
        }
    );
    let d = state.step(LoopEvent::Message { id: 12, body: IncomingMessage::Format { config_id: 7 } });
    assert!(matches!(d, Decision::Send { id: 4, reply: Reply::Error { message_id: 12, .. } }));
    let d = state.step(LoopEvent::Message { id: 13, body: IncomingMessage::GetConfigDiagnostics { config_id: 7 } });
    assert_eq!(d, Decision::Send { id: 5, reply: Reply::Diagnostics { message_id: 13, config_id: 7, registered: false } });
    state.step(LoopEvent::Message { id: 14, body: IncomingMessage::RegisterConfig { config_id: 7 } });
    let d = state.step(LoopEvent::Message { id: 15, body: IncomingMessage::GetFileMatchingInfo { config_id: 7 } });
    assert_eq!(d, Decision::Send { id: 7, reply: Reply::FileMatchingInfo { message_id: 15, config_id: 7 } });
    state.step(LoopEvent::Message { id: 16, body: IncomingMessage::ReleaseConfig { config_id: 7 } });
    let d = state.step(LoopEvent::Message { id: 17, body: IncomingMessage::GetResolvedConfig { config_id: 7 } });
    assert!(matches!(d, Decision::Send { id: 9, reply: Reply::Error { message_id: 17, .. } }));
    let d = state.step(LoopEvent::Message { id: 18, body: IncomingMessage::Close });
    assert_eq!(d, Decision::SendAndStop { id: 10, reply: Reply::Success { message_id: 18 } });
}

#[test]
fn cancel_of_unknown_format_does_nothing() {
    let mut state = LoopState::new();
    let d = state.step(LoopEvent::Message { id: 2, body: IncomingMessage::CancelFormat { message_id: 5 } });
    assert_eq!(d, Decision::Nothing);
    assert_eq!(state.next_message_id, 1);
}

#[test]
fn message_ids_saturate() {
    let mut state = LoopState::new();
    state.next_message_id = u32::MAX;
    let d = state.step(LoopEvent::Message { id: 1, body: IncomingMessage::IsAlive });
    assert_eq!(d, Decision::Send { id: u32::MAX, reply: Reply::Success { message_id: 1 } });
    assert_eq!(state.next_message_id, u32::MAX);
}

#[test]
fn handshake_refuses_other_requests() {
    assert_eq!(schema_handshake(1, 5), Err("Expected a schema version request of `0`.".to_string()));
}

#[test]
fn month_day_epoch_in_utc() {
    let month_day = PlainMonthDay { inner: temporal_rs::PlainMonthDay::from_utf8(b"--12-25").unwrap() };
    let ns = month_day.epoch_ns_for(temporal_rs::TimeZone::utc()).unwrap();
    // Noon on 1972-12-25 (the ISO reference year), UTC.
    assert_eq!(ns.0, 94_132_800_000_000_000);
}

#[test]
fn json_map_insert_keeps_order_and_replaces() {
    let mut map = JsonMap::new();
    map.insert("b".to_string(), JsonValue::Bool(true));
    map.insert("a".to_string(), JsonValue::Null);
    map.insert("b".to_string(), JsonValue::Bool(false));
    assert_eq!(map.len(), 2);
    assert_eq!(map.entries[0].0, "b");
    assert_eq!(map.get("b").unwrap().as_bool(), Some(false));
    assert!(map.get("a").unwrap().is_null());
    assert!(map.get("c").is_none());
}

#[test]
fn js2svg_setting_replaces_the_options() {
    let mut js2svg = ConfigMap::new();
    js2svg.insert("indent".to_string(), ConfigValue::Number(8));
    let mut config = ConfigMap::new();
    config.insert("pretty".to_string(), ConfigValue::Bool(false));
    config.insert("js2svg".to_string(), ConfigValue::Object(js2svg));
    let result = resolve_config(config, global());

    assert!(result.diagnostics.is_empty());
    assert_eq!(result.config.get_indent(), Some(8));
    assert_eq!(result.config.get_js2svg().unwrap().len(), 1);
    assert_eq!(result.config.is_pretty(), None);
}

#[test]
fn depth_limit_is_exact() {
    assert_eq!(validate_svg_structure(&"<g>".repeat(100)), Ok(()));
    assert_eq!(validate_svg_structure(&"<g>".repeat(101)), Err(SvgoError::MaxDepthExceeded { max: 100 }));
}

#[test]
fn self_closing_tags_count_but_do_not_nest() {
    let mut svg = String::from("<svg>");
    for _ in 0..98 {
        svg.push_str("<g>");
    }
    svg.push_str(&"<r/>".repeat(300));
    svg.push_str("<g></g>");
    assert_eq!(validate_svg_structure(&svg), Ok(()));
    let deeper = svg.replace("<g></g>", "<g><g></g></g>");
    assert_eq!(validate_svg_structure(&deeper), Err(SvgoError::MaxDepthExceeded { max: 100 }));
}

#[test]
fn format_overrides_lay_over_stored_settings() {
    let mut stored = ConfigMap::new();
    stored.insert("indent".to_string(), ConfigValue::Number(2));
    stored.insert("pretty".to_string(), ConfigValue::Bool(true));
    let mut overrides = ConfigMap::new();
    overrides.insert("pretty".to_string(), ConfigValue::Bool(false));
    overrides.insert("multipass".to_string(), ConfigValue::Bool(true));
    let merged = format_config_map(stored, overrides);
    assert_eq!(merged.len(), 3);
    assert_eq!(merged.find("indent"), Some(0));
    assert_eq!(merged.find("pretty"), Some(1));
    assert_eq!(merged.find("multipass"), Some(2));
    assert!(matches!(merged.get("pretty"), Some(ConfigValue::Bool(false))));
    assert!(matches!(merged.get("indent"), Some(ConfigValue::Number(2))));

    let resolved = resolve_config(merged, global()).config;
    assert_eq!(resolved.is_pretty(), Some(false));
    assert_eq!(resolved.is_multipass(), Some(true));
    assert_eq!(resolved.get_indent(), Some(2));
}

#[test]
fn extensions_follow_the_platform_separator() {
    assert_eq!(path_extension("dir/a.svgz", '/'), Some("svgz".to_string()));
    assert_eq!(path_extension("a.svgz/", '/'), Some("svgz".to_string()));
    assert_eq!(path_extension("a.svgz/.", '/'), Some("svgz".to_string()));
    assert_eq!(path_extension("a.svgz/..", '/'), None);
    assert_eq!(path_extension("dir/.svgz", '/'), None);
    assert_eq!(path_extension("a.", '/'), Some(String::new()));
    assert_eq!(path_extension("a.tar.gz", '/'), Some("gz".to_string()));
    assert_eq!(path_extension("/", '/'), None);
    assert_eq!(path_extension("", '/'), None);
    assert_eq!(path_extension("a.svgz\\b", '/'), Some("svgz\\b".to_string()));
    assert_eq!(path_extension("a.svgz\\b", '\\'), None);
    assert_eq!(path_extension("x\\a.svgz", '\\'), Some("svgz".to_string()));
    assert_eq!(path_extension("x/a.svgz", '\\'), Some("svgz".to_string()));
    assert_eq!(svg_file_kind("x\\a.SVGZ", '\\'), SvgFileKind::Svgz);
    assert_eq!(svg_file_kind("a.svgz\\b", '/'), SvgFileKind::Svg);
}

#[test]
fn extensions_agree_with_std_paths_here() {
    for path in ["a.svg", "dir/b.SVGZ", "noextension", ".hidden", "c.", "d/e.f/", "g/./h.svgz", "i/..", "j.k.l"] {
        let expected = std::path::Path::new(path).extension().and_then(|e| e.to_str()).map(|e| e.to_string());
        assert_eq!(path_extension(path, std::path::MAIN_SEPARATOR), expected, "{path}");
    }
}

#[test]
fn sub_minute_offsets_are_not_resolved() {
    let month_day = PlainMonthDay { inner: temporal_rs::PlainMonthDay::from_utf8(b"--12-25").unwrap() };
    let odd = temporal_rs::TimeZone::UtcOffset(temporal_rs::UtcOffset::from_utf8(b"+01:00:30").unwrap());
    assert!(month_day.checked_epoch_ns_for(odd).is_none());
    let whole = temporal_rs::TimeZone::UtcOffset(temporal_rs::UtcOffset::from_minutes(60));
    let ns = month_day.checked_epoch_ns_for(whole).unwrap().unwrap();
    // Noon on 1972-12-25 at UTC+01:00 is 11:00 UTC.
    assert_eq!(ns.0, 94_132_800_000_000_000 - 3_600_000_000_000);
}

#[test]
fn float_precision_bounds() {
    let check = |key: &str, value: JsonValue| {
        let mut diagnostics = Vec::new();
        validate_config_value(key, &value, &mut diagnostics);
        diagnostics
    };
    for n in [0u64, 5, 20] {
        assert!(check("svgz.floatPrecision", JsonValue::Number(JsonNumber::PosInt(n))).is_empty());
    }
    let low = check("floatPrecision", JsonValue::Number(JsonNumber::NegInt(-1)));
    assert_eq!(low.len(), 1);
    assert_eq!(low[0].message, "'floatPrecision' should be between 0 and 20, got -1");
    let high = check("svgz.floatPrecision", JsonValue::Number(JsonNumber::PosInt(21)));
    assert_eq!(high.len(), 1);
    assert_eq!(high[0].property_name, "svgz.floatPrecision");
    let text = check("floatPrecision", JsonValue::String("3".to_string()));
    assert_eq!(text[0].message, "Expected 'floatPrecision' to be a number");
    assert!(check("svgz.path", JsonValue::Null).is_empty());
}
