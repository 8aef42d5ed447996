use dprint_plugin_svgo::config::resolve_config;
use dprint_plugin_svgo::config_map::{ConfigMap, ConfigValue};
use dprint_plugin_svgo::configuration::GlobalConfiguration;
use dprint_plugin_svgo::messages::{
    body_fields, encode_message, encode_outgoing, format_range, format_response_has_data, incoming_message,
    FieldKind, FieldValue, OutgoingBody, CANCEL_FORMAT_KIND, FORMAT_KIND, REGISTER_CONFIG_KIND,
};
use dprint_plugin_svgo::process_loop::IncomingMessage;

#[test]
fn success_message_bytes() {
    let bytes = encode_outgoing(7, OutgoingBody::Success(3));
    assert_eq!(bytes, vec![0, 0, 0, 7, 0, 0, 0, 0, 0, 0, 0, 3, 255, 255, 255, 255]);
}

#[test]
fn data_and_format_response_bytes() {
    let bytes = encode_outgoing(0x0102_0304, OutgoingBody::DataResponse(2, b"ab".to_vec()));
    assert_eq!(bytes, vec![1, 2, 3, 4, 0, 0, 0, 1, 0, 0, 0, 2, 0, 0, 0, 2, b'a', b'b', 255, 255, 255, 255]);

    let none = encode_outgoing(1, OutgoingBody::FormatResponse(9, None));
    assert_eq!(none, vec![0, 0, 0, 1, 0, 0, 0, 14, 0, 0, 0, 9, 0, 0, 0, 0, 255, 255, 255, 255]);

    let some = encode_outgoing(1, OutgoingBody::FormatResponse(9, Some(vec![42])));
    assert_eq!(some, vec![0, 0, 0, 1, 0, 0, 0, 14, 0, 0, 0, 9, 0, 0, 0, 1, 0, 0, 0, 1, 42, 255, 255, 255, 255]);

    let error = encode_outgoing(2, OutgoingBody::Error(5, b"x".to_vec()));
    assert_eq!(error, vec![0, 0, 0, 2, 0, 0, 0, 2, 0, 0, 0, 5, 0, 0, 0, 1, b'x', 255, 255, 255, 255]);
}

#[test]
fn empty_message_bytes() {
    assert_eq!(encode_message(1, 3, &Vec::new()), vec![0, 0, 0, 1, 0, 0, 0, 3, 255, 255, 255, 255]);
}

#[test]
fn layouts_of_requests() {
    assert_eq!(
        body_fields(FORMAT_KIND),
        Some(vec![
            FieldKind::SizedBytes,
            FieldKind::U32,
            FieldKind::U32,
            FieldKind::U32,
            FieldKind::SizedBytes,
            FieldKind::SizedBytes
        ])
    );
    assert_eq!(body_fields(REGISTER_CONFIG_KIND), Some(vec![FieldKind::U32, FieldKind::SizedBytes, FieldKind::SizedBytes]));
    assert_eq!(body_fields(3), Some(vec![]));
    assert_eq!(body_fields(99), None);
}

#[test]
fn requests_to_loop_messages() {
    let format_fields = vec![
        FieldValue::Bytes(b"a.svg".to_vec()),
        FieldValue::U32(0),
        FieldValue::U32(4),
        FieldValue::U32(12),
        FieldValue::Bytes(Vec::new()),
        FieldValue::Bytes(b"<svg>".to_vec()),
    ];
    assert_eq!(incoming_message(FORMAT_KIND, &format_fields), IncomingMessage::Format { config_id: 12 });
    assert_eq!(
        incoming_message(CANCEL_FORMAT_KIND, &vec![FieldValue::U32(100)]),
        IncomingMessage::CancelFormat { message_id: 100 }
    );
    assert_eq!(incoming_message(0, &vec![FieldValue::U32(1)]), IncomingMessage::Unsupported);
    assert_eq!(incoming_message(77, &Vec::new()), IncomingMessage::Unknown { kind: 77 });
    assert_eq!(incoming_message(3, &Vec::new()), IncomingMessage::Close);
}

#[test]
fn ranges_of_format_requests() {
    assert_eq!(format_range(0, 5, 5), None);
    assert_eq!(format_range(0, 4, 5), Some((0, 4)));
    assert_eq!(format_range(1, 5, 5), Some((1, 5)));
}

#[test]
fn format_response_kinds() {
    assert_eq!(format_response_has_data(0), Ok(false));
    assert_eq!(format_response_has_data(1), Ok(true));
    assert_eq!(format_response_has_data(2), Err("Unknown format response kind: 2".to_string()));
}

#[test]
fn unreadable_boolean_setting_is_reported() {
    let mut config = ConfigMap::new();
    config.insert("pretty".to_string(), ConfigValue::String("yes".to_string()));
    let result = resolve_config(config, GlobalConfiguration::empty());

    assert_eq!(result.config.is_pretty(), Some(true));
    assert_eq!(result.diagnostics.len(), 1);
    assert_eq!(result.diagnostics[0].property_name, "pretty");
    assert!(!result.diagnostics[0].message.is_empty());
}
