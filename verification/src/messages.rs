use vstd::prelude::*;

use crate::process_loop::IncomingMessage;
use crate::text::{concat, u32_text};
use crate::text::decimal_text;

verus! {

/// The kinds of the process plugin messages, as they are written on the wire.
pub const SUCCESS_KIND: u32 = 0;
pub const DATA_RESPONSE_KIND: u32 = 1;
pub const ERROR_KIND: u32 = 2;
pub const CLOSE_KIND: u32 = 3;
pub const IS_ALIVE_KIND: u32 = 4;
pub const GET_PLUGIN_INFO_KIND: u32 = 5;
pub const GET_LICENSE_TEXT_KIND: u32 = 6;
pub const REGISTER_CONFIG_KIND: u32 = 7;
pub const RELEASE_CONFIG_KIND: u32 = 8;
pub const GET_CONFIG_DIAGNOSTICS_KIND: u32 = 9;
pub const GET_FILE_MATCHING_INFO_KIND: u32 = 10;
pub const GET_RESOLVED_CONFIG_KIND: u32 = 11;
pub const CHECK_CONFIG_UPDATES_KIND: u32 = 12;
pub const FORMAT_KIND: u32 = 13;
pub const FORMAT_RESPONSE_KIND: u32 = 14;
pub const CANCEL_FORMAT_KIND: u32 = 15;
pub const HOST_FORMAT_KIND: u32 = 16;

/// A field of a message body: a big-endian `u32`, or a `u32` length followed
/// by that many bytes.
#[derive(Debug, Clone, Copy, PartialEq, Eq)]
pub enum FieldKind {
    U32,
    SizedBytes,
}

/// A field as read or to be written.
#[derive(Debug, Clone, PartialEq, Eq)]
pub enum FieldValue {
    U32(u32),
    Bytes(Vec<u8>),
}

/// The fields of the body of a message of kind `kind`, in order, or `None`
/// for a kind the protocol does not know (such a message has no body and no
/// closing success bytes). A format response's data, if any, follows its
/// two fields (see `format_response_has_data`).
pub open spec fn body_layout(kind: u32) -> Option<Seq<FieldKind>> {
    if kind == SUCCESS_KIND || kind == RELEASE_CONFIG_KIND || kind == GET_CONFIG_DIAGNOSTICS_KIND
        || kind == GET_FILE_MATCHING_INFO_KIND || kind == GET_RESOLVED_CONFIG_KIND || kind
        == CANCEL_FORMAT_KIND {
        Some(seq![FieldKind::U32])
    } else if kind == DATA_RESPONSE_KIND || kind == ERROR_KIND {
        Some(seq![FieldKind::U32, FieldKind::SizedBytes])
    } else if kind == CLOSE_KIND || kind == IS_ALIVE_KIND || kind == GET_PLUGIN_INFO_KIND || kind
        == GET_LICENSE_TEXT_KIND {
        Some(seq![])
    } else if kind == REGISTER_CONFIG_KIND {
        Some(seq![FieldKind::U32, FieldKind::SizedBytes, FieldKind::SizedBytes])
    } else if kind == CHECK_CONFIG_UPDATES_KIND {
        Some(seq![FieldKind::SizedBytes])
    } else if kind == FORMAT_KIND {
        Some(
            seq![
                FieldKind::SizedBytes,
                FieldKind::U32,
                FieldKind::U32,
                FieldKind::U32,
                FieldKind::SizedBytes,
                FieldKind::SizedBytes,
            ],
        )
    } else if kind == FORMAT_RESPONSE_KIND {
        Some(seq![FieldKind::U32, FieldKind::U32])
    } else if kind == HOST_FORMAT_KIND {
        Some(
            seq![
                FieldKind::U32,
                FieldKind::SizedBytes,
                FieldKind::U32,
                FieldKind::U32,
                FieldKind::SizedBytes,
                FieldKind::SizedBytes,
            ],
        )
    } else {
        None
    }
}

/// The fields to read for the body of a message of kind `kind`.
pub fn body_fields(kind: u32) -> (r: Option<Vec<FieldKind>>)
    ensures
        match r {
            Some(v) => body_layout(kind) == Some(v@),
            None => body_layout(kind) is None,
        },
{
    if kind == SUCCESS_KIND || kind == RELEASE_CONFIG_KIND || kind == GET_CONFIG_DIAGNOSTICS_KIND
        || kind == GET_FILE_MATCHING_INFO_KIND || kind == GET_RESOLVED_CONFIG_KIND || kind
        == CANCEL_FORMAT_KIND {
        Some(vec![FieldKind::U32])
    } else if kind == DATA_RESPONSE_KIND || kind == ERROR_KIND {
        Some(vec![FieldKind::U32, FieldKind::SizedBytes])
    } else if kind == CLOSE_KIND || kind == IS_ALIVE_KIND || kind == GET_PLUGIN_INFO_KIND || kind
        == GET_LICENSE_TEXT_KIND {
        Some(Vec::new())
    } else if kind == REGISTER_CONFIG_KIND {
        Some(vec![FieldKind::U32, FieldKind::SizedBytes, FieldKind::SizedBytes])
    } else if kind == CHECK_CONFIG_UPDATES_KIND {
        Some(vec![FieldKind::SizedBytes])
    } else if kind == FORMAT_KIND {
        Some(
            vec![
                FieldKind::SizedBytes,
                FieldKind::U32,
                FieldKind::U32,
                FieldKind::U32,
                FieldKind::SizedBytes,
                FieldKind::SizedBytes,
            ],
        )
    } else if kind == FORMAT_RESPONSE_KIND {
        Some(vec![FieldKind::U32, FieldKind::U32])
    } else if kind == HOST_FORMAT_KIND {
        Some(
            vec![
                FieldKind::U32,
                FieldKind::SizedBytes,
                FieldKind::U32,
                FieldKind::U32,
                FieldKind::SizedBytes,
                FieldKind::SizedBytes,
            ],
        )
    } else {
        None
    }
}

/// The message for a format response kind other than `0` (no change) or `1`
/// (data follows).
pub open spec fn unknown_response_kind_text(response_kind: u32) -> Seq<char> {
    "Unknown format response kind: "@ + decimal_text(response_kind as int)
}

/// Whether a format response with response kind `response_kind` carries
/// data after its fields: `0` says no, `1` says yes, anything else is an
/// error.
pub fn format_response_has_data(response_kind: u32) -> (r: Result<bool, String>)
    ensures
        response_kind == 0 ==> r == Ok::<bool, String>(false),
        response_kind == 1 ==> r == Ok::<bool, String>(true),
        response_kind > 1 ==> (r matches Err(m) && m@ == unknown_response_kind_text(response_kind)),
{
    if response_kind == 0 {
        Ok(false)
    } else if response_kind == 1 {
        Ok(true)
    } else {
        Err(concat("Unknown format response kind: ", u32_text(response_kind).as_str()))
    }
}

/// Whether `values` are fields of the kinds `kinds`, one for one.
pub open spec fn fields_match(values: Seq<FieldValue>, kinds: Seq<FieldKind>) -> bool {
    &&& values.len() == kinds.len()
    &&& forall|i: int|
        0 <= i < values.len() ==> match kinds[i] {
            FieldKind::U32 => #[trigger] values[i] is U32,
            FieldKind::SizedBytes => values[i] is Bytes,
        }
}

/// The `u32` in field `i`.
pub open spec fn u32_at(values: Seq<FieldValue>, i: int) -> u32 {
    match values[i] {
        FieldValue::U32(v) => v,
        FieldValue::Bytes(_) => 0,
    }
}

/// What the message loop is asked by a message of kind `kind` whose body
/// fields are `values`.
pub open spec fn incoming_model(kind: u32, values: Seq<FieldValue>) -> IncomingMessage {
    if kind == CLOSE_KIND {
        IncomingMessage::Close
    } else if kind == IS_ALIVE_KIND {
        IncomingMessage::IsAlive
    } else if kind == GET_PLUGIN_INFO_KIND {
        IncomingMessage::GetPluginInfo
    } else if kind == GET_LICENSE_TEXT_KIND {
        IncomingMessage::GetLicenseText
    } else if kind == REGISTER_CONFIG_KIND {
        IncomingMessage::RegisterConfig { config_id: u32_at(values, 0) }
    } else if kind == RELEASE_CONFIG_KIND {
        IncomingMessage::ReleaseConfig { config_id: u32_at(values, 0) }
    } else if kind == GET_CONFIG_DIAGNOSTICS_KIND {
        IncomingMessage::GetConfigDiagnostics { config_id: u32_at(values, 0) }
    } else if kind == GET_FILE_MATCHING_INFO_KIND {
        IncomingMessage::GetFileMatchingInfo { config_id: u32_at(values, 0) }
    } else if kind == GET_RESOLVED_CONFIG_KIND {
        IncomingMessage::GetResolvedConfig { config_id: u32_at(values, 0) }
    } else if kind == CHECK_CONFIG_UPDATES_KIND {
        IncomingMessage::CheckConfigUpdates
    } else if kind == FORMAT_KIND {
        IncomingMessage::Format { config_id: u32_at(values, 3) }
    } else if kind == CANCEL_FORMAT_KIND {
        IncomingMessage::CancelFormat { message_id: u32_at(values, 0) }
    } else if kind == SUCCESS_KIND || kind == DATA_RESPONSE_KIND || kind == ERROR_KIND || kind
        == FORMAT_RESPONSE_KIND || kind == HOST_FORMAT_KIND {
        IncomingMessage::Unsupported
    } else {
        IncomingMessage::Unknown { kind }
    }
}

/// Each message kind of the protocol reads as its own request: close (3),
/// liveness check (4), plugin info (5), license text (6), register (7) and
/// release (8) of the configuration in the first field, its diagnostics (9),
/// file matching (10) and resolved configuration (11), the config-update
/// check (12), a format for the configuration in the fourth field (13), and
/// the cancel of the message in the first field (15); the kinds only a
/// plugin sends (0, 1, 2, 14, 16) are unsupported, and any other kind is
/// unknown.
pub proof fn lemma_message_kinds(values: Seq<FieldValue>, kind: u32)
    ensures
        incoming_model(3, values) == IncomingMessage::Close,
        incoming_model(4, values) == IncomingMessage::IsAlive,
        incoming_model(5, values) == IncomingMessage::GetPluginInfo,
        incoming_model(6, values) == IncomingMessage::GetLicenseText,
        incoming_model(7, values) == (IncomingMessage::RegisterConfig { config_id: u32_at(values, 0) }),
        incoming_model(8, values) == (IncomingMessage::ReleaseConfig { config_id: u32_at(values, 0) }),
        incoming_model(9, values) == (IncomingMessage::GetConfigDiagnostics { config_id: u32_at(values, 0) }),
        incoming_model(10, values) == (IncomingMessage::GetFileMatchingInfo { config_id: u32_at(values, 0) }),
        incoming_model(11, values) == (IncomingMessage::GetResolvedConfig { config_id: u32_at(values, 0) }),
        incoming_model(12, values) == IncomingMessage::CheckConfigUpdates,
        incoming_model(13, values) == (IncomingMessage::Format { config_id: u32_at(values, 3) }),
        incoming_model(15, values) == (IncomingMessage::CancelFormat { message_id: u32_at(values, 0) }),
        kind == 0 || kind == 1 || kind == 2 || kind == 14 || kind == 16 ==> incoming_model(kind, values)
            == IncomingMessage::Unsupported,
        kind > 16 ==> incoming_model(kind, values) == (IncomingMessage::Unknown { kind }),
{
}

/// The kind of message that asks for `msg`, for the requests a host sends.
pub open spec fn request_kind(msg: IncomingMessage) -> Option<u32> {
    match msg {
        IncomingMessage::Close => Some(3),
        IncomingMessage::IsAlive => Some(4),
        IncomingMessage::GetPluginInfo => Some(5),
        IncomingMessage::GetLicenseText => Some(6),
        IncomingMessage::RegisterConfig { .. } => Some(7),
        IncomingMessage::ReleaseConfig { .. } => Some(8),
        IncomingMessage::GetConfigDiagnostics { .. } => Some(9),
        IncomingMessage::GetFileMatchingInfo { .. } => Some(10),
        IncomingMessage::GetResolvedConfig { .. } => Some(11),
        IncomingMessage::CheckConfigUpdates => Some(12),
        IncomingMessage::Format { .. } => Some(13),
        IncomingMessage::CancelFormat { .. } => Some(15),
        _ => None,
    }
}

/// Reading a request kind gives back a request of that very kind, so two
/// different request kinds never read as the same request.
pub proof fn lemma_request_kinds_distinct(kind: u32, other: u32, values: Seq<FieldValue>, others: Seq<FieldValue>)
    requires
        3 <= kind <= 13 || kind == 15,
        3 <= other <= 13 || other == 15,
        kind != other,
    ensures
        request_kind(incoming_model(kind, values)) == Some(kind),
        incoming_model(kind, values) != incoming_model(other, others),
{
    lemma_message_kinds(values, kind);
    lemma_message_kinds(others, other);
    assert(request_kind(incoming_model(other, others)) == Some(other));
}

fn u32_field(values: &Vec<FieldValue>, i: usize) -> (r: u32)
    requires
        i < values.len(),
        values@[i as int] is U32,
    ensures
        r == u32_at(values@, i as int),
{
    match &values[i] {
        FieldValue::U32(v) => *v,
        FieldValue::Bytes(_) => 0,
    }
}

/// What the message loop is asked by a message of kind `kind` whose body
/// fields `values` were read as `body_fields(kind)` lists them.
pub fn incoming_message(kind: u32, values: &Vec<FieldValue>) -> (r: IncomingMessage)
    requires
        body_layout(kind) matches Some(kinds) ==> fields_match(values@, kinds),
    ensures
        r == incoming_model(kind, values@),
{
    if kind == CLOSE_KIND {
        IncomingMessage::Close
    } else if kind == IS_ALIVE_KIND {
        IncomingMessage::IsAlive
    } else if kind == GET_PLUGIN_INFO_KIND {
        IncomingMessage::GetPluginInfo
    } else if kind == GET_LICENSE_TEXT_KIND {
        IncomingMessage::GetLicenseText
    } else if kind == REGISTER_CONFIG_KIND {
        assert(values@[0] is U32);
        IncomingMessage::RegisterConfig { config_id: u32_field(values, 0) }
    } else if kind == RELEASE_CONFIG_KIND {
        assert(values@[0] is U32);
        IncomingMessage::ReleaseConfig { config_id: u32_field(values, 0) }
    } else if kind == GET_CONFIG_DIAGNOSTICS_KIND {
        assert(values@[0] is U32);
        IncomingMessage::GetConfigDiagnostics { config_id: u32_field(values, 0) }
    } else if kind == GET_FILE_MATCHING_INFO_KIND {
        assert(values@[0] is U32);
        IncomingMessage::GetFileMatchingInfo { config_id: u32_field(values, 0) }
    } else if kind == GET_RESOLVED_CONFIG_KIND {
        assert(values@[0] is U32);
        IncomingMessage::GetResolvedConfig { config_id: u32_field(values, 0) }
    } else if kind == CHECK_CONFIG_UPDATES_KIND {
        IncomingMessage::CheckConfigUpdates
    } else if kind == FORMAT_KIND {
        assert(values@[3] is U32);
        IncomingMessage::Format { config_id: u32_field(values, 3) }
    } else if kind == CANCEL_FORMAT_KIND {
        assert(values@[0] is U32);
        IncomingMessage::CancelFormat { message_id: u32_field(values, 0) }
    } else if kind == SUCCESS_KIND || kind == DATA_RESPONSE_KIND || kind == ERROR_KIND || kind
        == FORMAT_RESPONSE_KIND || kind == HOST_FORMAT_KIND {
        IncomingMessage::Unsupported
    } else {
        IncomingMessage::Unknown { kind }
    }
}

/// The range that a format request asks for: none when it spans the whole
/// text (from `0` to the text's length, taken as a `u32`), else from `start`
/// to `end`.
pub open spec fn range_model(start: u32, end: u32, text_len: usize) -> Option<(usize, usize)> {
    if start == 0 && end == text_len as u32 {
        None
    } else {
        Some((start as usize, end as usize))
    }
}

/// The range that a format request with byte indexes `start` and `end` asks
/// of a text of `text_len` bytes.
pub fn format_range(start: u32, end: u32, text_len: usize) -> (r: Option<(usize, usize)>)
    ensures
        r == range_model(start, end, text_len),
{
    if start == 0 && end == text_len as u32 {
        None
    } else {
        Some((start as usize, end as usize))
    }
}

/// The four bytes of `v`, most significant first.
pub open spec fn be_bytes(v: u32) -> Seq<u8> {
    seq![
        (v / 16777216) as u8,
        (v / 65536 % 256) as u8,
        (v / 256 % 256) as u8,
        (v % 256) as u8,
    ]
}

/// The bytes that close every known message.
pub open spec fn success_bytes() -> Seq<u8> {
    seq![255u8, 255u8, 255u8, 255u8]
}

/// The wire form of one field: a `u32`, or the byte count (as a `u32`) and
/// the bytes.
pub open spec fn field_bytes(f: FieldValue) -> Seq<u8> {
    match f {
        FieldValue::U32(v) => be_bytes(v),
        FieldValue::Bytes(b) => be_bytes(b@.len() as u32) + b@,
    }
}

/// The wire form of fields, one after the other.
pub open spec fn fields_bytes(fs: Seq<FieldValue>) -> Seq<u8>
    decreases fs.len(),
{
    if fs.len() == 0 {
        Seq::empty()
    } else {
        fields_bytes(fs.drop_last()) + field_bytes(fs.last())
    }
}

/// The wire form of a message: its id, its kind, its fields, and the
/// success bytes.
pub open spec fn message_bytes(id: u32, kind: u32, fs: Seq<FieldValue>) -> Seq<u8> {
    be_bytes(id) + be_bytes(kind) + fields_bytes(fs) + success_bytes()
}

fn push_u32(out: &mut Vec<u8>, v: u32)
    ensures
        final(out)@ == old(out)@ + be_bytes(v),
{
    out.push((v / 16777216) as u8);
    out.push((v / 65536 % 256) as u8);
    out.push((v / 256 % 256) as u8);
    out.push((v % 256) as u8);
    assert(out@ =~= old(out)@ + be_bytes(v));
}

/// Writes a message: its id, its kind, its fields, and the success bytes.
pub fn encode_message(id: u32, kind: u32, fields: &Vec<FieldValue>) -> (r: Vec<u8>)
    ensures
        r@ == message_bytes(id, kind, fields@),
{
    let mut out: Vec<u8> = Vec::new();
    push_u32(&mut out, id);
    push_u32(&mut out, kind);
    let ghost head = out@;
    let mut i: usize = 0;
    while i < fields.len()
        invariant
            i <= fields.len(),
            head == be_bytes(id) + be_bytes(kind),
            out@ == head + fields_bytes(fields@.take(i as int)),
        decreases fields.len() - i,
    {
        let ghost before = out@;
        match &fields[i] {
            FieldValue::U32(v) => push_u32(&mut out, *v),
            FieldValue::Bytes(b) => {
                push_u32(&mut out, b.len() as u32);
                let mut j: usize = 0;
                let ghost mid = out@;
                while j < b.len()
                    invariant
                        j <= b.len(),
                        out@ == mid + b@.take(j as int),
                    decreases b.len() - j,
                {
                    out.push(b[j]);
                    j = j + 1;
                    assert(out@ =~= mid + b@.take(j as int));
                }
                assert(b@.take(b.len() as int) =~= b@);
            },
        }
        assert(fields@.take(i + 1).drop_last() =~= fields@.take(i as int));
        assert(out@ =~= head + fields_bytes(fields@.take(i + 1)));
        i = i + 1;
    }
    assert(fields@.take(fields.len() as int) =~= fields@);
    out.push(255u8);
    out.push(255u8);
    out.push(255u8);
    out.push(255u8);
    assert(out@ =~= message_bytes(id, kind, fields@));
    out
}

/// A message that the plugin sends.
#[derive(Debug, Clone, PartialEq, Eq)]
pub enum OutgoingBody {
    /// Acknowledges message `0`.
    Success(u32),
    /// Answers message `0` with the data `1`.
    DataResponse(u32, Vec<u8>),
    /// Answers message `0` with the error text `1`.
    Error(u32, Vec<u8>),
    /// Answers the format request `0`: the formatted bytes, or none for "no
    /// change".
    FormatResponse(u32, Option<Vec<u8>>),
}

/// The kind and the fields of an outgoing message.
pub open spec fn outgoing_fields(body: OutgoingBody) -> (u32, Seq<FieldValue>) {
    match body {
        OutgoingBody::Success(m) => (SUCCESS_KIND, seq![FieldValue::U32(m)]),
        OutgoingBody::DataResponse(m, d) => (DATA_RESPONSE_KIND, seq![FieldValue::U32(m), FieldValue::Bytes(d)]),
        OutgoingBody::Error(m, d) => (ERROR_KIND, seq![FieldValue::U32(m), FieldValue::Bytes(d)]),
        OutgoingBody::FormatResponse(m, None) => (FORMAT_RESPONSE_KIND, seq![FieldValue::U32(m), FieldValue::U32(0)]),
        OutgoingBody::FormatResponse(m, Some(d)) => (
            FORMAT_RESPONSE_KIND,
            seq![FieldValue::U32(m), FieldValue::U32(1), FieldValue::Bytes(d)],
        ),
    }
}

/// Writes the message with id `id` that carries `body`.
pub fn encode_outgoing(id: u32, body: OutgoingBody) -> (r: Vec<u8>)
    ensures
        r@ == message_bytes(id, outgoing_fields(body).0, outgoing_fields(body).1),
{
    let ghost model = outgoing_fields(body);
    let (kind, fields) = match body {
        OutgoingBody::Success(m) => (SUCCESS_KIND, vec![FieldValue::U32(m)]),
        OutgoingBody::DataResponse(m, d) => (DATA_RESPONSE_KIND, vec![FieldValue::U32(m), FieldValue::Bytes(d)]),
        OutgoingBody::Error(m, d) => (ERROR_KIND, vec![FieldValue::U32(m), FieldValue::Bytes(d)]),
        OutgoingBody::FormatResponse(m, None) => (FORMAT_RESPONSE_KIND, vec![FieldValue::U32(m), FieldValue::U32(0)]),
        OutgoingBody::FormatResponse(m, Some(d)) => (
            FORMAT_RESPONSE_KIND,
            vec![FieldValue::U32(m), FieldValue::U32(1), FieldValue::Bytes(d)],
        ),
    };
    assert(fields@ =~= model.1);
    encode_message(id, kind, &fields)
}

/// What the plugin writes is what a reader of the protocol expects: the
/// fields of every outgoing message follow the layout of its kind, and only a
/// format response with response kind `1` carries one more field, its bytes.
pub proof fn lemma_outgoing_follows_layout(body: OutgoingBody)
    ensures
        ({
            let (kind, fs) = outgoing_fields(body);
            &&& body_layout(kind) is Some
            &&& body_layout(kind)->0.len() <= fs.len()
            &&& fields_match(fs.take(body_layout(kind)->0.len() as int), body_layout(kind)->0)
            &&& (fs.len() == body_layout(kind)->0.len() || (kind == FORMAT_RESPONSE_KIND && fs[1]
                == FieldValue::U32(1) && fs.len() == 3 && fs[2] is Bytes))
        }),
{
    let (kind, fs) = outgoing_fields(body);
    let kinds = body_layout(kind)->0;
    assert(fs.take(kinds.len() as int) =~= fs.subrange(0, kinds.len() as int));
}

} // verus!
