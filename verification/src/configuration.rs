use vstd::prelude::*;

use crate::config_map::{config_model, ConfigMap, ConfigModel, ConfigValue};
use crate::entries::{map_get, map_remove};
use crate::text::{
    bool_parse_error_text, concat, decimal_text, i32_text, parse_bool, parse_u8, str_eq,
    u8_parse_error_text, u8_text_value,
};

verus! {

/// The kind of newline that output uses.
#[derive(Debug, Clone, Copy, PartialEq, Eq)]
pub enum NewLineKind {
    /// Decided from the last newline of the file.
    Auto,
    /// `\n`.
    LineFeed,
    /// `\r\n`.
    CarriageReturnLineFeed,
}

/// Settings shared by all plugins of the host.
#[derive(Debug, Clone, Copy, PartialEq, Eq)]
pub struct GlobalConfiguration {
    pub line_width: Option<u32>,
    pub use_tabs: Option<bool>,
    pub indent_width: Option<u8>,
    pub new_line_kind: Option<NewLineKind>,
}

impl GlobalConfiguration {
    /// A global configuration that sets nothing.
    pub fn empty() -> (r: GlobalConfiguration)
        ensures
            r.line_width is None,
            r.use_tabs is None,
            r.indent_width is None,
            r.new_line_kind is None,
    {
        GlobalConfiguration { line_width: None, use_tabs: None, indent_width: None, new_line_kind: None }
    }
}

/// A problem found in the configuration: the property and the message.
#[derive(Debug, Clone, PartialEq, Eq)]
pub struct ConfigurationDiagnostic {
    pub property_name: String,
    pub message: String,
}

/// A diagnostic as the pair of its property name and its message.
pub open spec fn diagnostic_model(d: ConfigurationDiagnostic) -> (Seq<char>, Seq<char>) {
    (d.property_name@, d.message@)
}

/// The diagnostics, each as a pair of property name and message.
pub open spec fn diagnostics_model(ds: Seq<ConfigurationDiagnostic>) -> Seq<(Seq<char>, Seq<char>)> {
    ds.map_values(|d: ConfigurationDiagnostic| diagnostic_model(d))
}

/// A resolved configuration with the diagnostics found while resolving it.
#[derive(Debug)]
pub struct ResolveConfigurationResult<T> {
    pub diagnostics: Vec<ConfigurationDiagnostic>,
    pub config: T,
}

/// The text that a raw value is read from, as the host reads scalar settings.
pub enum RawText {
    /// The value was absent or null.
    Missing,
    /// The value was an array or an object.
    Unsupported,
    /// The text of a string, number or boolean.
    Text(Seq<char>),
}

/// The text of a boolean.
pub open spec fn bool_text(b: bool) -> Seq<char> {
    if b {
        "true"@
    } else {
        "false"@
    }
}

/// The text that the raw value `v` (if any) is parsed from.
pub open spec fn raw_text(v: Option<ConfigModel>) -> RawText {
    match v {
        None => RawText::Missing,
        Some(ConfigModel::Null) => RawText::Missing,
        Some(ConfigModel::Array(_)) => RawText::Unsupported,
        Some(ConfigModel::Object(_)) => RawText::Unsupported,
        Some(ConfigModel::Str(s)) => RawText::Text(s),
        Some(ConfigModel::Number(n)) => RawText::Text(decimal_text(n as int)),
        Some(ConfigModel::Bool(b)) => RawText::Text(bool_text(b)),
    }
}

/// The message given for an array or object where a scalar is expected.
pub open spec fn unsupported_message() -> Seq<char> {
    "Arrays and objects are not supported for this value"@
}

/// The outcome of reading a setting whose raw value is `v` with `parse`: the
/// value read, and the diagnostics it gives under the name `key`.
pub open spec fn read_setting<T>(
    v: Option<ConfigModel>,
    key: Seq<char>,
    parse: spec_fn(Seq<char>) -> Result<T, Seq<char>>,
) -> (Option<T>, Seq<(Seq<char>, Seq<char>)>) {
    match raw_text(v) {
        RawText::Missing => (None, Seq::empty()),
        RawText::Unsupported => (None, seq![(key, unsupported_message())]),
        RawText::Text(t) => match parse(t) {
            Ok(x) => (Some(x), Seq::empty()),
            Err(m) => (None, seq![(key, m)]),
        },
    }
}

/// How a `u8` setting is read from its text.
pub open spec fn u8_parser() -> spec_fn(Seq<char>) -> Result<u8, Seq<char>> {
    |t: Seq<char>|
        match u8_text_value(t) {
            Some(v) => Ok(v),
            None => Err(u8_parse_error_text(t)),
        }
}

/// How a boolean setting is read from its text.
pub open spec fn bool_parser() -> spec_fn(Seq<char>) -> Result<bool, Seq<char>> {
    |t: Seq<char>|
        if t == "true"@ {
            Ok(true)
        } else if t == "false"@ {
            Ok(false)
        } else {
            Err(bool_parse_error_text(t))
        }
}

/// The message given for text that names no newline kind.
pub open spec fn invalid_value_message(t: Seq<char>) -> Seq<char> {
    "Found invalid value '"@ + t + "'."@
}

/// How a newline kind is read from its text.
pub open spec fn new_line_kind_parser() -> spec_fn(Seq<char>) -> Result<NewLineKind, Seq<char>> {
    |t: Seq<char>|
        if t == "auto"@ {
            Ok(NewLineKind::Auto)
        } else if t == "lf"@ {
            Ok(NewLineKind::LineFeed)
        } else if t == "crlf"@ {
            Ok(NewLineKind::CarriageReturnLineFeed)
        } else {
            Err(invalid_value_message(t))
        }
}

/// How a string setting is read from its text: as it is.
pub open spec fn string_parser() -> spec_fn(Seq<char>) -> Result<Seq<char>, Seq<char>> {
    |t: Seq<char>| Ok(t)
}

/// The raw text of a setting, taken out of the map.
pub enum TakenText {
    Missing,
    Unsupported,
    Text(String),
}

/// Removes `key` from `config` and gives the text its value is read from.
fn take_text(config: &mut ConfigMap, key: &str) -> (r: TakenText)
    ensures
        final(config)@ == map_remove(old(config)@, key@),
        match raw_text(map_get(old(config)@, key@)) {
            RawText::Missing => r is Missing,
            RawText::Unsupported => r is Unsupported,
            RawText::Text(t) => r matches TakenText::Text(s) && s@ == t,
        },
{
    match config.shift_remove(key) {
        None => TakenText::Missing,
        Some(ConfigValue::Null) => TakenText::Missing,
        Some(ConfigValue::Array(_)) => TakenText::Unsupported,
        Some(ConfigValue::Object(_)) => TakenText::Unsupported,
        Some(ConfigValue::String(s)) => TakenText::Text(s),
        Some(ConfigValue::Number(n)) => TakenText::Text(i32_text(n)),
        Some(ConfigValue::Bool(b)) => {
            let t = if b {
                "true".to_owned()
            } else {
                "false".to_owned()
            };
            TakenText::Text(t)
        },
    }
}

/// Adds a diagnostic for `key` with `message`.
fn push_diagnostic(diagnostics: &mut Vec<ConfigurationDiagnostic>, key: &str, message: String)
    ensures
        diagnostics_model(final(diagnostics)@) == diagnostics_model(old(diagnostics)@).push(
            (key@, message@),
        ),
{
    let ghost before = diagnostics@;
    diagnostics.push(ConfigurationDiagnostic { property_name: key.to_owned(), message });
    assert(diagnostics_model(diagnostics@) =~= diagnostics_model(before).push((key@, message@)));
}

/// Takes the `u8` setting `key` out of `config`; a value that cannot be read
/// adds a diagnostic.
pub fn get_nullable_u8(
    config: &mut ConfigMap,
    key: &str,
    diagnostics: &mut Vec<ConfigurationDiagnostic>,
) -> (r: Option<u8>)
    ensures
        final(config)@ == map_remove(old(config)@, key@),
        r == read_setting(map_get(old(config)@, key@), key@, u8_parser()).0,
        diagnostics_model(final(diagnostics)@) == diagnostics_model(old(diagnostics)@) + read_setting(
            map_get(old(config)@, key@),
            key@,
            u8_parser(),
        ).1,
{
    let ghost before = diagnostics_model(diagnostics@);
    match take_text(config, key) {
        TakenText::Missing => {
            assert(before + Seq::empty() =~= before);
            None
        },
        TakenText::Unsupported => {
            push_diagnostic(diagnostics, key, "Arrays and objects are not supported for this value".to_owned());
            None
        },
        TakenText::Text(t) => match parse_u8(t.as_str()) {
            Ok(v) => {
                assert(before + Seq::empty() =~= before);
                Some(v)
            },
            Err(m) => {
                push_diagnostic(diagnostics, key, m);
                None
            },
        },
    }
}

/// Takes the boolean setting `key` out of `config`; a value that cannot be
/// read adds a diagnostic.
pub fn get_nullable_bool(
    config: &mut ConfigMap,
    key: &str,
    diagnostics: &mut Vec<ConfigurationDiagnostic>,
) -> (r: Option<bool>)
    ensures
        final(config)@ == map_remove(old(config)@, key@),
        r == read_setting(map_get(old(config)@, key@), key@, bool_parser()).0,
        diagnostics_model(final(diagnostics)@) == diagnostics_model(old(diagnostics)@) + read_setting(
            map_get(old(config)@, key@),
            key@,
            bool_parser(),
        ).1,
{
    let ghost before = diagnostics_model(diagnostics@);
    match take_text(config, key) {
        TakenText::Missing => {
            assert(before + Seq::empty() =~= before);
            None
        },
        TakenText::Unsupported => {
            push_diagnostic(diagnostics, key, "Arrays and objects are not supported for this value".to_owned());
            None
        },
        TakenText::Text(t) => match parse_bool(t.as_str()) {
            Ok(v) => {
                proof {
                    reveal_strlit("true");
                    reveal_strlit("false");
                    assert("true"@.len() != "false"@.len());
                    assert((bool_parser())(t@) == Ok::<bool, Seq<char>>(v));
                }
                assert(before + Seq::empty() =~= before);
                Some(v)
            },
            Err(m) => {
                push_diagnostic(diagnostics, key, m);
                None
            },
        },
    }
}

/// Takes the newline-kind setting `key` out of `config`; a value that cannot
/// be read adds a diagnostic.
pub fn get_nullable_new_line_kind(
    config: &mut ConfigMap,
    key: &str,
    diagnostics: &mut Vec<ConfigurationDiagnostic>,
) -> (r: Option<NewLineKind>)
    ensures
        final(config)@ == map_remove(old(config)@, key@),
        r == read_setting(map_get(old(config)@, key@), key@, new_line_kind_parser()).0,
        diagnostics_model(final(diagnostics)@) == diagnostics_model(old(diagnostics)@) + read_setting(
            map_get(old(config)@, key@),
            key@,
            new_line_kind_parser(),
        ).1,
{
    let ghost before = diagnostics_model(diagnostics@);
    match take_text(config, key) {
        TakenText::Missing => {
            assert(before + Seq::empty() =~= before);
            None
        },
        TakenText::Unsupported => {
            push_diagnostic(diagnostics, key, "Arrays and objects are not supported for this value".to_owned());
            None
        },
        TakenText::Text(t) => {
            if str_eq(t.as_str(), "auto") {
                assert(before + Seq::empty() =~= before);
                Some(NewLineKind::Auto)
            } else if str_eq(t.as_str(), "lf") {
                assert(before + Seq::empty() =~= before);
                Some(NewLineKind::LineFeed)
            } else if str_eq(t.as_str(), "crlf") {
                assert(before + Seq::empty() =~= before);
                Some(NewLineKind::CarriageReturnLineFeed)
            } else {
                let m = concat(concat("Found invalid value '", t.as_str()).as_str(), "'.");
                push_diagnostic(diagnostics, key, m);
                None
            }
        },
    }
}

/// Takes the string setting `key` out of `config`; an array or object adds a
/// diagnostic.
pub fn get_nullable_string(
    config: &mut ConfigMap,
    key: &str,
    diagnostics: &mut Vec<ConfigurationDiagnostic>,
) -> (r: Option<String>)
    ensures
        final(config)@ == map_remove(old(config)@, key@),
        match r {
            Some(s) => read_setting(map_get(old(config)@, key@), key@, string_parser()).0 == Some(s@),
            None => read_setting(map_get(old(config)@, key@), key@, string_parser()).0 is None,
        },
        diagnostics_model(final(diagnostics)@) == diagnostics_model(old(diagnostics)@) + read_setting(
            map_get(old(config)@, key@),
            key@,
            string_parser(),
        ).1,
{
    let ghost before = diagnostics_model(diagnostics@);
    match take_text(config, key) {
        TakenText::Missing => {
            assert(before + Seq::empty() =~= before);
            None
        },
        TakenText::Unsupported => {
            push_diagnostic(diagnostics, key, "Arrays and objects are not supported for this value".to_owned());
            None
        },
        TakenText::Text(t) => {
            assert(before + Seq::empty() =~= before);
            Some(t)
        },
    }
}

} // verus!
