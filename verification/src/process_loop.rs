use vstd::prelude::*;

use crate::config_map::ConfigMap;
use crate::entries::{keys_unique, map_insert_all};
use crate::text::{concat, decimal_text, u32_text};

verus! {

/// What a message from the host asks for, as far as the loop's decisions go
/// (the payloads stay with the caller).
#[derive(Debug, Clone, Copy, PartialEq, Eq)]
pub enum IncomingMessage {
    Close,
    IsAlive,
    GetPluginInfo,
    GetLicenseText,
    RegisterConfig { config_id: u32 },
    ReleaseConfig { config_id: u32 },
    GetConfigDiagnostics { config_id: u32 },
    GetFileMatchingInfo { config_id: u32 },
    GetResolvedConfig { config_id: u32 },
    CheckConfigUpdates,
    Format { config_id: u32 },
    CancelFormat { message_id: u32 },
    /// A message that only a plugin sends (success, data, error, format
    /// response, host format).
    Unsupported,
    /// A message kind that the protocol does not know.
    Unknown { kind: u32 },
}

/// Where the loop takes its next event from.
#[derive(Debug, Clone, Copy, PartialEq, Eq)]
pub enum EventSource {
    /// A message from the host, or the end of the input.
    Input,
    /// A format that finished.
    Completion,
}

/// What happens to the loop.
#[derive(Debug, Clone, Copy, PartialEq, Eq)]
pub enum LoopEvent {
    /// A message arrived.
    Message { id: u32, body: IncomingMessage },
    /// The input ended (or broke off).
    InputClosed,
    /// A format finished; `succeeded` tells whether it gave a result or an
    /// error.
    FormatDone { message_id: u32, succeeded: bool },
}

/// A reply to send; `message_id` is the id of the message it answers.
#[derive(Debug, Clone, PartialEq, Eq)]
pub enum Reply {
    Success { message_id: u32 },
    PluginInfo { message_id: u32 },
    LicenseText { message_id: u32 },
    /// The diagnostics of the configuration, or none when it is not registered.
    Diagnostics { message_id: u32, config_id: u32, registered: bool },
    FileMatchingInfo { message_id: u32, config_id: u32 },
    ResolvedConfig { message_id: u32, config_id: u32 },
    ConfigUpdates { message_id: u32 },
    /// The result of a format: its text when it succeeded, its error when not.
    FormatResult { message_id: u32, succeeded: bool },
    Error { message_id: u32, text: String },
}

/// What the caller does next.
#[derive(Debug, Clone, PartialEq, Eq)]
pub enum Decision {
    Nothing,
    /// Send `reply` as the message with id `id`.
    Send { id: u32, reply: Reply },
    /// Send `reply` as the message with id `id`, then stop.
    SendAndStop { id: u32, reply: Reply },
    /// Start formatting the request of message `message_id` with the
    /// configuration `config_id`.
    StartFormat { message_id: u32, config_id: u32 },
    /// Signal cancellation to the format of message `message_id`.
    Cancel { message_id: u32 },
}

/// The state of the message loop: the id of the next message sent, the
/// registered configurations, the formats whose reply is still owed, the
/// number of formats running, and whether the input has ended.
#[derive(Debug)]
pub struct LoopState {
    pub next_message_id: u32,
    pub configs: Vec<u32>,
    pub format_tokens: Vec<u32>,
    pub in_flight: usize,
    pub input_closed: bool,
}

/// The model of a reply (texts as sequences).
pub enum ReplyModel {
    Success { message_id: u32 },
    PluginInfo { message_id: u32 },
    LicenseText { message_id: u32 },
    Diagnostics { message_id: u32, config_id: u32, registered: bool },
    FileMatchingInfo { message_id: u32, config_id: u32 },
    ResolvedConfig { message_id: u32, config_id: u32 },
    ConfigUpdates { message_id: u32 },
    FormatResult { message_id: u32, succeeded: bool },
    Error { message_id: u32, text: Seq<char> },
}

impl View for Reply {
    type V = ReplyModel;

    open spec fn view(&self) -> ReplyModel {
        match self {
            Reply::Success { message_id } => ReplyModel::Success { message_id: *message_id },
            Reply::PluginInfo { message_id } => ReplyModel::PluginInfo { message_id: *message_id },
            Reply::LicenseText { message_id } => ReplyModel::LicenseText { message_id: *message_id },
            Reply::Diagnostics { message_id, config_id, registered } => ReplyModel::Diagnostics {
                message_id: *message_id,
                config_id: *config_id,
                registered: *registered,
            },
            Reply::FileMatchingInfo { message_id, config_id } => ReplyModel::FileMatchingInfo {
                message_id: *message_id,
                config_id: *config_id,
            },
            Reply::ResolvedConfig { message_id, config_id } => ReplyModel::ResolvedConfig {
                message_id: *message_id,
                config_id: *config_id,
            },
            Reply::ConfigUpdates { message_id } => ReplyModel::ConfigUpdates { message_id: *message_id },
            Reply::FormatResult { message_id, succeeded } => ReplyModel::FormatResult {
                message_id: *message_id,
                succeeded: *succeeded,
            },
            Reply::Error { message_id, text } => ReplyModel::Error { message_id: *message_id, text: text@ },
        }
    }
}

/// The model of a decision.
pub enum DecisionModel {
    Nothing,
    Send { id: u32, reply: ReplyModel },
    SendAndStop { id: u32, reply: ReplyModel },
    StartFormat { message_id: u32, config_id: u32 },
    Cancel { message_id: u32 },
}

impl View for Decision {
    type V = DecisionModel;

    open spec fn view(&self) -> DecisionModel {
        match self {
            Decision::Nothing => DecisionModel::Nothing,
            Decision::Send { id, reply } => DecisionModel::Send { id: *id, reply: reply@ },
            Decision::SendAndStop { id, reply } => DecisionModel::SendAndStop { id: *id, reply: reply@ },
            Decision::StartFormat { message_id, config_id } => DecisionModel::StartFormat {
                message_id: *message_id,
                config_id: *config_id,
            },
            Decision::Cancel { message_id } => DecisionModel::Cancel { message_id: *message_id },
        }
    }
}

/// The model of the loop state.
pub struct LoopModel {
    pub next_message_id: u32,
    pub configs: Set<u32>,
    pub format_tokens: Set<u32>,
    pub in_flight: nat,
    pub input_closed: bool,
}

impl View for LoopState {
    type V = LoopModel;

    open spec fn view(&self) -> LoopModel {
        LoopModel {
            next_message_id: self.next_message_id,
            configs: self.configs@.to_set(),
            format_tokens: self.format_tokens@.to_set(),
            in_flight: self.in_flight as nat,
            input_closed: self.input_closed,
        }
    }
}

/// The id after `id`, staying at `u32::MAX` once there.
pub open spec fn next_id(id: u32) -> u32 {
    if id == u32::MAX {
        id
    } else {
        (id + 1) as u32
    }
}

/// The message sent when a configuration is not registered.
pub open spec fn missing_config_text(config_id: u32) -> Seq<char> {
    "Did not find configuration for id: $"@ + decimal_text(config_id as int)
}

/// The message sent for a message that only a plugin sends.
pub open spec fn unsupported_text() -> Seq<char> {
    "Unsupported CLI to plugin message."@
}

/// The message sent for a message kind that the protocol does not know.
pub open spec fn unknown_kind_text(kind: u32) -> Seq<char> {
    "Unknown CLI to plugin message kind: "@ + decimal_text(kind as int) + "."@
}

/// The state after sending a message.
pub open spec fn after_send(m: LoopModel) -> LoopModel {
    LoopModel { next_message_id: next_id(m.next_message_id), ..m }
}

/// The state after a message `body` with id `id` arrives, and the decision.
pub open spec fn on_message(m: LoopModel, id: u32, body: IncomingMessage) -> (LoopModel, DecisionModel) {
    let sent = after_send(m);
    let at = m.next_message_id;
    match body {
        IncomingMessage::Close => (sent, DecisionModel::SendAndStop { id: at, reply: ReplyModel::Success { message_id: id } }),
        IncomingMessage::IsAlive => (sent, DecisionModel::Send { id: at, reply: ReplyModel::Success { message_id: id } }),
        IncomingMessage::GetPluginInfo => (sent, DecisionModel::Send { id: at, reply: ReplyModel::PluginInfo { message_id: id } }),
        IncomingMessage::GetLicenseText => (sent, DecisionModel::Send { id: at, reply: ReplyModel::LicenseText { message_id: id } }),
        IncomingMessage::RegisterConfig { config_id } => (
            LoopModel { configs: m.configs.insert(config_id), ..sent },
            DecisionModel::Send { id: at, reply: ReplyModel::Success { message_id: id } },
        ),
        IncomingMessage::ReleaseConfig { config_id } => (
            LoopModel { configs: m.configs.remove(config_id), ..sent },
            DecisionModel::Send { id: at, reply: ReplyModel::Success { message_id: id } },
        ),
        IncomingMessage::GetConfigDiagnostics { config_id } => (
            sent,
            DecisionModel::Send {
                id: at,
                reply: ReplyModel::Diagnostics {
                    message_id: id,
                    config_id,
                    registered: m.configs.contains(config_id),
                },
            },
        ),
        IncomingMessage::GetFileMatchingInfo { config_id } => (
            sent,
            DecisionModel::Send {
                id: at,
                reply: if m.configs.contains(config_id) {
                    ReplyModel::FileMatchingInfo { message_id: id, config_id }
                } else {
                    ReplyModel::Error { message_id: id, text: missing_config_text(config_id) }
                },
            },
        ),
        IncomingMessage::GetResolvedConfig { config_id } => (
            sent,
            DecisionModel::Send {
                id: at,
                reply: if m.configs.contains(config_id) {
                    ReplyModel::ResolvedConfig { message_id: id, config_id }
                } else {
                    ReplyModel::Error { message_id: id, text: missing_config_text(config_id) }
                },
            },
        ),
        IncomingMessage::CheckConfigUpdates => (
            sent,
            DecisionModel::Send { id: at, reply: ReplyModel::ConfigUpdates { message_id: id } },
        ),
        IncomingMessage::Format { config_id } => if m.configs.contains(config_id) {
            (
                LoopModel {
                    format_tokens: m.format_tokens.insert(id),
                    in_flight: m.in_flight + 1,
                    ..m
                },
                DecisionModel::StartFormat { message_id: id, config_id },
            )
        } else {
            (
                sent,
                DecisionModel::Send {
                    id: at,
                    reply: ReplyModel::Error { message_id: id, text: missing_config_text(config_id) },
                },
            )
        },
        IncomingMessage::CancelFormat { message_id } => if m.format_tokens.contains(message_id) {
            (
                LoopModel { format_tokens: m.format_tokens.remove(message_id), ..m },
                DecisionModel::Cancel { message_id },
            )
        } else {
            (m, DecisionModel::Nothing)
        },
        IncomingMessage::Unsupported => (
            sent,
            DecisionModel::Send { id: at, reply: ReplyModel::Error { message_id: id, text: unsupported_text() } },
        ),
        IncomingMessage::Unknown { kind } => (
            sent,
            DecisionModel::Send { id: at, reply: ReplyModel::Error { message_id: id, text: unknown_kind_text(kind) } },
        ),
    }
}

/// The state after `e`, and the decision. A finished format is answered only
/// while its reply is still owed: a cancelled format gets no reply.
pub open spec fn step_model(m: LoopModel, e: LoopEvent) -> (LoopModel, DecisionModel) {
    match e {
        LoopEvent::Message { id, body } => on_message(m, id, body),
        LoopEvent::InputClosed => (LoopModel { input_closed: true, ..m }, DecisionModel::Nothing),
        LoopEvent::FormatDone { message_id, succeeded } => {
            let done = LoopModel { in_flight: (m.in_flight - 1) as nat, ..m };
            if m.format_tokens.contains(message_id) {
                (
                    LoopModel { format_tokens: m.format_tokens.remove(message_id), ..after_send(done) },
                    DecisionModel::Send {
                        id: m.next_message_id,
                        reply: ReplyModel::FormatResult { message_id, succeeded },
                    },
                )
            } else {
                (done, DecisionModel::Nothing)
            }
        },
    }
}

/// Whether an event may happen in state `m`: a format can only finish while
/// one runs, and a new one only starts while fewer than `usize::MAX` run.
pub open spec fn event_allowed(m: LoopModel, e: LoopEvent) -> bool {
    match e {
        LoopEvent::FormatDone { .. } => m.in_flight > 0,
        LoopEvent::Message { body: IncomingMessage::Format { .. }, .. } => m.in_flight < usize::MAX,
        _ => true,
    }
}


/// A cancelled format gets no reply: once the host cancels the format of
/// message `x`, its completion is answered with nothing.
pub proof fn lemma_cancelled_format_gets_no_reply(m: LoopModel, cancel_id: u32, x: u32, succeeded: bool)
    ensures
        ({
            let cancelled = step_model(m, LoopEvent::Message { id: cancel_id, body: IncomingMessage::CancelFormat { message_id: x } }).0;
            step_model(cancelled, LoopEvent::FormatDone { message_id: x, succeeded }).1 == DecisionModel::Nothing
        }),
{
}

/// A format is answered at most once: after the reply for message `x`, a
/// second completion of `x` is answered with nothing.
pub proof fn lemma_format_answered_at_most_once(m: LoopModel, x: u32, first: bool, second: bool)
    ensures
        ({
            let after = step_model(m, LoopEvent::FormatDone { message_id: x, succeeded: first }).0;
            step_model(after, LoopEvent::FormatDone { message_id: x, succeeded: second }).1 == DecisionModel::Nothing
        }),
{
}

/// A format request for a registered configuration that is not cancelled is
/// answered with its result when it finishes, under the next message id.
pub proof fn lemma_format_of_registered_config_is_answered(m: LoopModel, x: u32, config_id: u32, succeeded: bool)
    requires
        m.configs.contains(config_id),
    ensures
        ({
            let (started, start) = step_model(m, LoopEvent::Message { id: x, body: IncomingMessage::Format { config_id } });
            &&& start == DecisionModel::StartFormat { message_id: x, config_id }
            &&& step_model(started, LoopEvent::FormatDone { message_id: x, succeeded }).1 == DecisionModel::Send {
                id: m.next_message_id,
                reply: ReplyModel::FormatResult { message_id: x, succeeded },
            }
        }),
{
}

/// Every message the plugin sends takes the current message id, and the id
/// then moves on (saturating at `u32::MAX`); a step that sends nothing leaves
/// it as it was.
pub proof fn lemma_message_ids_in_order(m: LoopModel, e: LoopEvent)
    ensures
        ({
            let (next, d) = step_model(m, e);
            match d {
                DecisionModel::Send { id, .. } => id == m.next_message_id && next.next_message_id == next_id(m.next_message_id),
                DecisionModel::SendAndStop { id, .. } => id == m.next_message_id && next.next_message_id == next_id(m.next_message_id),
                _ => next.next_message_id == m.next_message_id,
            }
        }),
        m.next_message_id <= step_model(m, e).0.next_message_id,
{
}

/// A released configuration is refused: after `ReleaseConfig`, asking for its
/// resolved configuration is answered with the missing-configuration error.
pub proof fn lemma_released_config_is_refused(m: LoopModel, release_id: u32, ask_id: u32, config_id: u32)
    ensures
        ({
            let released = step_model(m, LoopEvent::Message { id: release_id, body: IncomingMessage::ReleaseConfig { config_id } }).0;
            step_model(released, LoopEvent::Message { id: ask_id, body: IncomingMessage::GetResolvedConfig { config_id } }).1
                == DecisionModel::Send {
                    id: released.next_message_id,
                    reply: ReplyModel::Error { message_id: ask_id, text: missing_config_text(config_id) },
                }
        }),
{
}

/// A registered configuration is served until it is released.
pub proof fn lemma_registered_config_is_served(m: LoopModel, register_id: u32, ask_id: u32, config_id: u32)
    ensures
        ({
            let registered = step_model(m, LoopEvent::Message { id: register_id, body: IncomingMessage::RegisterConfig { config_id } }).0;
            step_model(registered, LoopEvent::Message { id: ask_id, body: IncomingMessage::GetResolvedConfig { config_id } }).1
                == DecisionModel::Send {
                    id: registered.next_message_id,
                    reply: ReplyModel::ResolvedConfig { message_id: ask_id, config_id },
                }
        }),
{
}

/// Each request is answered with the reply of its own kind, to its own id,
/// under the next message id, and changes nothing but the message id: a
/// liveness check or a close with success, plugin info with the plugin info,
/// the license request with the license text, a config-update check with the
/// (empty) updates, a diagnostics request with the diagnostics of that
/// configuration, and file-matching and resolved-config requests with those of
/// a registered configuration or the missing-configuration error.
pub proof fn lemma_each_request_gets_its_reply(m: LoopModel, id: u32, config_id: u32)
    ensures
        step_model(m, LoopEvent::Message { id, body: IncomingMessage::IsAlive }) == (
            after_send(m),
            DecisionModel::Send { id: m.next_message_id, reply: ReplyModel::Success { message_id: id } },
        ),
        step_model(m, LoopEvent::Message { id, body: IncomingMessage::Close }) == (
            after_send(m),
            DecisionModel::SendAndStop { id: m.next_message_id, reply: ReplyModel::Success { message_id: id } },
        ),
        step_model(m, LoopEvent::Message { id, body: IncomingMessage::GetPluginInfo }) == (
            after_send(m),
            DecisionModel::Send { id: m.next_message_id, reply: ReplyModel::PluginInfo { message_id: id } },
        ),
        step_model(m, LoopEvent::Message { id, body: IncomingMessage::GetLicenseText }) == (
            after_send(m),
            DecisionModel::Send { id: m.next_message_id, reply: ReplyModel::LicenseText { message_id: id } },
        ),
        step_model(m, LoopEvent::Message { id, body: IncomingMessage::CheckConfigUpdates }) == (
            after_send(m),
            DecisionModel::Send { id: m.next_message_id, reply: ReplyModel::ConfigUpdates { message_id: id } },
        ),
        step_model(m, LoopEvent::Message { id, body: IncomingMessage::GetConfigDiagnostics { config_id } }) == (
            after_send(m),
            DecisionModel::Send {
                id: m.next_message_id,
                reply: ReplyModel::Diagnostics {
                    message_id: id,
                    config_id,
                    registered: m.configs.contains(config_id),
                },
            },
        ),
        step_model(m, LoopEvent::Message { id, body: IncomingMessage::GetFileMatchingInfo { config_id } }) == (
            after_send(m),
            DecisionModel::Send {
                id: m.next_message_id,
                reply: if m.configs.contains(config_id) {
                    ReplyModel::FileMatchingInfo { message_id: id, config_id }
                } else {
                    ReplyModel::Error { message_id: id, text: "Did not find configuration for id: $"@ + decimal_text(config_id as int) }
                },
            },
        ),
        step_model(m, LoopEvent::Message { id, body: IncomingMessage::GetResolvedConfig { config_id } }) == (
            after_send(m),
            DecisionModel::Send {
                id: m.next_message_id,
                reply: if m.configs.contains(config_id) {
                    ReplyModel::ResolvedConfig { message_id: id, config_id }
                } else {
                    ReplyModel::Error { message_id: id, text: "Did not find configuration for id: $"@ + decimal_text(config_id as int) }
                },
            },
        ),
        step_model(m, LoopEvent::Message { id, body: IncomingMessage::RegisterConfig { config_id } }) == (
            LoopModel { configs: m.configs.insert(config_id), ..after_send(m) },
            DecisionModel::Send { id: m.next_message_id, reply: ReplyModel::Success { message_id: id } },
        ),
        step_model(m, LoopEvent::Message { id, body: IncomingMessage::ReleaseConfig { config_id } }) == (
            LoopModel { configs: m.configs.remove(config_id), ..after_send(m) },
            DecisionModel::Send { id: m.next_message_id, reply: ReplyModel::Success { message_id: id } },
        ),
        m.next_message_id < u32::MAX ==> after_send(m).next_message_id == m.next_message_id + 1,
        after_send(m).configs == m.configs,
        after_send(m).format_tokens == m.format_tokens,
        after_send(m).in_flight == m.in_flight,
        after_send(m).input_closed == m.input_closed,
{
}

/// A format request for a registered configuration starts that format (its
/// reply comes when it finishes) and sends nothing yet; for a configuration
/// that is not registered it is answered at once with the
/// missing-configuration error. A cancel stops a running format and sends
/// nothing; a cancel of a format that does not run changes nothing. A
/// message that only a plugin sends, or of an unknown kind, is answered with
/// an error.
pub proof fn lemma_formats_cancels_and_unknown_messages(m: LoopModel, id: u32, config_id: u32, x: u32, kind: u32)
    ensures
        m.configs.contains(config_id) ==> step_model(
            m,
            LoopEvent::Message { id, body: IncomingMessage::Format { config_id } },
        ) == (
            LoopModel { format_tokens: m.format_tokens.insert(id), in_flight: m.in_flight + 1, ..m },
            DecisionModel::StartFormat { message_id: id, config_id },
        ),
        !m.configs.contains(config_id) ==> step_model(
            m,
            LoopEvent::Message { id, body: IncomingMessage::Format { config_id } },
        ) == (
            after_send(m),
            DecisionModel::Send {
                id: m.next_message_id,
                reply: ReplyModel::Error { message_id: id, text: "Did not find configuration for id: $"@ + decimal_text(config_id as int) },
            },
        ),
        m.format_tokens.contains(x) ==> step_model(
            m,
            LoopEvent::Message { id, body: IncomingMessage::CancelFormat { message_id: x } },
        ) == (LoopModel { format_tokens: m.format_tokens.remove(x), ..m }, DecisionModel::Cancel { message_id: x }),
        !m.format_tokens.contains(x) ==> step_model(
            m,
            LoopEvent::Message { id, body: IncomingMessage::CancelFormat { message_id: x } },
        ) == (m, DecisionModel::Nothing),
        step_model(m, LoopEvent::Message { id, body: IncomingMessage::Unsupported }) == (
            after_send(m),
            DecisionModel::Send {
                id: m.next_message_id,
                reply: ReplyModel::Error { message_id: id, text: "Unsupported CLI to plugin message."@ },
            },
        ),
        step_model(m, LoopEvent::Message { id, body: IncomingMessage::Unknown { kind } }) == (
            after_send(m),
            DecisionModel::Send {
                id: m.next_message_id,
                reply: ReplyModel::Error { message_id: id, text: "Unknown CLI to plugin message kind: "@ + decimal_text(kind as int) + "."@ },
            },
        ),
{
}

/// The id of the message that a reply answers.
pub open spec fn answered_id(r: ReplyModel) -> u32 {
    match r {
        ReplyModel::Success { message_id } => message_id,
        ReplyModel::PluginInfo { message_id } => message_id,
        ReplyModel::LicenseText { message_id } => message_id,
        ReplyModel::Diagnostics { message_id, .. } => message_id,
        ReplyModel::FileMatchingInfo { message_id, .. } => message_id,
        ReplyModel::ResolvedConfig { message_id, .. } => message_id,
        ReplyModel::ConfigUpdates { message_id } => message_id,
        ReplyModel::FormatResult { message_id, .. } => message_id,
        ReplyModel::Error { message_id, .. } => message_id,
    }
}

/// Every request but a format and a cancellation is answered at once, by a
/// reply to its own id; so is a format for a configuration that is not
/// registered (with an error).
pub proof fn lemma_requests_answered_at_once(m: LoopModel, id: u32, body: IncomingMessage)
    requires
        !(body is CancelFormat),
        body matches IncomingMessage::Format { config_id } ==> !m.configs.contains(config_id),
    ensures
        match on_message(m, id, body).1 {
            DecisionModel::Send { reply, .. } => answered_id(reply) == id,
            DecisionModel::SendAndStop { reply, .. } => answered_id(reply) == id && body is Close,
            _ => false,
        },
{
}

/// The state after the events `es` from `m`, and the decisions taken, in
/// order.
pub open spec fn run_model(m: LoopModel, es: Seq<LoopEvent>) -> (LoopModel, Seq<DecisionModel>)
    decreases es.len(),
{
    if es.len() == 0 {
        (m, Seq::empty())
    } else {
        let (before, ds) = run_model(m, es.drop_last());
        let (after, d) = step_model(before, es.last());
        (after, ds.push(d))
    }
}

/// Whether `d` sends the result of the format of message `x`.
pub open spec fn answers_format(d: DecisionModel, x: u32) -> bool {
    match d {
        DecisionModel::Send { reply: ReplyModel::FormatResult { message_id, .. }, .. } => message_id == x,
        _ => false,
    }
}

/// How many of the decisions send the result of the format of message `x`.
pub open spec fn format_answers(ds: Seq<DecisionModel>, x: u32) -> nat
    decreases ds.len(),
{
    if ds.len() == 0 {
        0
    } else {
        format_answers(ds.drop_last(), x) + if answers_format(ds.last(), x) {
            1nat
        } else {
            0nat
        }
    }
}

/// How many of the events are the completion of the format of message `x`.
pub open spec fn completions(es: Seq<LoopEvent>, x: u32) -> nat
    decreases es.len(),
{
    if es.len() == 0 {
        0
    } else {
        completions(es.drop_last(), x) + if es.last() matches LoopEvent::FormatDone { message_id, .. }
            && message_id == x {
            1nat
        } else {
            0nat
        }
    }
}

/// Whether an event cancels, or starts again, the format of message `x`.
pub open spec fn touches_format(e: LoopEvent, x: u32) -> bool {
    match e {
        LoopEvent::Message { id, body } => match body {
            IncomingMessage::CancelFormat { message_id } => message_id == x,
            IncomingMessage::Format { .. } => id == x,
            _ => false,
        },
        _ => false,
    }
}

proof fn lemma_run_owed(m: LoopModel, es: Seq<LoopEvent>, x: u32)
    requires
        m.format_tokens.contains(x),
        forall|i: int| 0 <= i < es.len() ==> !touches_format(#[trigger] es[i], x),
        completions(es, x) <= 1,
    ensures
        completions(es, x) == 0 ==> run_model(m, es).0.format_tokens.contains(x) && format_answers(
            run_model(m, es).1,
            x,
        ) == 0,
        completions(es, x) == 1 ==> !run_model(m, es).0.format_tokens.contains(x) && format_answers(
            run_model(m, es).1,
            x,
        ) == 1,
    decreases es.len(),
{
    if es.len() > 0 {
        let prev = es.drop_last();
        assert forall|i: int| 0 <= i < prev.len() implies !touches_format(#[trigger] prev[i], x) by {
            assert(prev[i] == es[i]);
        }
        assert(!touches_format(es[es.len() - 1], x));
        lemma_run_owed(m, prev, x);
        let (before, ds) = run_model(m, prev);
        let (after, d) = step_model(before, es.last());
        assert(run_model(m, es).1 == ds.push(d));
        assert(run_model(m, es).1.drop_last() == ds);
        if completions(prev, x) == 1 {
            lemma_run_not_owed_step(before, es.last(), x);
        }
    }
}

/// A step that neither starts a format with id `x` nor completes it leaves
/// `x` out of the owed formats and sends no result for it.
proof fn lemma_run_not_owed_step(m: LoopModel, e: LoopEvent, x: u32)
    requires
        !m.format_tokens.contains(x),
        !touches_format(e, x),
    ensures
        !step_model(m, e).0.format_tokens.contains(x),
        !answers_format(step_model(m, e).1, x),
{
}

proof fn lemma_run_not_owed(m: LoopModel, es: Seq<LoopEvent>, x: u32)
    requires
        !m.format_tokens.contains(x),
        forall|i: int| 0 <= i < es.len() ==> !touches_format(#[trigger] es[i], x),
    ensures
        !run_model(m, es).0.format_tokens.contains(x),
        format_answers(run_model(m, es).1, x) == 0,
    decreases es.len(),
{
    if es.len() > 0 {
        let prev = es.drop_last();
        assert forall|i: int| 0 <= i < prev.len() implies !touches_format(#[trigger] prev[i], x) by {
            assert(prev[i] == es[i]);
        }
        assert(!touches_format(es[es.len() - 1], x));
        lemma_run_not_owed(m, prev, x);
        let (before, ds) = run_model(m, prev);
        lemma_run_not_owed_step(before, es.last(), x);
        assert(run_model(m, es).1.drop_last() == ds);
    }
}

/// Over a whole run: a format request `x` for a registered configuration,
/// followed by any events that neither cancel it nor reuse its id, among
/// which it completes once, gets exactly one reply; if the host cancels it
/// before it completes, it gets none.
pub proof fn lemma_format_replies_over_runs(
    m: LoopModel,
    x: u32,
    config_id: u32,
    before_cancel: Seq<LoopEvent>,
    cancel_id: u32,
    after_cancel: Seq<LoopEvent>,
)
    requires
        m.configs.contains(config_id),
        forall|i: int| 0 <= i < before_cancel.len() ==> !touches_format(#[trigger] before_cancel[i], x),
        forall|i: int| 0 <= i < after_cancel.len() ==> !touches_format(#[trigger] after_cancel[i], x),
    ensures
        ({
            let start = seq![LoopEvent::Message { id: x, body: IncomingMessage::Format { config_id } }];
            completions(before_cancel, x) == 1 ==> format_answers(run_model(m, start + before_cancel).1, x) == 1
        }),
        ({
            let start = seq![LoopEvent::Message { id: x, body: IncomingMessage::Format { config_id } }];
            let cancel = seq![LoopEvent::Message { id: cancel_id, body: IncomingMessage::CancelFormat { message_id: x } }];
            completions(before_cancel, x) == 0 ==> format_answers(
                run_model(m, start + before_cancel + cancel + after_cancel).1,
                x,
            ) == 0
        }),
{
    let start = seq![LoopEvent::Message { id: x, body: IncomingMessage::Format { config_id } }];
    let cancel = seq![LoopEvent::Message { id: cancel_id, body: IncomingMessage::CancelFormat { message_id: x } }];
    let (m1, d1) = step_model(m, start[0]);
    lemma_run_one(m, start[0]);
    assert(start == seq![start[0]]);
    lemma_answers_one(d1, x);
    lemma_run_split(m, start, before_cancel);
    lemma_answers_split(seq![d1], run_model(m1, before_cancel).1, x);
    if completions(before_cancel, x) <= 1 {
        lemma_run_owed(m1, before_cancel, x);
    }
    if completions(before_cancel, x) == 0 {
        let first = start + before_cancel;
        let (m2, ds2) = run_model(m, first);
        let (m3, d3) = step_model(m2, cancel[0]);
        assert(!answers_format(d3, x));
        assert(!m3.format_tokens.contains(x));
        lemma_run_split(m, first, cancel);
        lemma_run_one(m2, cancel[0]);
        assert(cancel == seq![cancel[0]]);
        lemma_answers_one(d3, x);
        lemma_answers_split(ds2, seq![d3], x);
        lemma_run_split(m, first + cancel, after_cancel);
        lemma_run_not_owed(m3, after_cancel, x);
        lemma_answers_split(ds2 + seq![d3], run_model(m3, after_cancel).1, x);
    }
}

/// A run of one event is one step.
proof fn lemma_run_one(m: LoopModel, e: LoopEvent)
    ensures
        run_model(m, seq![e]) == (step_model(m, e).0, seq![step_model(m, e).1]),
{
    reveal_with_fuel(run_model, 2);
    assert(seq![e].drop_last() =~= Seq::<LoopEvent>::empty());
    assert(Seq::<DecisionModel>::empty().push(step_model(m, e).1) =~= seq![step_model(m, e).1]);
}

/// One decision answers the format of `x` once or not at all.
proof fn lemma_answers_one(d: DecisionModel, x: u32)
    ensures
        format_answers(seq![d], x) == if answers_format(d, x) {
            1nat
        } else {
            0nat
        },
{
    reveal_with_fuel(format_answers, 2);
    assert(seq![d].drop_last() =~= Seq::<DecisionModel>::empty());
}

/// Running `a` then `b` is running `a + b`.
proof fn lemma_run_split(m: LoopModel, a: Seq<LoopEvent>, b: Seq<LoopEvent>)
    ensures
        run_model(m, a + b) == (run_model(run_model(m, a).0, b).0, run_model(m, a).1 + run_model(
            run_model(m, a).0,
            b,
        ).1),
    decreases b.len(),
{
    if b.len() == 0 {
        assert(a + b =~= a);
        assert(run_model(m, a).1 + Seq::<DecisionModel>::empty() =~= run_model(m, a).1);
    } else {
        lemma_run_split(m, a, b.drop_last());
        assert((a + b).drop_last() =~= a + b.drop_last());
        assert((a + b).last() == b.last());
        let mid = run_model(m, a);
        let rb = run_model(mid.0, b.drop_last());
        let (after, d) = step_model(rb.0, b.last());
        assert(mid.1 + rb.1.push(d) =~= (mid.1 + rb.1).push(d));
    }
}

/// Results counted over two runs add up.
proof fn lemma_answers_split(a: Seq<DecisionModel>, b: Seq<DecisionModel>, x: u32)
    ensures
        format_answers(a + b, x) == format_answers(a, x) + format_answers(b, x),
    decreases b.len(),
{
    if b.len() == 0 {
        assert(a + b =~= a);
    } else {
        lemma_answers_split(a, b.drop_last(), x);
        assert((a + b).drop_last() =~= a + b.drop_last());
        assert((a + b).last() == b.last());
    }
}

/// Whether `x` is in `v`.
fn vec_contains(v: &Vec<u32>, x: u32) -> (r: bool)
    ensures
        r == v@.to_set().contains(x),
{
    let mut i: usize = 0;
    while i < v.len()
        invariant
            i <= v.len(),
            forall|j: int| 0 <= j < i ==> v@[j] != x,
        decreases v.len() - i,
    {
        if v[i] == x {
            assert(v@.contains(x));
            return true;
        }
        i = i + 1;
    }
    assert(!v@.contains(x));
    false
}

/// Adds `x` to the set `v`.
fn vec_insert(v: &mut Vec<u32>, x: u32)
    ensures
        final(v)@.to_set() == old(v)@.to_set().insert(x),
{
    if !vec_contains(v, x) {
        let ghost before = v@;
        v.push(x);
        assert(v@.to_set() =~= before.to_set().insert(x)) by {
            assert forall|y: u32| v@.contains(y) <==> before.contains(y) || y == x by {
                if before.contains(y) {
                    let j = choose|j: int| 0 <= j < before.len() && before[j] == y;
                    assert(v@[j] == y);
                }
                if y == x {
                    assert(v@[before.len() as int] == x);
                }
                if v@.contains(y) && y != x {
                    let j = choose|j: int| 0 <= j < v@.len() && v@[j] == y;
                    assert(j < before.len());
                    assert(before[j] == y);
                }
            }
        }
    } else {
        assert(v@.to_set() =~= v@.to_set().insert(x));
    }
}

/// Removes `x` from the set `v`.
fn vec_remove(v: &mut Vec<u32>, x: u32)
    ensures
        final(v)@.to_set() == old(v)@.to_set().remove(x),
{
    let ghost before = v@;
    let mut out: Vec<u32> = Vec::new();
    let mut i: usize = 0;
    while i < v.len()
        invariant
            i <= v.len(),
            v@ == before,
            forall|y: u32| out@.contains(y) <==> (before.take(i as int).contains(y) && y != x),
        decreases v.len() - i,
    {
        let ghost out_before = out@;
        let y = v[i];
        if y != x {
            out.push(y);
        }
        i = i + 1;
        assert forall|z: u32| out@.contains(z) <==> (before.take(i as int).contains(z) && z != x) by {
            let t = before.take(i as int);
            let tp = before.take(i - 1);
            if t.contains(z) {
                let j = choose|j: int| 0 <= j < t.len() && t[j] == z;
                if j < i - 1 {
                    assert(tp[j] == z);
                }
            }
            if tp.contains(z) {
                let j = choose|j: int| 0 <= j < tp.len() && tp[j] == z;
                assert(t[j] == z);
            }
            if out@.contains(z) {
                let j = choose|j: int| 0 <= j < out@.len() && out@[j] == z;
                if j < out_before.len() {
                    assert(out_before[j] == z);
                }
            }
            if out_before.contains(z) {
                let j = choose|j: int| 0 <= j < out_before.len() && out_before[j] == z;
                assert(out@[j] == z);
            }
            if y != x && z == y {
                assert(out@[out_before.len() as int] == z);
                assert(t[i - 1] == z);
            }
        }
    }
    assert(before.take(before.len() as int) =~= before);
    let ghost result = out@;
    *v = out;
    assert(v@.to_set() =~= before.to_set().remove(x));
}

/// The id of the next message sent, staying at `u32::MAX` once there.
fn saturating_next(id: u32) -> (r: u32)
    ensures
        r == next_id(id),
{
    if id == u32::MAX {
        id
    } else {
        id + 1
    }
}

impl LoopState {
    /// The state before any message: the first message sent gets id 1.
    pub fn new() -> (r: LoopState)
        ensures
            r@.next_message_id == 1,
            r@.configs == Set::<u32>::empty(),
            r@.format_tokens == Set::<u32>::empty(),
            r@.in_flight == 0,
            !r@.input_closed,
    {
        let r = LoopState {
            next_message_id: 1,
            configs: Vec::new(),
            format_tokens: Vec::new(),
            in_flight: 0,
            input_closed: false,
        };
        assert(r.configs@.to_set() =~= Set::<u32>::empty());
        assert(r.format_tokens@.to_set() =~= Set::<u32>::empty());
        r
    }

    /// Whether the loop is done: the input has ended and no format runs.
    pub fn should_stop(&self) -> (r: bool)
        ensures
            r == (self@.input_closed && self@.in_flight == 0),
    {
        self.input_closed && self.in_flight == 0
    }

    /// Where the next event comes from, given whether a message (or the end
    /// of the input) is ready to be read and whether a format has finished:
    /// ready input always goes first, so a message that is already queued
    /// (such as the cancel of a format) is handled before any format
    /// completes or starts to run; a finished format is taken only when no
    /// input is ready. `None` means that nothing is ready, and the caller
    /// waits.
    pub fn next_event_source(&self, input_ready: bool, completion_ready: bool) -> (r: Option<EventSource>)
        ensures
            r == if !self@.input_closed && input_ready {
                Some(EventSource::Input)
            } else if self@.in_flight > 0 && completion_ready {
                Some(EventSource::Completion)
            } else {
                None::<EventSource>
            },
    {
        if !self.input_closed && input_ready {
            Some(EventSource::Input)
        } else if self.in_flight > 0 && completion_ready {
            Some(EventSource::Completion)
        } else {
            None
        }
    }

    /// Takes the id for the next message sent.
    fn take_id(&mut self) -> (r: u32)
        ensures
            r == old(self)@.next_message_id,
            final(self)@ == after_send(old(self)@),
    {
        let id = self.next_message_id;
        self.next_message_id = saturating_next(id);
        id
    }

    /// Decides what to do for the event `e`, and moves to the next state.
    pub fn step(&mut self, e: LoopEvent) -> (r: Decision)
        requires
            event_allowed(old(self)@, e),
        ensures
            (final(self)@, r@) == step_model(old(self)@, e),
    {
        match e {
            LoopEvent::InputClosed => {
                self.input_closed = true;
                Decision::Nothing
            },
            LoopEvent::FormatDone { message_id, succeeded } => {
                self.in_flight = self.in_flight - 1;
                if vec_contains(&self.format_tokens, message_id) {
                    vec_remove(&mut self.format_tokens, message_id);
                    let id = self.take_id();
                    Decision::Send { id, reply: Reply::FormatResult { message_id, succeeded } }
                } else {
                    Decision::Nothing
                }
            },
            LoopEvent::Message { id: message_id, body } => self.on_message(message_id, body),
        }
    }

    fn on_message(&mut self, id: u32, body: IncomingMessage) -> (r: Decision)
        requires
            body is Format ==> old(self)@.in_flight < usize::MAX,
        ensures
            (final(self)@, r@) == on_message(old(self)@, id, body),
    {
        match body {
            IncomingMessage::Close => {
                let at = self.take_id();
                Decision::SendAndStop { id: at, reply: Reply::Success { message_id: id } }
            },
            IncomingMessage::IsAlive => {
                let at = self.take_id();
                Decision::Send { id: at, reply: Reply::Success { message_id: id } }
            },
            IncomingMessage::GetPluginInfo => {
                let at = self.take_id();
                Decision::Send { id: at, reply: Reply::PluginInfo { message_id: id } }
            },
            IncomingMessage::GetLicenseText => {
                let at = self.take_id();
                Decision::Send { id: at, reply: Reply::LicenseText { message_id: id } }
            },
            IncomingMessage::RegisterConfig { config_id } => {
                vec_insert(&mut self.configs, config_id);
                let at = self.take_id();
                Decision::Send { id: at, reply: Reply::Success { message_id: id } }
            },
            IncomingMessage::ReleaseConfig { config_id } => {
                vec_remove(&mut self.configs, config_id);
                let at = self.take_id();
                Decision::Send { id: at, reply: Reply::Success { message_id: id } }
            },
            IncomingMessage::GetConfigDiagnostics { config_id } => {
                let registered = vec_contains(&self.configs, config_id);
                let at = self.take_id();
                Decision::Send { id: at, reply: Reply::Diagnostics { message_id: id, config_id, registered } }
            },
            IncomingMessage::GetFileMatchingInfo { config_id } => {
                let reply = if vec_contains(&self.configs, config_id) {
                    Reply::FileMatchingInfo { message_id: id, config_id }
                } else {
                    Reply::Error { message_id: id, text: missing_config_message(config_id) }
                };
                let at = self.take_id();
                Decision::Send { id: at, reply }
            },
            IncomingMessage::GetResolvedConfig { config_id } => {
                let reply = if vec_contains(&self.configs, config_id) {
                    Reply::ResolvedConfig { message_id: id, config_id }
                } else {
                    Reply::Error { message_id: id, text: missing_config_message(config_id) }
                };
                let at = self.take_id();
                Decision::Send { id: at, reply }
            },
            IncomingMessage::CheckConfigUpdates => {
                let at = self.take_id();
                Decision::Send { id: at, reply: Reply::ConfigUpdates { message_id: id } }
            },
            IncomingMessage::Format { config_id } => {
                if vec_contains(&self.configs, config_id) {
                    vec_insert(&mut self.format_tokens, id);
                    self.in_flight = self.in_flight + 1;
                    Decision::StartFormat { message_id: id, config_id }
                } else {
                    let at = self.take_id();
                    Decision::Send {
                        id: at,
                        reply: Reply::Error { message_id: id, text: missing_config_message(config_id) },
                    }
                }
            },
            IncomingMessage::CancelFormat { message_id } => {
                if vec_contains(&self.format_tokens, message_id) {
                    vec_remove(&mut self.format_tokens, message_id);
                    Decision::Cancel { message_id }
                } else {
                    Decision::Nothing
                }
            },
            IncomingMessage::Unsupported => {
                let at = self.take_id();
                Decision::Send {
                    id: at,
                    reply: Reply::Error { message_id: id, text: "Unsupported CLI to plugin message.".to_owned() },
                }
            },
            IncomingMessage::Unknown { kind } => {
                let text = concat(
                    concat("Unknown CLI to plugin message kind: ", u32_text(kind).as_str()).as_str(),
                    ".",
                );
                let at = self.take_id();
                Decision::Send { id: at, reply: Reply::Error { message_id: id, text } }
            },
        }
    }
}

/// The message sent when a configuration is not registered.
fn missing_config_message(config_id: u32) -> (r: String)
    ensures
        r@ == missing_config_text(config_id),
{
    concat("Did not find configuration for id: $", u32_text(config_id).as_str())
}

/// The schema handshake: the host asks with `0`, and the plugin answers `0`
/// followed by its schema version; any other request is refused.
pub fn schema_handshake(request: u32, schema_version: u32) -> (r: Result<(u32, u32), String>)
    ensures
        request == 0 ==> r == Ok::<(u32, u32), String>((0u32, schema_version)),
        request != 0 ==> (r matches Err(m) && m@ == "Expected a schema version request of `0`."@),
{
    if request != 0 {
        Err("Expected a schema version request of `0`.".to_owned())
    } else {
        Ok((0, schema_version))
    }
}

/// The settings a format runs with when its request carries override
/// settings: the stored settings of its configuration with each override laid
/// over them in order (an overridden key keeps its place and takes the new
/// value, a new key goes last). The result is resolved again before the
/// format.
pub fn format_config_map(stored: ConfigMap, overrides: ConfigMap) -> (r: ConfigMap)
    ensures
        r@ == map_insert_all(stored@, overrides@),
        keys_unique(stored@) ==> keys_unique(r@),
{
    let mut merged = stored;
    merged.insert_all(overrides);
    merged
}

} // verus!
