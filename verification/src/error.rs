//! Why an operation was refused.

use vstd::prelude::*;
use crate::json::{display, Json, JsonView};
use crate::model::STATE_VERSION;
use crate::text::decimal;

verus! {

#[derive(Debug, PartialEq, Eq)]
pub enum BeaconError {
    /// The connection to Herdr or to Agents failed, with its reason.
    Client(String),
    /// The stored state is not in the state format.
    InvalidState,
    /// The state could not be written in the state format.
    StateEncoding,
    /// The stored state has a version that is not supported.
    UnsupportedVersion(u32),
    /// A stored entry stands under another pane address than its own.
    EntryKeyMismatch,
    /// A stored entry has an ordinal beyond the counter.
    OrdinalAhead,
    /// A Herdr command printed something else than JSON, with the reason.
    InvalidOutput(String),
    /// Herdr refused a command.
    Command { code: String, message: String },
    GetWithoutAgent,
    ListWithoutAgents,
    FocusWithoutAgent,
    FocusWithoutTab,
    NotificationWithoutOutcome,
    InvalidAgent,
    /// Herdr did not show a notification, for a reason that is not routine.
    NotShown(String),
    InvalidEvent,
    EventMismatch { hook: String, payload: String },
    EventTypeMissing,
    EventTypeMismatch(String),
    InvalidEventData,
    UnsupportedEvent(String),
    /// Two agents share an address or a terminal, or one has none.
    AmbiguousSnapshot,
    /// Agents answered that it has no policy; this is its answer.
    PolicyUnavailable(Json),
    /// The policy reply is not JSON, with the reason.
    PolicySyntax(String),
    InvalidPolicy,
    PolicyMismatch,
    PolicySets,
    PolicyUnresolved,
    SocketPath,
    ReplyWithoutNewline,
    ReplyTooLong,
    /// The Herdr config is not TOML, with the reason.
    InvalidConfig(String),
    KeysNotTable,
    CommandsNotTables,
    /// A shortcut is already assigned to a built-in action.
    KeyAssigned { key: String, action: String },
    /// A shortcut is already bound to a custom command.
    KeyBound(String),
}

impl BeaconError {
    /// The error in words.
    pub open spec fn wording(self) -> Seq<char> {
        match self {
            BeaconError::Client(reason) => reason@,
            BeaconError::InvalidState => "failed to parse the Beacon state"@,
            BeaconError::StateEncoding => "failed to serialize Beacon state"@,
            BeaconError::UnsupportedVersion(version) => "unsupported Beacon state version "@
                + crate::text::digits(version as nat) + "; expected "@ + crate::text::digits(
                STATE_VERSION as nat,
            ),
            BeaconError::EntryKeyMismatch => "Beacon state entry key does not match pane id"@,
            BeaconError::OrdinalAhead => "Beacon state ordinal is ahead of its counter"@,
            BeaconError::InvalidOutput(fault) => "Herdr returned invalid JSON: "@ + fault@,
            BeaconError::Command { code, message } => code@ + ": "@ + message@,
            BeaconError::GetWithoutAgent => "Herdr agent get response omitted result.agent"@,
            BeaconError::ListWithoutAgents => "Herdr agent list response omitted result.agents"@,
            BeaconError::FocusWithoutAgent => "Herdr agent focus response omitted result.agent"@,
            BeaconError::FocusWithoutTab =>
                "Herdr agent focus response omitted result.agent.tab_id"@,
            BeaconError::NotificationWithoutOutcome =>
                "Herdr notification response omitted result.shown"@,
            BeaconError::InvalidAgent => "invalid Herdr agent payload"@,
            BeaconError::NotShown(reason) => "Herdr did not show the notification: "@ + reason@,
            BeaconError::InvalidEvent => "invalid Herdr event JSON"@,
            BeaconError::EventMismatch { hook, payload } => "Herdr event mismatch: hook is "@
                + hook@ + ", payload is "@ + payload@,
            BeaconError::EventTypeMissing => "Herdr event data omitted type"@,
            BeaconError::EventTypeMismatch(hook) => "Herdr event data type mismatch for "@ + hook@,
            BeaconError::InvalidEventData => "invalid Herdr event data"@,
            BeaconError::UnsupportedEvent(hook) => "unsupported Beacon event hook: "@ + hook@,
            BeaconError::AmbiguousSnapshot => "ambiguous canonical Herdr snapshot"@,
            BeaconError::PolicyUnavailable(reply) => "Agents policy unavailable: "@
                + crate::json::displayed(reply@.field("code"@)) + ": "@ + crate::json::displayed(
                reply@.field("error"@),
            ),
            BeaconError::PolicySyntax(fault) => fault@,
            BeaconError::InvalidPolicy => "invalid Agents policy reply"@,
            BeaconError::PolicyMismatch => "Agents policy version/session mismatch"@,
            BeaconError::PolicySets => "Agents policy contains invalid or unsorted sets"@,
            BeaconError::PolicyUnresolved => "Agents policy contains unresolved excluded IDs"@,
            BeaconError::SocketPath => "expected absolute host socket path"@,
            BeaconError::ReplyWithoutNewline => "Agents policy reply missing newline"@,
            BeaconError::ReplyTooLong => "Agents policy reply exceeds 256 KiB"@,
            BeaconError::InvalidConfig(fault) => "failed to parse the Herdr config: "@ + fault@,
            BeaconError::KeysNotTable => "keys must be a TOML table"@,
            BeaconError::CommandsNotTables => "keys.command must be an array of tables"@,
            BeaconError::KeyAssigned { key, action } => key@ + " is already assigned to keys."@
                + action@,
            BeaconError::KeyBound(key) => key@ + " is already bound to another custom command"@,
        }
    }

    pub fn message(&self) -> (message: String)
        ensures
            message@ == self.wording(),
    {
        match self {
            BeaconError::Client(reason) => reason.clone(),
            BeaconError::InvalidState => "failed to parse the Beacon state".to_owned(),
            BeaconError::StateEncoding => "failed to serialize Beacon state".to_owned(),
            BeaconError::UnsupportedVersion(version) => {
                let mut message = "unsupported Beacon state version ".to_owned();
                message.append(&decimal(*version));
                message.append("; expected ");
                message.append(&decimal(STATE_VERSION));
                message
            },
            BeaconError::EntryKeyMismatch =>
                "Beacon state entry key does not match pane id".to_owned(),
            BeaconError::OrdinalAhead => "Beacon state ordinal is ahead of its counter".to_owned(),
            BeaconError::InvalidOutput(fault) => {
                let mut message = "Herdr returned invalid JSON: ".to_owned();
                message.append(fault);
                message
            },
            BeaconError::Command { code, message } => {
                let mut text = code.clone();
                text.append(": ");
                text.append(message);
                text
            },
            BeaconError::GetWithoutAgent =>
                "Herdr agent get response omitted result.agent".to_owned(),
            BeaconError::ListWithoutAgents =>
                "Herdr agent list response omitted result.agents".to_owned(),
            BeaconError::FocusWithoutAgent =>
                "Herdr agent focus response omitted result.agent".to_owned(),
            BeaconError::FocusWithoutTab =>
                "Herdr agent focus response omitted result.agent.tab_id".to_owned(),
            BeaconError::NotificationWithoutOutcome =>
                "Herdr notification response omitted result.shown".to_owned(),
            BeaconError::InvalidAgent => "invalid Herdr agent payload".to_owned(),
            BeaconError::NotShown(reason) => {
                let mut message = "Herdr did not show the notification: ".to_owned();
                message.append(reason);
                message
            },
            BeaconError::InvalidEvent => "invalid Herdr event JSON".to_owned(),
            BeaconError::EventMismatch { hook, payload } => {
                let mut message = "Herdr event mismatch: hook is ".to_owned();
                message.append(hook);
                message.append(", payload is ");
                message.append(payload);
                message
            },
            BeaconError::EventTypeMissing => "Herdr event data omitted type".to_owned(),
            BeaconError::EventTypeMismatch(hook) => {
                let mut message = "Herdr event data type mismatch for ".to_owned();
                message.append(hook);
                message
            },
            BeaconError::InvalidEventData => "invalid Herdr event data".to_owned(),
            BeaconError::UnsupportedEvent(hook) => {
                let mut message = "unsupported Beacon event hook: ".to_owned();
                message.append(hook);
                message
            },
            BeaconError::AmbiguousSnapshot => "ambiguous canonical Herdr snapshot".to_owned(),
            BeaconError::PolicyUnavailable(reply) => {
                let mut message = "Agents policy unavailable: ".to_owned();
                message.append(&display(reply.field("code")));
                message.append(": ");
                message.append(&display(reply.field("error")));
                message
            },
            BeaconError::PolicySyntax(fault) => fault.clone(),
            BeaconError::InvalidPolicy => "invalid Agents policy reply".to_owned(),
            BeaconError::PolicyMismatch => "Agents policy version/session mismatch".to_owned(),
            BeaconError::PolicySets =>
                "Agents policy contains invalid or unsorted sets".to_owned(),
            BeaconError::PolicyUnresolved =>
                "Agents policy contains unresolved excluded IDs".to_owned(),
            BeaconError::SocketPath => "expected absolute host socket path".to_owned(),
            BeaconError::ReplyWithoutNewline => "Agents policy reply missing newline".to_owned(),
            BeaconError::ReplyTooLong => "Agents policy reply exceeds 256 KiB".to_owned(),
            BeaconError::InvalidConfig(fault) => {
                let mut message = "failed to parse the Herdr config: ".to_owned();
                message.append(fault);
                message
            },
            BeaconError::KeysNotTable => "keys must be a TOML table".to_owned(),
            BeaconError::CommandsNotTables => "keys.command must be an array of tables".to_owned(),
            BeaconError::KeyAssigned { key, action } => {
                let mut message = key.clone();
                message.append(" is already assigned to keys.");
                message.append(action);
                message
            },
            BeaconError::KeyBound(key) => {
                let mut message = key.clone();
                message.append(" is already bound to another custom command");
                message
            },
        }
    }
}

/// A message holds what the error carries, word for word, where it belongs.
pub proof fn law_messages_carry_their_reasons(error: BeaconError)
    ensures
        error matches BeaconError::Client(reason) ==> error.wording() == reason@,
        error matches BeaconError::UnsupportedVersion(version) ==> error.wording()
            == "unsupported Beacon state version "@ + crate::text::digits(version as nat)
            + "; expected "@ + seq!['2'],
        error matches BeaconError::InvalidOutput(fault) ==> error.wording()
            == "Herdr returned invalid JSON: "@ + fault@,
        error matches BeaconError::Command { code, message } ==> error.wording() == code@ + ": "@
            + message@,
        error matches BeaconError::NotShown(reason) ==> error.wording()
            == "Herdr did not show the notification: "@ + reason@,
        error matches BeaconError::EventMismatch { hook, payload } ==> error.wording()
            == "Herdr event mismatch: hook is "@ + hook@ + ", payload is "@ + payload@,
        error matches BeaconError::EventTypeMismatch(hook) ==> error.wording()
            == "Herdr event data type mismatch for "@ + hook@,
        error matches BeaconError::UnsupportedEvent(hook) ==> error.wording()
            == "unsupported Beacon event hook: "@ + hook@,
        error matches BeaconError::PolicySyntax(fault) ==> error.wording() == fault@,
        error matches BeaconError::InvalidConfig(fault) ==> error.wording()
            == "failed to parse the Herdr config: "@ + fault@,
        error matches BeaconError::KeyAssigned { key, action } ==> error.wording() == key@
            + " is already assigned to keys."@ + action@,
        error matches BeaconError::KeyBound(key) ==> error.wording() == key@
            + " is already bound to another custom command"@,
        error matches BeaconError::PolicyUnavailable(reply) ==> (forall|code: JsonView, cause: JsonView|
            #[trigger] crate::json::has(reply@, "code"@, code) && #[trigger] crate::json::has(
                reply@,
                "error"@,
                cause,
            ) ==> error.wording() == "Agents policy unavailable: "@ + crate::json::json_sorted_text(
                code,
            ) + ": "@ + crate::json::json_sorted_text(cause)),
        error matches BeaconError::PolicyUnavailable(reply) ==> (crate::json::lacks(
            reply@,
            "code"@,
        ) && crate::json::lacks(reply@, "error"@) ==> error.wording()
            == "Agents policy unavailable: "@ + crate::json::json_sorted_text(JsonView::Null)
            + ": "@ + crate::json::json_sorted_text(JsonView::Null)),
{
    if let BeaconError::PolicyUnavailable(reply) = error {
        crate::json::law_field_is_the_first_of_its_name(reply@, "code"@, JsonView::Null);
        crate::json::law_field_is_the_first_of_its_name(reply@, "error"@, JsonView::Null);
        assert forall|code: JsonView, cause: JsonView| #[trigger]
            crate::json::has(reply@, "code"@, code) && #[trigger] crate::json::has(
                reply@,
                "error"@,
                cause,
            ) implies error.wording() == "Agents policy unavailable: "@
            + crate::json::json_sorted_text(code) + ": "@ + crate::json::json_sorted_text(cause) by {
            crate::json::law_field_is_the_first_of_its_name(reply@, "code"@, code);
            crate::json::law_field_is_the_first_of_its_name(reply@, "error"@, cause);
        }
    }
    reveal_with_fuel(crate::text::digits, 2);
    assert(crate::text::digits(2) =~= seq!['2']);
}

/// An error that carries nothing is told in one fixed sentence.
pub proof fn law_plain_errors_have_their_sentences(error: BeaconError)
    ensures
        error is InvalidState ==> error.wording() == "failed to parse the Beacon state"@,
        error is StateEncoding ==> error.wording() == "failed to serialize Beacon state"@,
        error is EntryKeyMismatch ==> error.wording()
            == "Beacon state entry key does not match pane id"@,
        error is OrdinalAhead ==> error.wording()
            == "Beacon state ordinal is ahead of its counter"@,
        error is GetWithoutAgent ==> error.wording()
            == "Herdr agent get response omitted result.agent"@,
        error is ListWithoutAgents ==> error.wording()
            == "Herdr agent list response omitted result.agents"@,
        error is FocusWithoutAgent ==> error.wording()
            == "Herdr agent focus response omitted result.agent"@,
        error is FocusWithoutTab ==> error.wording()
            == "Herdr agent focus response omitted result.agent.tab_id"@,
        error is NotificationWithoutOutcome ==> error.wording()
            == "Herdr notification response omitted result.shown"@,
        error is InvalidAgent ==> error.wording() == "invalid Herdr agent payload"@,
        error is InvalidEvent ==> error.wording() == "invalid Herdr event JSON"@,
        error is EventTypeMissing ==> error.wording() == "Herdr event data omitted type"@,
        error is InvalidEventData ==> error.wording() == "invalid Herdr event data"@,
        error is AmbiguousSnapshot ==> error.wording() == "ambiguous canonical Herdr snapshot"@,
        error is InvalidPolicy ==> error.wording() == "invalid Agents policy reply"@,
        error is PolicyMismatch ==> error.wording() == "Agents policy version/session mismatch"@,
        error is PolicySets ==> error.wording()
            == "Agents policy contains invalid or unsorted sets"@,
        error is PolicyUnresolved ==> error.wording()
            == "Agents policy contains unresolved excluded IDs"@,
        error is SocketPath ==> error.wording() == "expected absolute host socket path"@,
        error is ReplyWithoutNewline ==> error.wording() == "Agents policy reply missing newline"@,
        error is ReplyTooLong ==> error.wording() == "Agents policy reply exceeds 256 KiB"@,
        error is KeysNotTable ==> error.wording() == "keys must be a TOML table"@,
        error is CommandsNotTables ==> error.wording()
            == "keys.command must be an array of tables"@,
{
}

} // verus!
