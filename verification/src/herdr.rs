//! What Beacon asks of Herdr, and how Herdr's answers are read.

use vstd::prelude::*;
use crate::eligibility::WorkspacePolicy;
use crate::error::BeaconError;
use crate::json::{flag_in, number_in, read_json, text_in, Json, JsonView};
use crate::ledger::Sighting;
use crate::model::{AgentObservation, AgentStatus};
use crate::text::same;

verus! {

/// The Herdr server and its Agents daemon, as far as Beacon needs them.
pub trait HerdrClient {
    fn agent_get(&self, pane_id: &str) -> Result<Option<AgentObservation>, BeaconError>;

    fn agent_list(&self) -> Result<Vec<AgentObservation>, BeaconError>;

    fn focus_agent(&self, pane_id: &str) -> Result<AgentObservation, BeaconError>;

    fn notify(&self, title: &str, body: Option<&str>) -> Result<(), BeaconError>;

    fn reload_config(&self) -> Result<(), BeaconError>;

    fn workspace_policy(&self) -> Result<WorkspacePolicy, BeaconError>;
}

/// What a Herdr command came back with.
#[derive(Debug, PartialEq, Eq)]
pub struct Invocation {
    pub success: bool,
    pub value: Json,
}

impl Invocation {
    /// Herdr did what it was asked.
    pub open spec fn accepted(self) -> bool {
        self.success && self.value@.field("error"@) is None
    }

    /// The named field of the result.
    pub open spec fn result(self, name: Seq<char>) -> Option<JsonView> {
        crate::json::field_at(self.value@.field("result"@), name)
    }

    /// The error that a command which was not accepted is answered with.
    pub open spec fn is_refusal(self, error: BeaconError) -> bool {
        &&& error matches BeaconError::Command { code, message }
        &&& code@ == match reported_code(self.value@) {
            Some(code) => code,
            None => "command_failed"@,
        }
        &&& message@ == match crate::json::text_at(
            crate::json::field_at(self.value@.field("error"@), "message"@),
        ) {
            Some(message) => message,
            None => "Herdr command failed"@,
        }
    }
}

/// The error code in an answer.
pub open spec fn reported_code(value: JsonView) -> Option<Seq<char>> {
    crate::json::text_at(crate::json::field_at(value.field("error"@), "code"@))
}

/// A command reports on its standard output. One that failed reports on its error
/// output, unless it wrote nothing there.
pub open spec fn report(success: bool, stdout: Seq<u8>, stderr: Seq<u8>) -> Seq<u8> {
    if success || stderr.len() == 0 {
        stdout
    } else {
        stderr
    }
}

/// Reads what a Herdr command printed.
pub fn decode_output(success: bool, stdout: &[u8], stderr: &[u8]) -> (decoded: Result<
    Invocation,
    BeaconError,
>)
    ensures
        match decoded {
            Ok(invocation) => invocation.success == success && crate::json::json_document(
                report(success, stdout@, stderr@),
            ) == Some(invocation.value@),
            Err(error) => (error matches BeaconError::InvalidOutput(fault) && fault@
                == crate::json::json_fault(report(success, stdout@, stderr@)))
                && crate::json::json_document(report(success, stdout@, stderr@)) is None,
        },
{
    let bytes = if success || stderr.len() == 0 {
        stdout
    } else {
        stderr
    };
    match read_json(bytes) {
        Ok(value) => Ok(Invocation { success, value }),
        Err(fault) => Err(BeaconError::InvalidOutput(fault)),
    }
}

/// The named text inside the error of an answer.
fn error_text(value: &Json, name: &str) -> (text: Option<String>)
    ensures
        match text {
            Some(text) => crate::json::text_at(
                crate::json::field_at(value@.field("error"@), name@),
            ) == Some(text@),
            None => crate::json::text_at(
                crate::json::field_at(value@.field("error"@), name@),
            ) is None,
        },
{
    match value.field("error") {
        Some(error) => text_in(error.field(name)),
        None => None,
    }
}

/// The error code in an answer.
pub fn error_code(value: &Json) -> (code: Option<String>)
    ensures
        match code {
            Some(code) => reported_code(value@) == Some(code@),
            None => reported_code(value@) is None,
        },
{
    error_text(value, "code")
}

/// A command succeeded if its process did and its answer holds no error.
pub fn require_success(invocation: &Invocation) -> (verdict: Result<(), BeaconError>)
    ensures
        verdict is Ok <==> invocation.accepted(),
        verdict matches Err(error) ==> invocation.is_refusal(error),
{
    if invocation.success && invocation.value.field("error").is_none() {
        return Ok(());
    }
    let code = match error_code(&invocation.value) {
        Some(code) => code,
        None => "command_failed".to_owned(),
    };
    let message = match error_text(&invocation.value, "message") {
        Some(message) => message,
        None => "Herdr command failed".to_owned(),
    };
    Err(BeaconError::Command { code, message })
}

/// The lifecycle state with the given wire name.
pub open spec fn status_named(name: Seq<char>) -> Option<AgentStatus> {
    if name == "idle"@ {
        Some(AgentStatus::Idle)
    } else if name == "working"@ {
        Some(AgentStatus::Working)
    } else if name == "blocked"@ {
        Some(AgentStatus::Blocked)
    } else if name == "done"@ {
        Some(AgentStatus::Done)
    } else if name == "unknown"@ {
        Some(AgentStatus::Unknown)
    } else {
        None
    }
}

/// A lifecycle state is its name, or an object with that name alone and nothing
/// under it.
pub open spec fn status_at(value: Option<JsonView>) -> Option<AgentStatus> {
    match value {
        Some(JsonView::Text(name)) => status_named(name),
        Some(JsonView::Object(fields)) => if fields.len() == 1 && fields[0].1 is Null {
            status_named(fields[0].0)
        } else {
            None
        },
        _ => None,
    }
}

/// The sequence in an optional value; a server without sequences counts as 0.
pub open spec fn sequence_at(value: Option<JsonView>) -> Option<u64> {
    match value {
        Some(value) => value.number(),
        None => Some(0),
    }
}

/// The agent that a JSON value describes.
pub open spec fn agent_at(value: JsonView) -> Option<Sighting> {
    let terminal_id = crate::json::text_at(value.part(0, "terminal_id"@));
    let status = status_at(value.part(1, "agent_status"@));
    let workspace_id = crate::json::text_at(value.part(2, "workspace_id"@));
    let pane_id = crate::json::text_at(value.part(3, "pane_id"@));
    let focused = crate::json::flag_at(value.part(4, "focused"@));
    let sequence = sequence_at(value.part(5, "state_change_seq"@));
    if value.is_record(5, 6) && terminal_id is Some && status is Some && workspace_id is Some
        && pane_id is Some && focused is Some && sequence is Some {
        Some(
            Sighting {
                pane_id: pane_id->0,
                terminal_id: terminal_id->0,
                workspace_id: workspace_id->0,
                status: status->0,
                focused: focused->0,
                state_change_seq: sequence->0,
            },
        )
    } else {
        None
    }
}

/// The agents that a list of JSON values describes, if each describes one.
pub open spec fn agents_at(values: Seq<JsonView>) -> Option<Seq<Sighting>> {
    if forall|i: int| 0 <= i < values.len() ==> agent_at(#[trigger] values[i]) is Some {
        Some(values.map_values(|value: JsonView| agent_at(value)->0))
    } else {
        None
    }
}

fn status_from(name: &str) -> (status: Option<AgentStatus>)
    ensures
        status == status_named(name@),
{
    if same(name, "idle") {
        Some(AgentStatus::Idle)
    } else if same(name, "working") {
        Some(AgentStatus::Working)
    } else if same(name, "blocked") {
        Some(AgentStatus::Blocked)
    } else if same(name, "done") {
        Some(AgentStatus::Done)
    } else if same(name, "unknown") {
        Some(AgentStatus::Unknown)
    } else {
        None
    }
}

pub fn status_in(value: Option<&Json>) -> (status: Option<AgentStatus>)
    ensures
        status == status_at(crate::json::seen(value)),
{
    match value {
        Some(Json::Text(name)) => status_from(name),
        Some(Json::Object(fields)) => {
            let ghost all = (Json::Object(*fields))@->Object_0;
            if fields.len() == 1 {
                assert(all[0] == (fields@[0].0@, fields@[0].1@));
                match &fields[0].1 {
                    Json::Null => status_from(&fields[0].0),
                    _ => None,
                }
            } else {
                None
            }
        },
        _ => None,
    }
}

fn sequence_in(value: Option<&Json>) -> (sequence: Option<u64>)
    ensures
        sequence == sequence_at(crate::json::seen(value)),
{
    match value {
        Some(_) => number_in(value),
        None => Some(0),
    }
}

/// Reads one agent.
pub fn parse_agent(value: &Json) -> (agent: Result<AgentObservation, BeaconError>)
    ensures
        match agent {
            Ok(agent) => agent_at(value@) == Some(agent@),
            Err(error) => error is InvalidAgent && agent_at(value@) is None,
        },
{
    if !value.is_record(5, 6) {
        return Err(BeaconError::InvalidAgent);
    }
    let terminal_id = text_in(value.part(0, "terminal_id"));
    let status = status_in(value.part(1, "agent_status"));
    let workspace_id = text_in(value.part(2, "workspace_id"));
    let pane_id = text_in(value.part(3, "pane_id"));
    let focused = flag_in(value.part(4, "focused"));
    let sequence = sequence_in(value.part(5, "state_change_seq"));
    match (terminal_id, status, workspace_id, pane_id, focused, sequence) {
        (
            Some(terminal_id),
            Some(status),
            Some(workspace_id),
            Some(pane_id),
            Some(focused),
            Some(state_change_seq),
        ) => Ok(
            AgentObservation {
                pane_id,
                terminal_id,
                workspace_id,
                status,
                focused,
                state_change_seq,
            },
        ),
        _ => Err(BeaconError::InvalidAgent),
    }
}

/// The named field of the result.
fn result_field<'a>(invocation: &'a Invocation, name: &str) -> (value: Option<&'a Json>)
    ensures
        crate::json::seen(value) == invocation.result(name@),
{
    match invocation.value.field("result") {
        Some(result) => result.field(name),
        None => None,
    }
}

/// Reads the answer to `agent get`. A pane without an agent is no error.
pub fn read_agent_get(invocation: &Invocation) -> (agent: Result<
    Option<AgentObservation>,
    BeaconError,
>)
    ensures
        if reported_code(invocation.value@) == Some("agent_not_found"@) {
            agent == Ok::<Option<AgentObservation>, BeaconError>(None)
        } else if !invocation.accepted() {
            agent matches Err(error) && invocation.is_refusal(error)
        } else {
            match invocation.result("agent"@) {
                None => agent matches Err(error) && error is GetWithoutAgent,
                Some(value) => match agent_at(value) {
                    None => agent matches Err(error) && error is InvalidAgent,
                    Some(seen) => agent matches Ok(Some(agent)) && agent@ == seen,
                },
            }
        },
{
    if let Some(code) = error_code(&invocation.value) {
        if same(&code, "agent_not_found") {
            return Ok(None);
        }
    }
    match require_success(invocation) {
        Err(error) => Err(error),
        Ok(()) => match result_field(invocation, "agent") {
            None => Err(BeaconError::GetWithoutAgent),
            Some(value) => match parse_agent(value) {
                Err(error) => Err(error),
                Ok(agent) => Ok(Some(agent)),
            },
        },
    }
}

/// Reads the answer to `agent list`.
pub fn read_agent_list(invocation: &Invocation) -> (agents: Result<
    Vec<AgentObservation>,
    BeaconError,
>)
    ensures
        if !invocation.accepted() {
            agents matches Err(error) && invocation.is_refusal(error)
        } else {
            match invocation.result("agents"@) {
                Some(JsonView::List(values)) => match agents_at(values) {
                    None => agents matches Err(error) && error is InvalidAgent,
                    Some(seen) => agents matches Ok(agents) && crate::model::sightings(agents@)
                        == seen,
                },
                _ => agents matches Err(error) && error is ListWithoutAgents,
            }
        },
{
    match require_success(invocation) {
        Err(error) => Err(error),
        Ok(()) => match result_field(invocation, "agents") {
            Some(Json::List(values)) => {
                let ghost all = (Json::List(*values))@->List_0;
                let mut agents: Vec<AgentObservation> = Vec::new();
                let mut i: usize = 0;
                while i < values.len()
                    invariant
                        i <= values.len(),
                        agents@.len() == i,
                        invocation.accepted(),
                        invocation.result("agents"@) == Some(JsonView::List(all)),
                        all == (Json::List(*values))@->List_0,
                        forall|j: int|
                            0 <= j < i ==> agent_at(#[trigger] all[j]) == Some(agents@[j]@),
                    decreases values.len() - i,
                {
                    assert(all[i as int] == values@[i as int]@);
                    match parse_agent(&values[i]) {
                        Ok(agent) => {
                            agents.push(agent);
                        },
                        Err(error) => {
                            return Err(error);
                        },
                    }
                    i = i + 1;
                }
                assert(crate::model::sightings(agents@) =~= all.map_values(
                    |value: JsonView| agent_at(value)->0,
                ));
                Ok(agents)
            },
            _ => Err(BeaconError::ListWithoutAgents),
        },
    }
}

/// Reads the answer to `agent focus`: the agent, and the tab to switch to.
pub fn read_agent_focus(invocation: &Invocation) -> (focused: Result<
    (AgentObservation, String),
    BeaconError,
>)
    ensures
        if !invocation.accepted() {
            focused matches Err(error) && invocation.is_refusal(error)
        } else {
            match invocation.result("agent"@) {
                None => focused matches Err(error) && error is FocusWithoutAgent,
                Some(value) => match (
                    agent_at(value),
                    crate::json::text_at(value.field("tab_id"@)),
                ) {
                    (None, _) => focused matches Err(error) && error is InvalidAgent,
                    (Some(_), None) => focused matches Err(error) && error is FocusWithoutTab,
                    (Some(seen), Some(tab)) => focused matches Ok((agent, tab_id)) && agent@
                        == seen && tab_id@ == tab,
                },
            }
        },
{
    match require_success(invocation) {
        Err(error) => Err(error),
        Ok(()) => match result_field(invocation, "agent") {
            None => Err(BeaconError::FocusWithoutAgent),
            Some(value) => match parse_agent(value) {
                Err(error) => Err(error),
                Ok(agent) => match text_in(value.field("tab_id")) {
                    None => Err(BeaconError::FocusWithoutTab),
                    Some(tab_id) => Ok((agent, tab_id)),
                },
            },
        },
    }
}

/// Empty queues are successful navigation outcomes. Herdr may intentionally
/// suppress their best-effort notification, for example on rapid keys.
pub open spec fn is_routine(reason: Seq<char>) -> bool {
    reason == "disabled"@ || reason == "rate_limited"@ || reason == "no_foreground_client"@
        || reason == "busy"@
}

/// Reads the answer to `notification show`.
pub fn read_notification(invocation: &Invocation) -> (verdict: Result<(), BeaconError>)
    ensures
        if !invocation.accepted() {
            verdict matches Err(error) && invocation.is_refusal(error)
        } else {
            match crate::json::flag_at(invocation.result("shown"@)) {
                None => verdict matches Err(error) && error is NotificationWithoutOutcome,
                Some(true) => verdict is Ok,
                Some(false) => {
                    let reason = match crate::json::text_at(invocation.result("reason"@)) {
                        Some(reason) => reason,
                        None => "unknown"@,
                    };
                    if is_routine(reason) {
                        verdict is Ok
                    } else {
                        verdict matches Err(BeaconError::NotShown(text)) && text@ == reason
                    }
                },
            }
        },
{
    match require_success(invocation) {
        Err(error) => Err(error),
        Ok(()) => match flag_in(result_field(invocation, "shown")) {
            None => Err(BeaconError::NotificationWithoutOutcome),
            Some(true) => Ok(()),
            Some(false) => {
                let reason = match text_in(result_field(invocation, "reason")) {
                    Some(reason) => reason,
                    None => "unknown".to_owned(),
                };
                if same(&reason, "disabled") || same(&reason, "rate_limited") || same(
                    &reason,
                    "no_foreground_client",
                ) || same(&reason, "busy") {
                    Ok(())
                } else {
                    Err(BeaconError::NotShown(reason))
                }
            },
        },
    }
}

/// Owned copies of a list of texts.
fn strings(values: Vec<&str>) -> (owned: Vec<String>)
    ensures
        crate::text::texts(owned@) == values@.map_values(|value: &str| value@),
{
    let mut owned: Vec<String> = Vec::new();
    let mut i: usize = 0;
    while i < values.len()
        invariant
            i <= values.len(),
            owned@.len() == i,
            forall|j: int| 0 <= j < i ==> (#[trigger] owned@[j])@ == values@[j]@,
        decreases values.len() - i,
    {
        owned.push(values[i].to_owned());
        i = i + 1;
    }
    assert(crate::text::texts(owned@) =~= values@.map_values(|value: &str| value@));
    owned
}

/// `herdr agent get`.
pub fn get_arguments(pane_id: &str) -> (arguments: Vec<String>)
    ensures
        crate::text::texts(arguments@) == seq!["agent"@, "get"@, pane_id@],
{
    let arguments = strings(vec!["agent", "get", pane_id]);
    assert(crate::text::texts(arguments@) =~= seq!["agent"@, "get"@, pane_id@]);
    arguments
}

/// `herdr agent list`.
pub fn list_arguments() -> (arguments: Vec<String>)
    ensures
        crate::text::texts(arguments@) == seq!["agent"@, "list"@],
{
    let arguments = strings(vec!["agent", "list"]);
    assert(crate::text::texts(arguments@) =~= seq!["agent"@, "list"@]);
    arguments
}

/// `herdr agent focus`.
pub fn focus_arguments(pane_id: &str) -> (arguments: Vec<String>)
    ensures
        crate::text::texts(arguments@) == seq!["agent"@, "focus"@, pane_id@],
{
    let arguments = strings(vec!["agent", "focus", pane_id]);
    assert(crate::text::texts(arguments@) =~= seq!["agent"@, "focus"@, pane_id@]);
    arguments
}

/// `herdr tab focus`.
pub fn tab_arguments(tab_id: &str) -> (arguments: Vec<String>)
    ensures
        crate::text::texts(arguments@) == seq!["tab"@, "focus"@, tab_id@],
{
    let arguments = strings(vec!["tab", "focus", tab_id]);
    assert(crate::text::texts(arguments@) =~= seq!["tab"@, "focus"@, tab_id@]);
    arguments
}

/// `herdr notification show`, without sound.
pub fn notification_arguments(title: &str, body: Option<&str>) -> (arguments: Vec<String>)
    ensures
        crate::text::texts(arguments@) == match body {
            Some(body) => seq![
                "notification"@,
                "show"@,
                title@,
                "--body"@,
                body@,
                "--sound"@,
                "none"@,
            ],
            None => seq!["notification"@, "show"@, title@, "--sound"@, "none"@],
        },
{
    match body {
        Some(body) => {
            let arguments = strings(
                vec!["notification", "show", title, "--body", body, "--sound", "none"],
            );
            assert(crate::text::texts(arguments@) =~= seq![
                "notification"@,
                "show"@,
                title@,
                "--body"@,
                body@,
                "--sound"@,
                "none"@,
            ]);
            arguments
        },
        None => {
            let arguments = strings(vec!["notification", "show", title, "--sound", "none"]);
            assert(crate::text::texts(arguments@) =~= seq![
                "notification"@,
                "show"@,
                title@,
                "--sound"@,
                "none"@,
            ]);
            arguments
        },
    }
}

/// `herdr server reload-config`.
pub fn reload_arguments() -> (arguments: Vec<String>)
    ensures
        crate::text::texts(arguments@) == seq!["server"@, "reload-config"@],
{
    let arguments = strings(vec!["server", "reload-config"]);
    assert(crate::text::texts(arguments@) =~= seq!["server"@, "reload-config"@]);
    arguments
}

/// The wire names of the lifecycle states.
pub open spec fn is_wire_name(name: Seq<char>, status: AgentStatus) -> bool {
    ||| name == "idle"@ && status == AgentStatus::Idle
    ||| name == "working"@ && status == AgentStatus::Working
    ||| name == "blocked"@ && status == AgentStatus::Blocked
    ||| name == "done"@ && status == AgentStatus::Done
    ||| name == "unknown"@ && status == AgentStatus::Unknown
}

/// A value gives a lifecycle state: its wire name, or an object with that name alone
/// and `null` under it.
pub open spec fn gives_status(value: JsonView, status: AgentStatus) -> bool {
    ||| value matches JsonView::Text(name) && is_wire_name(name, status)
    ||| value matches JsonView::Object(fields) && fields.len() == 1 && fields[0].1
        == JsonView::Null && is_wire_name(fields[0].0, status)
}

/// A JSON object describes an agent under the names that Herdr uses.
pub open spec fn describes_agent(value: JsonView, seen: Sighting) -> bool {
    &&& crate::json::has(value, "terminal_id"@, JsonView::Text(seen.terminal_id))
    &&& exists|status: JsonView|
        {
            &&& #[trigger] crate::json::has(value, "agent_status"@, status)
            &&& gives_status(status, seen.status)
        }
    &&& crate::json::has(value, "workspace_id"@, JsonView::Text(seen.workspace_id))
    &&& crate::json::has(value, "pane_id"@, JsonView::Text(seen.pane_id))
    &&& crate::json::has(value, "focused"@, JsonView::Bool(seen.focused))
    &&& if seen.state_change_seq == 0 && crate::json::lacks(value, "state_change_seq"@) {
        true
    } else {
        crate::json::has(
            value,
            "state_change_seq"@,
            JsonView::Number(seen.state_change_seq),
        )
    }
}

/// Each lifecycle state has one wire name, and no other text is one.
pub proof fn law_statuses_have_their_wire_names(value: JsonView, status: AgentStatus)
    ensures
        status_at(Some(value)) == Some(status) <==> gives_status(value, status),
{
    lemma_wire_names();
}

/// The wire names are told apart.
proof fn lemma_wire_names()
    ensures
        forall|name: Seq<char>, a: AgentStatus, b: AgentStatus|
            is_wire_name(name, a) && is_wire_name(name, b) ==> a == b,
        forall|name: Seq<char>, status: AgentStatus|
            #![trigger is_wire_name(name, status)]
            is_wire_name(name, status) <==> status_named(name) == Some(status),
{
    reveal_strlit("idle");
    reveal_strlit("working");
    reveal_strlit("blocked");
    reveal_strlit("done");
    reveal_strlit("unknown");
    assert("idle"@[0] == 'i' && "working"@[0] == 'w' && "blocked"@[0] == 'b');
    assert("done"@[0] == 'd' && "unknown"@[0] == 'u');
}

/// An object is read as an agent exactly by what stands under Herdr's names: the ids as
/// they are, the status by its wire name, and the sequence, which a server without
/// sequences leaves out.
pub proof fn law_agents_are_read_by_name(value: JsonView, seen: Sighting)
    requires
        value is Object,
    ensures
        agent_at(value) == Some(seen) <==> describes_agent(value, seen),
{
    lemma_wire_names();
    let fields = value->Object_0;
    crate::json::law_field_is_the_first_of_its_name(
        value,
        "terminal_id"@,
        JsonView::Text(seen.terminal_id),
    );
    crate::json::law_field_is_the_first_of_its_name(
        value,
        "workspace_id"@,
        JsonView::Text(seen.workspace_id),
    );
    crate::json::law_field_is_the_first_of_its_name(
        value,
        "pane_id"@,
        JsonView::Text(seen.pane_id),
    );
    crate::json::law_field_is_the_first_of_its_name(
        value,
        "focused"@,
        JsonView::Bool(seen.focused),
    );
    crate::json::law_field_is_the_first_of_its_name(
        value,
        "state_change_seq"@,
        JsonView::Number(seen.state_change_seq),
    );
    let found = value.field("agent_status"@);
    crate::json::law_field_is_the_first_of_its_name(value, "agent_status"@, found->0);
    assert forall|status: JsonView| #[trigger]
        crate::json::has(value, "agent_status"@, status) implies found == Some(status) by {
        crate::json::law_field_is_the_first_of_its_name(value, "agent_status"@, status);
    }
    if found is Some {
        assert(crate::json::has(value, "agent_status"@, found->0));
        law_statuses_have_their_wire_names(found->0, seen.status);
    }
}

/// An agent can also be given as the list of its parts: terminal, status, workspace,
/// pane, focused flag and, with servers that have one, sequence.
pub proof fn law_agents_are_read_by_place(items: Seq<JsonView>, seen: Sighting)
    ensures
        agent_at(JsonView::List(items)) == Some(seen) <==> {
            &&& items.len() == 5 || items.len() == 6
            &&& items[0] == JsonView::Text(seen.terminal_id)
            &&& gives_status(items[1], seen.status)
            &&& items[2] == JsonView::Text(seen.workspace_id)
            &&& items[3] == JsonView::Text(seen.pane_id)
            &&& items[4] == JsonView::Bool(seen.focused)
            &&& if items.len() == 6 {
                items[5] == JsonView::Number(seen.state_change_seq)
            } else {
                seen.state_change_seq == 0
            }
        },
{
    lemma_wire_names();
    law_statuses_have_their_wire_names(items[1], seen.status);
}

/// What a list answer that was read says: the process succeeded, the answer holds no
/// error, and the list under `result.agents` describes the agents one by one.
pub proof fn law_listed_agents_are_the_answer(
    invocation: &Invocation,
    agents: Vec<AgentObservation>,
)
    requires
        call_ensures(read_agent_list, (invocation,), Ok(agents)),
    ensures
        invocation.success,
        crate::json::lacks(invocation.value@, "error"@),
        exists|result: JsonView, values: Seq<JsonView>|
            {
                &&& #[trigger] crate::json::has(invocation.value@, "result"@, result)
                &&& #[trigger] crate::json::has(result, "agents"@, JsonView::List(values))
                &&& values.len() == agents@.len()
                &&& forall|i: int|
                    0 <= i < values.len() && (#[trigger] values[i]) is Object ==> describes_agent(
                        values[i],
                        agents@[i]@,
                    )
            },
{
    let result = invocation.value@.field("result"@);
    let values = invocation.result("agents"@)->0->List_0;
    crate::json::law_field_is_the_first_of_its_name(
        invocation.value@,
        "error"@,
        JsonView::Null,
    );
    crate::json::law_field_is_the_first_of_its_name(invocation.value@, "result"@, result->0);
    crate::json::law_field_is_the_first_of_its_name(
        result->0,
        "agents"@,
        JsonView::List(values),
    );
    let seen = agents_at(values)->0;
    assert(crate::model::sightings(agents@) == seen);
    assert forall|i: int| 0 <= i < values.len() && (#[trigger] values[i]) is Object implies
        describes_agent(values[i], agents@[i]@) by {
        assert(seen[i] == agent_at(values[i])->0);
        assert(seen[i] == agents@[i]@);
        law_agents_are_read_by_name(values[i], agents@[i]@);
    }
    assert(crate::json::has(invocation.value@, "result"@, result->0));
    assert(crate::json::has(result->0, "agents"@, JsonView::List(values)));
}

/// The answer holds an error with the code.
pub open spec fn has_error_code(value: JsonView, code: Seq<char>) -> bool {
    exists|error: JsonView| #[trigger]
        crate::json::has(value, "error"@, error) && crate::json::has(
            error,
            "code"@,
            JsonView::Text(code),
        )
}

/// The answer holds a result with the part.
pub open spec fn has_result(value: JsonView, name: Seq<char>, part: JsonView) -> bool {
    exists|result: JsonView| #[trigger]
        crate::json::has(value, "result"@, result) && crate::json::has(result, name, part)
}

proof fn lemma_has_error_code(value: JsonView, code: Seq<char>)
    ensures
        has_error_code(value, code) <==> reported_code(value) == Some(code),
{
    let found = value.field("error"@);
    crate::json::law_field_is_the_first_of_its_name(value, "error"@, found->0);
    crate::json::law_field_is_the_first_of_its_name(found->0, "code"@, JsonView::Text(code));
    assert forall|error: JsonView| #[trigger] crate::json::has(value, "error"@, error) implies found
        == Some(error) by {
        crate::json::law_field_is_the_first_of_its_name(value, "error"@, error);
    }
    if found is Some {
        assert(crate::json::has(value, "error"@, found->0));
    }
}

proof fn lemma_has_result(invocation: &Invocation, name: Seq<char>, part: JsonView)
    ensures
        has_result(invocation.value@, name, part) <==> invocation.result(name) == Some(part),
{
    let value = invocation.value@;
    let found = value.field("result"@);
    crate::json::law_field_is_the_first_of_its_name(value, "result"@, found->0);
    crate::json::law_field_is_the_first_of_its_name(found->0, name, part);
    assert forall|result: JsonView| #[trigger]
        crate::json::has(value, "result"@, result) implies found == Some(result) by {
        crate::json::law_field_is_the_first_of_its_name(value, "result"@, result);
    }
    if found is Some {
        assert(crate::json::has(value, "result"@, found->0));
    }
}

/// A command succeeded exactly if its process did and its answer has no `error`. One
/// that failed is reported with the code of the answer, if it has one.
pub proof fn law_success_needs_the_process_and_the_answer(
    invocation: &Invocation,
    verdict: Result<(), BeaconError>,
    code: Seq<char>,
)
    requires
        call_ensures(require_success, (invocation,), verdict),
    ensures
        verdict is Ok <==> invocation.success && crate::json::lacks(invocation.value@, "error"@),
        verdict matches Err(error) ==> (error matches BeaconError::Command {
            code: told,
            message: _,
        } && (has_error_code(invocation.value@, code) ==> told@ == code) && ((forall|other: Seq<
            char,
        >|
            !has_error_code(invocation.value@, other)) ==> told@ == "command_failed"@)),
{
    crate::json::law_field_is_the_first_of_its_name(
        invocation.value@,
        "error"@,
        JsonView::Null,
    );
    lemma_has_error_code(invocation.value@, code);
    if let Some(other) = reported_code(invocation.value@) {
        lemma_has_error_code(invocation.value@, other);
        assert(has_error_code(invocation.value@, other));
    }
}

/// A lookup finds nobody exactly if the answer says `agent_not_found`; an agent that it
/// finds is the one described under `result.agent` of an answer without an error.
pub proof fn law_lookups_find_what_the_answer_describes(
    invocation: &Invocation,
    agent: Result<Option<AgentObservation>, BeaconError>,
)
    requires
        call_ensures(read_agent_get, (invocation,), agent),
    ensures
        (agent matches Ok(None)) <==> has_error_code(invocation.value@, "agent_not_found"@),
        agent matches Ok(Some(found)) ==> {
            &&& invocation.success
            &&& crate::json::lacks(invocation.value@, "error"@)
            &&& exists|value: JsonView| #[trigger]
                has_result(invocation.value@, "agent"@, value) && (value is Object
                    ==> describes_agent(value, found@))
        },
{
    lemma_has_error_code(invocation.value@, "agent_not_found"@);
    crate::json::law_field_is_the_first_of_its_name(
        invocation.value@,
        "error"@,
        JsonView::Null,
    );
    if let Ok(Some(found)) = agent {
        let value = invocation.result("agent"@)->0;
        lemma_has_result(invocation, "agent"@, value);
        assert(has_result(invocation.value@, "agent"@, value));
        if value is Object {
            law_agents_are_read_by_name(value, found@);
        }
    }
}

/// A focus that was read is of the agent described under `result.agent`, and leads to
/// the tab that the description names.
pub proof fn law_focus_leads_to_the_described_tab(
    invocation: &Invocation,
    focused: (AgentObservation, String),
)
    requires
        call_ensures(read_agent_focus, (invocation,), Ok(focused)),
    ensures
        invocation.success,
        crate::json::lacks(invocation.value@, "error"@),
        exists|value: JsonView| #[trigger]
            has_result(invocation.value@, "agent"@, value) && describes_agent(value, focused.0@)
                && crate::json::has(value, "tab_id"@, JsonView::Text(focused.1@)),
{
    crate::json::law_field_is_the_first_of_its_name(
        invocation.value@,
        "error"@,
        JsonView::Null,
    );
    let value = invocation.result("agent"@)->0;
    lemma_has_result(invocation, "agent"@, value);
    assert(has_result(invocation.value@, "agent"@, value));
    crate::json::law_field_is_the_first_of_its_name(
        value,
        "tab_id"@,
        JsonView::Text(focused.1@),
    );
    law_agents_are_read_by_name(value, focused.0@);
}

/// A notification that Herdr did not show is no failure exactly if Herdr says that
/// notifications are disabled, come too fast, have nobody to see them, or that it is
/// busy.
pub proof fn law_suppressed_notifications_are_no_failures(
    invocation: &Invocation,
    verdict: Result<(), BeaconError>,
    reason: Seq<char>,
)
    requires
        call_ensures(read_notification, (invocation,), verdict),
    ensures
        verdict is Ok ==> invocation.success && crate::json::lacks(invocation.value@, "error"@),
        invocation.success && crate::json::lacks(invocation.value@, "error"@) ==> {
            &&& has_result(invocation.value@, "shown"@, JsonView::Bool(true)) ==> verdict is Ok
            &&& has_result(invocation.value@, "shown"@, JsonView::Bool(false)) && has_result(
                invocation.value@,
                "reason"@,
                JsonView::Text(reason),
            ) ==> if reason == "disabled"@ || reason == "rate_limited"@ || reason
                == "no_foreground_client"@ || reason == "busy"@ {
                verdict is Ok
            } else {
                verdict matches Err(BeaconError::NotShown(text)) && text@ == reason
            }
            &&& verdict is Ok ==> has_result(
                invocation.value@,
                "shown"@,
                JsonView::Bool(true),
            ) || has_result(invocation.value@, "shown"@, JsonView::Bool(false))
        },
{
    crate::json::law_field_is_the_first_of_its_name(
        invocation.value@,
        "error"@,
        JsonView::Null,
    );
    lemma_has_result(invocation, "shown"@, JsonView::Bool(true));
    lemma_has_result(invocation, "shown"@, JsonView::Bool(false));
    lemma_has_result(invocation, "reason"@, JsonView::Text(reason));
}

/// A command is judged by its standard output, unless it failed and wrote something to
/// its error output.
pub proof fn law_only_failures_report_on_the_error_output(
    success: bool,
    stdout: &[u8],
    stderr: &[u8],
    invocation: Invocation,
)
    requires
        call_ensures(decode_output, (success, stdout, stderr), Ok(invocation)),
    ensures
        invocation.success == success,
        success ==> crate::json::json_document(stdout@) == Some(invocation.value@),
        !success && stderr@.len() > 0 ==> crate::json::json_document(stderr@) == Some(
            invocation.value@,
        ),
        !success && stderr@.len() == 0 ==> crate::json::json_document(stdout@) == Some(
            invocation.value@,
        ),
{
}

/// The commands that are run name the pane, the tab or the title they were asked for,
/// and nothing else that varies.
pub proof fn law_commands_name_what_they_are_for(
    text: &str,
    get: Vec<String>,
    focus: Vec<String>,
    tab: Vec<String>,
    show: Vec<String>,
    body: &str,
    show_more: Vec<String>,
    list: Vec<String>,
    reload: Vec<String>,
)
    requires
        call_ensures(get_arguments, (text,), get),
        call_ensures(focus_arguments, (text,), focus),
        call_ensures(tab_arguments, (text,), tab),
        call_ensures(notification_arguments, (text, None), show),
        call_ensures(notification_arguments, (text, Some(body)), show_more),
        call_ensures(list_arguments, (), list),
        call_ensures(reload_arguments, (), reload),
    ensures
        crate::text::texts(get@) == seq!["agent"@, "get"@, text@],
        crate::text::texts(focus@) == seq!["agent"@, "focus"@, text@],
        crate::text::texts(tab@) == seq!["tab"@, "focus"@, text@],
        crate::text::texts(show@) == seq!["notification"@, "show"@, text@, "--sound"@, "none"@],
        crate::text::texts(show_more@) == seq![
            "notification"@,
            "show"@,
            text@,
            "--body"@,
            body@,
            "--sound"@,
            "none"@,
        ],
        crate::text::texts(list@) == seq!["agent"@, "list"@],
        crate::text::texts(reload@) == seq!["server"@, "reload-config"@],
{
}

/// The status of a listed agent is told by the text under `agent_status` in its
/// description: each of the five names gives one status, and each status comes from its
/// name alone.
pub proof fn law_listed_statuses_are_told_by_their_names(
    invocation: &Invocation,
    agents: Vec<AgentObservation>,
    values: Seq<JsonView>,
    i: int,
    name: Seq<char>,
)
    requires
        call_ensures(read_agent_list, (invocation,), Ok(agents)),
        has_result(invocation.value@, "agents"@, JsonView::List(values)),
        0 <= i < values.len(),
        crate::json::has(values[i], "agent_status"@, JsonView::Text(name)),
    ensures
        agents@.len() == values.len(),
        name == "idle"@ <==> agents@[i].status == AgentStatus::Idle,
        name == "working"@ <==> agents@[i].status == AgentStatus::Working,
        name == "blocked"@ <==> agents@[i].status == AgentStatus::Blocked,
        name == "done"@ <==> agents@[i].status == AgentStatus::Done,
        name == "unknown"@ <==> agents@[i].status == AgentStatus::Unknown,
{
    lemma_has_result(invocation, "agents"@, JsonView::List(values));
    let seen = agents_at(values)->0;
    assert(crate::model::sightings(agents@) == seen);
    assert(seen[i] == agent_at(values[i])->0);
    assert(seen[i] == agents@[i]@);
    assert(agent_at(values[i]) is Some);
    crate::json::law_field_is_the_first_of_its_name(
        values[i],
        "agent_status"@,
        JsonView::Text(name),
    );
    lemma_wire_names();
    reveal_strlit("idle");
    reveal_strlit("working");
    reveal_strlit("blocked");
    reveal_strlit("done");
    reveal_strlit("unknown");
    assert("idle"@[0] == 'i' && "working"@[0] == 'w' && "blocked"@[0] == 'b');
    assert("done"@[0] == 'd' && "unknown"@[0] == 'u');
}

/// A refusal is told with the message of the answer's error, or, if that has none, with
/// a sentence of its own.
pub proof fn law_refusals_carry_their_message(
    invocation: &Invocation,
    error: BeaconError,
    cause: JsonView,
    text: Seq<char>,
)
    requires
        call_ensures(require_success, (invocation,), Err(error)),
    ensures
        error matches BeaconError::Command { code, message } && {
            &&& crate::json::has(invocation.value@, "error"@, cause) && crate::json::has(
                cause,
                "message"@,
                JsonView::Text(text),
            ) ==> message@ == text
            &&& crate::json::lacks(invocation.value@, "error"@) ==> message@
                == "Herdr command failed"@ && code@ == "command_failed"@
            &&& crate::json::has(invocation.value@, "error"@, cause) && crate::json::lacks(
                cause,
                "message"@,
            ) ==> message@ == "Herdr command failed"@
        },
{
    crate::json::law_field_is_the_first_of_its_name(invocation.value@, "error"@, cause);
    crate::json::law_field_is_the_first_of_its_name(cause, "message"@, JsonView::Text(text));
}

/// Which part an incomplete answer leaves out is told apart.
pub proof fn law_incomplete_answers_are_told_apart(
    invocation: &Invocation,
    got: Result<Option<AgentObservation>, BeaconError>,
    listed: Result<Vec<AgentObservation>, BeaconError>,
    focused: Result<(AgentObservation, String), BeaconError>,
    told: Result<(), BeaconError>,
    value: JsonView,
)
    requires
        call_ensures(read_agent_get, (invocation,), got),
        call_ensures(read_agent_list, (invocation,), listed),
        call_ensures(read_agent_focus, (invocation,), focused),
        call_ensures(read_notification, (invocation,), told),
        invocation.success,
        crate::json::lacks(invocation.value@, "error"@),
    ensures
        (forall|part: JsonView| !has_result(invocation.value@, "agent"@, part)) ==> (
        got matches Err(BeaconError::GetWithoutAgent)) && (focused matches Err(
            BeaconError::FocusWithoutAgent,
        )),
        (forall|part: Seq<JsonView>|
            !has_result(invocation.value@, "agents"@, #[trigger] listed_as(part))) ==> (
        listed matches Err(BeaconError::ListWithoutAgents)),
        has_result(invocation.value@, "agent"@, value) && agent_at(value) is None ==> (
        got matches Err(BeaconError::InvalidAgent)) && (focused matches Err(
            BeaconError::InvalidAgent,
        )),
        has_result(invocation.value@, "agent"@, value) && agent_at(value) is Some
            && crate::json::lacks(value, "tab_id"@) ==> (focused matches Err(
            BeaconError::FocusWithoutTab,
        )) && (got matches Ok(Some(_))),
        (forall|part: JsonView| !has_result(invocation.value@, "shown"@, part)) ==> (
        told matches Err(BeaconError::NotificationWithoutOutcome)),
        has_result(invocation.value@, "shown"@, JsonView::Bool(false)) && (forall|part: JsonView|
            !has_result(invocation.value@, "reason"@, part)) ==> (told matches Err(
            BeaconError::NotShown(reason),
        ) && reason@ == "unknown"@),
{
    crate::json::law_field_is_the_first_of_its_name(
        invocation.value@,
        "error"@,
        JsonView::Null,
    );
    lemma_has_result(invocation, "agent"@, value);
    crate::json::law_field_is_the_first_of_its_name(value, "tab_id"@, JsonView::Null);
    if let Some(part) = invocation.result("agent"@) {
        lemma_has_result(invocation, "agent"@, part);
        assert(has_result(invocation.value@, "agent"@, part));
    }
    if let Some(part) = invocation.result("agents"@) {
        lemma_has_result(invocation, "agents"@, part);
        if let JsonView::List(items) = part {
            assert(has_result(invocation.value@, "agents"@, listed_as(items)));
        }
    }
    if let Some(part) = invocation.result("shown"@) {
        lemma_has_result(invocation, "shown"@, part);
        assert(has_result(invocation.value@, "shown"@, part));
    }
    if let Some(part) = invocation.result("reason"@) {
        lemma_has_result(invocation, "reason"@, part);
        assert(has_result(invocation.value@, "reason"@, part));
    }
    lemma_has_result(invocation, "shown"@, JsonView::Bool(false));
    reveal_strlit("unknown");
    reveal_strlit("disabled");
    reveal_strlit("rate_limited");
    reveal_strlit("no_foreground_client");
    reveal_strlit("busy");
    assert("unknown"@.len() == 7 && "disabled"@.len() == 8 && "rate_limited"@.len() == 12);
    assert("no_foreground_client"@.len() == 20 && "busy"@.len() == 4);
}

/// The JSON list of some values.
pub open spec fn listed_as(values: Seq<JsonView>) -> JsonView {
    JsonView::List(values)
}

} // verus!
