//! Herdr hooks: what they say, and what they change.

use vstd::prelude::*;
use crate::eligibility::{reconcile, WorkspacePolicy};
use crate::error::BeaconError;
use crate::herdr::HerdrClient;
use crate::json::{flag_in, text_in, Json, JsonView};
use crate::ledger::Ledger;
use crate::model::{AgentObservation, BeaconState};
use crate::record::{find_field, read_part, read_parts, Parts, PartsView};
use crate::text::{chars_of, same, text_of};

verus! {

/// What a hook means for the ledger. Every hook reconciles it with what is live.
#[derive(Debug, PartialEq, Eq)]
pub enum Hook {
    /// The agent at the pane did something.
    Reported(String),
    /// The user went to the pane.
    Focused(String),
    /// Something changed that speaks of no agent in particular.
    Changed,
}

/// The meaning of a hook.
pub enum HookView {
    Reported(Seq<char>),
    Focused(Seq<char>),
    Changed,
}

impl View for Hook {
    type V = HookView;

    open spec fn view(&self) -> HookView {
        match self {
            Hook::Reported(pane_id) => HookView::Reported(pane_id@),
            Hook::Focused(pane_id) => HookView::Focused(pane_id@),
            Hook::Changed => HookView::Changed,
        }
    }
}

/// The name of an event inside its payload.
pub open spec fn tag(event_name: Seq<char>) -> Seq<char> {
    event_name.map_values(
        |c: char|
            if c == '.' {
                '_'
            } else {
                c
            },
    )
}

/// The hook that an event's data describes; `None` if the data is incomplete.
pub open spec fn hook_at(event_name: Seq<char>, data: JsonView) -> Option<HookView> {
    let pane_id = crate::json::text_at(data.field("pane_id"@));
    if event_name == "pane.agent_status_changed"@ {
        match pane_id {
            Some(pane_id) => Some(HookView::Reported(pane_id)),
            None => None,
        }
    } else if event_name == "pane.focused"@ {
        match pane_id {
            Some(pane_id) => Some(HookView::Focused(pane_id)),
            None => None,
        }
    } else if event_name == "pane.closed"@ || event_name == "pane.exited"@ {
        match pane_id {
            Some(_) => Some(HookView::Changed),
            None => None,
        }
    } else if event_name == "pane.agent_detected"@ {
        match (pane_id, released_at(data.field("released"@))) {
            (Some(_), Some(true)) => Some(HookView::Changed),
            (Some(pane_id), Some(false)) => Some(HookView::Reported(pane_id)),
            _ => None,
        }
    } else if event_name == "pane.moved"@ {
        match (
            crate::json::text_at(data.field("previous_pane_id"@)),
            moved_to(data.field("pane"@)),
        ) {
            (Some(_), Some(pane_id)) => Some(HookView::Reported(pane_id)),
            _ => None,
        }
    } else {
        Some(HookView::Changed)
    }
}

/// Whether an agent was released; one is not unless the event says so.
pub open spec fn released_at(value: Option<JsonView>) -> Option<bool> {
    match value {
        Some(value) => value.flag(),
        None => Some(false),
    }
}

/// The address that a terminal moved to.
pub open spec fn moved_to(value: Option<JsonView>) -> Option<Seq<char>> {
    match value {
        Some(pane) => if pane.is_record(3, 3) && crate::json::text_at(
            pane.part(1, "workspace_id"@),
        ) is Some && crate::json::text_at(pane.part(2, "terminal_id"@)) is Some {
            crate::json::text_at(pane.part(0, "pane_id"@))
        } else {
            None
        },
        None => None,
    }
}

/// The events that Beacon subscribes to.
pub open spec fn is_supported(event_name: Seq<char>) -> bool {
    ||| event_name == "pane.agent_status_changed"@
    ||| event_name == "pane.focused"@
    ||| event_name == "pane.closed"@
    ||| event_name == "pane.exited"@
    ||| event_name == "pane.agent_detected"@
    ||| event_name == "pane.moved"@
    ||| event_name == "workspace.created"@
    ||| event_name == "workspace.closed"@
    ||| event_name == "workspace.renamed"@
}

/// The envelope that a payload is: the name of the event, and its data. It has each of
/// them once; what else it has is skipped.
pub open spec fn envelope_at(payload: Seq<u8>) -> Option<(Seq<char>, JsonView)> {
    match crate::record::parts(payload) {
        Some(PartsView::Fields(fields)) => if crate::record::uses(fields, "event"@) == 1
            && crate::record::uses(fields, "data"@) == 1 {
            enclosed(
                crate::record::text_under(fields, "event"@),
                crate::record::text_under(fields, "data"@),
            )
        } else {
            None
        },
        Some(PartsView::Items(items)) => if items.len() == 2 {
            enclosed(Some(items[0]), Some(items[1]))
        } else {
            None
        },
        None => None,
    }
}

/// What the two parts of an envelope hold.
pub open spec fn enclosed(event: Option<Seq<u8>>, data: Option<Seq<u8>>) -> Option<
    (Seq<char>, JsonView),
> {
    match (event, data) {
        (Some(event), Some(data)) => match (
            crate::json::text_at(crate::record::part_value(event)),
            crate::record::part_value(data),
        ) {
            (Some(event), Some(data)) => Some((event, data)),
            _ => None,
        },
        _ => None,
    }
}

/// How reading an event ends, given its envelope.
pub open spec fn reads_event(
    event_name: Seq<char>,
    envelope: Option<(Seq<char>, JsonView)>,
    hook: Result<Hook, BeaconError>,
) -> bool {
    match envelope {
        None => hook matches Err(error) && error is InvalidEvent,
        Some((event, data)) => if event != tag(event_name) {
            hook matches Err(BeaconError::EventMismatch { hook, payload }) && hook@ == event_name
                && payload@ == event
        } else {
            match crate::json::text_at(data.field("type"@)) {
                None => hook matches Err(error) && error is EventTypeMissing,
                Some(kind) => if kind != tag(event_name) {
                    hook matches Err(BeaconError::EventTypeMismatch(name)) && name@ == event_name
                } else if !is_supported(event_name) {
                    hook matches Err(BeaconError::UnsupportedEvent(name)) && name@ == event_name
                } else {
                    match hook_at(event_name, data) {
                        None => hook matches Err(error) && error is InvalidEventData,
                        Some(meaning) => hook matches Ok(hook) && hook@ == meaning,
                    }
                },
            }
        },
    }
}

/// The name of an event inside its payload.
fn tag_of(event_name: &str) -> (name: String)
    ensures
        name@ == tag(event_name@),
{
    let chars = chars_of(event_name);
    let mut tagged: Vec<char> = Vec::new();
    let mut i: usize = 0;
    while i < chars.len()
        invariant
            i <= chars.len(),
            chars@ == event_name@,
            tagged@ == tag(event_name@).take(i as int),
        decreases chars.len() - i,
    {
        assert(tag(event_name@).take(i + 1) =~= tag(event_name@).take(i as int).push(
            tag(event_name@)[i as int],
        ));
        tagged.push(
            if chars[i] == '.' {
                '_'
            } else {
                chars[i]
            },
        );
        i = i + 1;
    }
    assert(tag(event_name@).take(chars.len() as int) =~= tag(event_name@));
    text_of(&tagged)
}

fn released_in(value: Option<&Json>) -> (released: Option<bool>)
    ensures
        released == released_at(crate::json::seen(value)),
{
    match value {
        Some(_) => flag_in(value),
        None => Some(false),
    }
}

fn moved_in(value: Option<&Json>) -> (pane_id: Option<String>)
    ensures
        match pane_id {
            Some(pane_id) => moved_to(crate::json::seen(value)) == Some(pane_id@),
            None => moved_to(crate::json::seen(value)) is None,
        },
{
    match value {
        Some(pane) => {
            if !pane.is_record(3, 3) {
                return None;
            }
            let workspace_id = text_in(pane.part(1, "workspace_id"));
            let terminal_id = text_in(pane.part(2, "terminal_id"));
            if workspace_id.is_none() || terminal_id.is_none() {
                return None;
            }
            text_in(pane.part(0, "pane_id"))
        },
        None => None,
    }
}

/// The hook that a supported event's data describes.
fn parse_data(event_name: &str, data: &Json) -> (hook: Option<Hook>)
    ensures
        match hook {
            Some(hook) => hook_at(event_name@, data@) == Some(hook@),
            None => hook_at(event_name@, data@) is None,
        },
{
    let pane_id = text_in(data.field("pane_id"));
    if same(event_name, "pane.agent_status_changed") {
        match pane_id {
            Some(pane_id) => Some(Hook::Reported(pane_id)),
            None => None,
        }
    } else if same(event_name, "pane.focused") {
        match pane_id {
            Some(pane_id) => Some(Hook::Focused(pane_id)),
            None => None,
        }
    } else if same(event_name, "pane.closed") || same(event_name, "pane.exited") {
        match pane_id {
            Some(_) => Some(Hook::Changed),
            None => None,
        }
    } else if same(event_name, "pane.agent_detected") {
        match (pane_id, released_in(data.field("released"))) {
            (Some(_), Some(true)) => Some(Hook::Changed),
            (Some(pane_id), Some(false)) => Some(Hook::Reported(pane_id)),
            _ => None,
        }
    } else if same(event_name, "pane.moved") {
        let previous = text_in(data.field("previous_pane_id"));
        match (previous, moved_in(data.field("pane"))) {
            (Some(_), Some(pane_id)) => Some(Hook::Reported(pane_id)),
            _ => None,
        }
    } else {
        Some(Hook::Changed)
    }
}

fn supports(event_name: &str) -> (supported: bool)
    ensures
        supported == is_supported(event_name@),
{
    same(event_name, "pane.agent_status_changed") || same(event_name, "pane.focused") || same(
        event_name,
        "pane.closed",
    ) || same(event_name, "pane.exited") || same(event_name, "pane.agent_detected") || same(
        event_name,
        "pane.moved",
    ) || same(event_name, "workspace.created") || same(event_name, "workspace.closed") || same(
        event_name,
        "workspace.renamed",
    )
}

/// Reads an event from its envelope.
pub fn read_event(event_name: &str, event: String, data: &Json) -> (hook: Result<
    Hook,
    BeaconError,
>)
    ensures
        reads_event(event_name@, Some((event@, data@)), hook),
{
    let expected = tag_of(event_name);
    if !same(&event, &expected) {
        return Err(BeaconError::EventMismatch { hook: event_name.to_owned(), payload: event });
    }
    match text_in(data.field("type")) {
        None => Err(BeaconError::EventTypeMissing),
        Some(kind) => if !same(&kind, &expected) {
            Err(BeaconError::EventTypeMismatch(event_name.to_owned()))
        } else if !supports(event_name) {
            Err(BeaconError::UnsupportedEvent(event_name.to_owned()))
        } else {
            match parse_data(event_name, data) {
                Some(hook) => Ok(hook),
                None => Err(BeaconError::InvalidEventData),
            }
        },
    }
}

/// Reads the two parts of an envelope.
fn open_envelope(event: &[u8], data: &[u8]) -> (envelope: Option<(String, Json)>)
    ensures
        match envelope {
            Some((event_name, value)) => enclosed(Some(event@), Some(data@)) == Some(
                (event_name@, value@),
            ),
            None => enclosed(Some(event@), Some(data@)) is None,
        },
{
    let event = match read_part(event) {
        Some(value) => text_in(Some(&value)),
        None => None,
    };
    match (event, read_part(data)) {
        (Some(event), Some(data)) => Some((event, data)),
        _ => None,
    }
}

/// Reads the envelope of an event.
fn read_envelope(payload: &[u8]) -> (envelope: Option<(String, Json)>)
    ensures
        match envelope {
            Some((event, data)) => envelope_at(payload@) == Some((event@, data@)),
            None => envelope_at(payload@) is None,
        },
{
    match read_parts(payload) {
        Some(Parts::Fields(fields)) => {
            let event = find_field(&fields, "event");
            let data = find_field(&fields, "data");
            if event.0 != 1 || data.0 != 1 {
                return None;
            }
            match (event.1, data.1) {
                (Some(event), Some(data)) => open_envelope(event.as_slice(), data.as_slice()),
                _ => None,
            }
        },
        Some(Parts::Items(items)) => if items.len() == 2 {
            assert(crate::record::items_seen(items@)[0] == items@[0]@);
            assert(crate::record::items_seen(items@)[1] == items@[1]@);
            open_envelope(items[0].as_slice(), items[1].as_slice())
        } else {
            None
        },
        None => None,
    }
}

/// Reads an event from its payload.
pub fn decode_event(event_name: &str, payload: &str) -> (hook: Result<Hook, BeaconError>)
    ensures
        reads_event(event_name@, envelope_at(vstd::utf8::encode_utf8(payload@)), hook),
{
    match read_envelope(payload.as_bytes()) {
        None => Err(BeaconError::InvalidEvent),
        Some((event, data)) => read_event(event_name, event, &data),
    }
}

impl HookView {
    /// The pane whose agent the hook reports on.
    pub open spec fn reported(self) -> Option<Seq<char>> {
        match self {
            HookView::Reported(pane_id) => Some(pane_id),
            _ => None,
        }
    }

    /// The ledger after a hook, once it was reconciled and these are the agents
    /// that may be navigated to. A focus on a pane marks its agent as read.
    pub open spec fn concluded(
        self,
        ledger: Ledger,
        eligible: Seq<crate::ledger::Sighting>,
    ) -> Ledger {
        match self {
            HookView::Focused(pane_id) => ledger.acknowledged(eligible, Some(pane_id)),
            _ => ledger,
        }
    }
}

/// How a hook ends, given how the reconciliation did.
pub open spec fn concludes(
    hook: HookView,
    middle: Ledger,
    end: Ledger,
    reconciled: Result<Vec<AgentObservation>, BeaconError>,
    outcome: Result<(), BeaconError>,
) -> bool {
    match reconciled {
        Err(failure) => end == middle && (outcome matches Err(error) && error == failure),
        Ok(eligible) => end == hook.concluded(middle, crate::model::sightings(eligible@))
            && outcome is Ok,
    }
}

/// What a hook does to the ledger, given what Agents and Herdr answered.
pub open spec fn applies(
    hook: HookView,
    start: Ledger,
    end: Ledger,
    policy: Result<WorkspacePolicy, BeaconError>,
    agents: Result<Vec<AgentObservation>, BeaconError>,
    outcome: Result<(), BeaconError>,
) -> bool {
    exists|middle: Ledger, reconciled: Result<Vec<AgentObservation>, BeaconError>| #[trigger]
        crate::eligibility::reconciles(start, middle, policy, agents, hook.reported(), reconciled)
            && concludes(hook, middle, end, reconciled, outcome)
}

/// Reconciles the ledger with what is live, and takes in what the hook adds.
pub fn apply_hook<H: HerdrClient>(herdr: &H, state: &mut BeaconState, hook: &Hook) -> (outcome:
    Result<(), BeaconError>)
    requires
        old(state).wf(),
    ensures
        final(state).wf(),
        exists|
            policy: Result<WorkspacePolicy, BeaconError>,
            agents: Result<Vec<AgentObservation>, BeaconError>,
        | #[trigger]
            crate::eligibility::answered(herdr, policy, agents) && applies(
                hook@,
                old(state)@,
                final(state)@,
                policy,
                agents,
                outcome,
            ),
{
    let ghost start = state@;
    let reported: Option<&str> = match hook {
        Hook::Reported(pane_id) => Some(pane_id),
        _ => None,
    };
    let reconciled = reconcile(herdr, state, reported);
    let ghost middle = state@;
    let ghost (policy, agents) = choose|
        policy: Result<WorkspacePolicy, BeaconError>,
        agents: Result<Vec<AgentObservation>, BeaconError>,
    | #[trigger]
        crate::eligibility::answered(herdr, policy, agents) && crate::eligibility::reconciles(
            start,
            middle,
            policy,
            agents,
            crate::text::given(reported),
            reconciled,
        );
    let outcome = conclude_hook(state, hook, reconciled);
    assert(crate::eligibility::answered(herdr, policy, agents));
    assert(crate::eligibility::reconciles(
        start,
        middle,
        policy,
        agents,
        hook@.reported(),
        reconciled,
    ) && concludes(hook@, middle, state@, reconciled, outcome));
    outcome
}

/// Takes in what the hook adds to a reconciled ledger.
pub fn conclude_hook(
    state: &mut BeaconState,
    hook: &Hook,
    reconciled: Result<Vec<AgentObservation>, BeaconError>,
) -> (outcome: Result<(), BeaconError>)
    requires
        old(state).wf(),
    ensures
        final(state).wf(),
        concludes(hook@, old(state)@, final(state)@, reconciled, outcome),
{
    match reconciled {
        Err(error) => Err(error),
        Ok(eligible) => {
            if let Hook::Focused(pane_id) = hook {
                let current: Option<&str> = Some(pane_id);
                state.acknowledge(&eligible, current);
            }
            Ok(())
        },
    }
}

/// Handles one event. An event that cannot be read changes nothing.
pub fn handle_event_json<H: HerdrClient>(
    herdr: &H,
    state: &mut BeaconState,
    event_name: &str,
    payload: &str,
) -> (outcome: Result<(), BeaconError>)
    requires
        old(state).wf(),
    ensures
        final(state).wf(),
        exists|hook: Result<Hook, BeaconError>|
            #![trigger handles(herdr, hook, old(state)@, final(state)@, outcome)]
            reads_event(event_name@, envelope_at(vstd::utf8::encode_utf8(payload@)), hook)
                && handles(herdr, hook, old(state)@, final(state)@, outcome),
{
    let ghost start = state@;
    let decoded = decode_event(event_name, payload);
    match decoded {
        Ok(hook) => {
            let outcome = apply_hook(herdr, state, &hook);
            assert(handles(herdr, Ok(hook), start, state@, outcome));
            outcome
        },
        Err(error) => {
            assert(handles(herdr, Err(error), start, state@, Err::<(), BeaconError>(error)));
            Err(error)
        },
    }
}

/// What handling a decoded event does.
pub open spec fn handles<H: HerdrClient>(
    herdr: &H,
    hook: Result<Hook, BeaconError>,
    start: Ledger,
    end: Ledger,
    outcome: Result<(), BeaconError>,
) -> bool {
    match hook {
        Err(failure) => end == start && (outcome matches Err(error) && error == failure),
        Ok(hook) => exists|
            policy: Result<WorkspacePolicy, BeaconError>,
            agents: Result<Vec<AgentObservation>, BeaconError>,
        | #[trigger]
            crate::eligibility::answered(herdr, policy, agents) && applies(
                hook@,
                start,
                end,
                policy,
                agents,
                outcome,
            ),
    }
}

/// An event has the name of a hook in its payload, with underscores for the dots.
pub open spec fn is_tagged(event: Seq<char>, event_name: Seq<char>) -> bool {
    &&& event.len() == event_name.len()
    &&& forall|i: int|
        0 <= i < event.len() ==> #[trigger] event[i] == if event_name[i] == '.' {
            '_'
        } else {
            event_name[i]
        }
}

/// The events that speak of a pane without moving it.
pub open spec fn speaks_of_a_pane(event_name: Seq<char>) -> bool {
    ||| event_name == "pane.agent_status_changed"@
    ||| event_name == "pane.focused"@
    ||| event_name == "pane.closed"@
    ||| event_name == "pane.exited"@
    ||| event_name == "pane.agent_detected"@
}

/// The events that speak of a workspace.
pub open spec fn speaks_of_a_workspace(event_name: Seq<char>) -> bool {
    ||| event_name == "workspace.created"@
    ||| event_name == "workspace.closed"@
    ||| event_name == "workspace.renamed"@
}

proof fn lemma_tagged(event: Seq<char>, event_name: Seq<char>)
    ensures
        is_tagged(event, event_name) <==> event == tag(event_name),
{
    if is_tagged(event, event_name) {
        assert(event =~= tag(event_name));
    }
}

/// The names of the events are told apart.
proof fn lemma_event_names(event_name: Seq<char>)
    ensures
        speaks_of_a_workspace(event_name) ==> !speaks_of_a_pane(event_name) && event_name
            != "pane.moved"@,
        speaks_of_a_pane(event_name) ==> event_name != "pane.moved"@,
        event_name == "pane.focused"@ ==> event_name != "pane.agent_status_changed"@,
        event_name == "pane.closed"@ || event_name == "pane.exited"@ ==> event_name
            != "pane.agent_status_changed"@ && event_name != "pane.focused"@ && event_name
            != "pane.agent_detected"@,
        event_name == "pane.agent_detected"@ ==> event_name != "pane.agent_status_changed"@
            && event_name != "pane.focused"@,
{
    reveal_strlit("pane.agent_status_changed");
    reveal_strlit("pane.focused");
    reveal_strlit("pane.closed");
    reveal_strlit("pane.exited");
    reveal_strlit("pane.agent_detected");
    reveal_strlit("pane.moved");
    reveal_strlit("workspace.created");
    reveal_strlit("workspace.closed");
    reveal_strlit("workspace.renamed");
    assert("pane.agent_status_changed"@.len() == 25 && "pane.agent_detected"@.len() == 19);
    assert("pane.focused"@.len() == 12 && "pane.closed"@.len() == 11);
    assert("pane.exited"@.len() == 11 && "pane.moved"@.len() == 10);
    assert("pane.agent_status_changed"@[0] == 'p' && "pane.agent_detected"@[0] == 'p');
    assert("pane.focused"@[0] == 'p' && "pane.closed"@[0] == 'p' && "pane.exited"@[0] == 'p');
    assert("pane.moved"@[0] == 'p' && "workspace.created"@[0] == 'w');
    assert("workspace.closed"@[0] == 'w' && "workspace.renamed"@[0] == 'w');
}

/// What an event that was read means. A status change and an agent that turns up report
/// on their pane, and a move on the pane moved to; a focus is one on its pane; an agent
/// that was released, a pane that closed or exited and a change of workspaces speak of
/// no agent in particular. No other event is read, and none whose payload or data go by
/// another name.
pub proof fn law_events_mean_what_their_names_say(
    event_name: Seq<char>,
    event: Seq<char>,
    data: JsonView,
    hook: Hook,
)
    requires
        reads_event(event_name, Some((event, data)), Ok(hook)),
    ensures
        is_tagged(event, event_name),
        crate::json::has(data, "type"@, JsonView::Text(event)),
        speaks_of_a_pane(event_name) || speaks_of_a_workspace(event_name) || event_name
            == "pane.moved"@,
        speaks_of_a_workspace(event_name) ==> hook@ is Changed,
        speaks_of_a_pane(event_name) ==> exists|pane_id: Seq<char>|
            {
                &&& #[trigger] crate::json::has(data, "pane_id"@, JsonView::Text(pane_id))
                &&& event_name == "pane.agent_status_changed"@ ==> hook@ == HookView::Reported(
                    pane_id,
                )
                &&& event_name == "pane.focused"@ ==> hook@ == HookView::Focused(pane_id)
                &&& event_name == "pane.closed"@ || event_name == "pane.exited"@ ==> hook@
                    is Changed
                &&& event_name == "pane.agent_detected"@ ==> {
                    ||| crate::json::has(data, "released"@, JsonView::Bool(true)) && hook@
                        is Changed
                    ||| (crate::json::has(data, "released"@, JsonView::Bool(false))
                        || crate::json::lacks(data, "released"@)) && hook@ == HookView::Reported(
                        pane_id,
                    )
                }
            },
        event_name == "pane.moved"@ ==> exists|pane: JsonView, previous: Seq<char>|
            {
                &&& #[trigger] crate::json::has(
                    data,
                    "previous_pane_id"@,
                    JsonView::Text(previous),
                )
                &&& #[trigger] crate::json::has(data, "pane"@, pane)
                &&& hook@ is Reported
                &&& pane is Object ==> crate::json::has(
                    pane,
                    "pane_id"@,
                    JsonView::Text(hook@->Reported_0),
                ) && !crate::json::lacks(pane, "workspace_id"@) && !crate::json::lacks(
                    pane,
                    "terminal_id"@,
                )
                &&& pane matches JsonView::List(items) ==> items.len() == 3 && items[0]
                    == JsonView::Text(hook@->Reported_0) && items[1] is Text && items[2] is Text
                &&& pane is Object || pane is List
            },
{
    lemma_tagged(event, event_name);
    lemma_event_names(event_name);
    crate::json::law_field_is_the_first_of_its_name(data, "type"@, JsonView::Text(event));
    let pane_id = crate::json::text_at(data.field("pane_id"@))->0;
    crate::json::law_field_is_the_first_of_its_name(data, "pane_id"@, JsonView::Text(pane_id));
    crate::json::law_field_is_the_first_of_its_name(data, "released"@, JsonView::Bool(true));
    crate::json::law_field_is_the_first_of_its_name(data, "released"@, JsonView::Bool(false));
    if speaks_of_a_pane(event_name) {
        assert(crate::json::has(data, "pane_id"@, JsonView::Text(pane_id)));
    }
    if event_name == "pane.moved"@ {
        lemma_moved_is_last();
        let previous = crate::json::text_at(data.field("previous_pane_id"@))->0;
        let pane = data.field("pane"@)->0;
        crate::json::law_field_is_the_first_of_its_name(
            data,
            "previous_pane_id"@,
            JsonView::Text(previous),
        );
        crate::json::law_field_is_the_first_of_its_name(data, "pane"@, pane);
        assert(crate::json::has(data, "previous_pane_id"@, JsonView::Text(previous)));
        assert(crate::json::has(data, "pane"@, pane));
        crate::json::law_field_is_the_first_of_its_name(
            pane,
            "pane_id"@,
            JsonView::Text(hook@->Reported_0),
        );
        crate::json::law_field_is_the_first_of_its_name(pane, "workspace_id"@, JsonView::Null);
        crate::json::law_field_is_the_first_of_its_name(pane, "terminal_id"@, JsonView::Null);
    }
}

/// A move is none of the other events.
proof fn lemma_moved_is_last()
    ensures
        !speaks_of_a_pane("pane.moved"@),
        !speaks_of_a_workspace("pane.moved"@),
{
    lemma_event_names("pane.moved"@);
}

/// An event that Beacon subscribes to is read whenever its payload and its data go by
/// its name and name what it speaks of; any other one is refused as unsupported.
pub proof fn law_complete_events_are_read(
    event_name: Seq<char>,
    event: Seq<char>,
    data: JsonView,
    pane_id: Seq<char>,
    hook: Result<Hook, BeaconError>,
)
    requires
        reads_event(event_name, Some((event, data)), hook),
        is_tagged(event, event_name),
        crate::json::has(data, "type"@, JsonView::Text(event)),
    ensures
        speaks_of_a_workspace(event_name) ==> hook is Ok,
        speaks_of_a_pane(event_name) && crate::json::has(
            data,
            "pane_id"@,
            JsonView::Text(pane_id),
        ) && (event_name == "pane.agent_detected"@ ==> crate::json::lacks(data, "released"@)
            || crate::json::has(data, "released"@, JsonView::Bool(true)) || crate::json::has(
            data,
            "released"@,
            JsonView::Bool(false),
        )) ==> hook is Ok,
        !speaks_of_a_workspace(event_name) && !speaks_of_a_pane(event_name) && event_name
            != "pane.moved"@ ==> (hook matches Err(BeaconError::UnsupportedEvent(name)) && name@
            == event_name),
{
    lemma_tagged(event, event_name);
    lemma_event_names(event_name);
    crate::json::law_field_is_the_first_of_its_name(data, "type"@, JsonView::Text(event));
    crate::json::law_field_is_the_first_of_its_name(data, "pane_id"@, JsonView::Text(pane_id));
    crate::json::law_field_is_the_first_of_its_name(data, "released"@, JsonView::Bool(true));
    crate::json::law_field_is_the_first_of_its_name(data, "released"@, JsonView::Bool(false));
}

/// An event whose payload goes by another name than its hook is refused before anything
/// else is looked at, and both names are reported.
pub proof fn law_misnamed_events_are_refused(
    event_name: Seq<char>,
    event: Seq<char>,
    data: JsonView,
    hook: Result<Hook, BeaconError>,
)
    requires
        reads_event(event_name, Some((event, data)), hook),
        !is_tagged(event, event_name),
    ensures
        hook matches Err(BeaconError::EventMismatch { hook, payload }) && hook@ == event_name
            && payload@ == event,
{
    lemma_tagged(event, event_name);
}

/// A payload with fields is an envelope exactly if it has one `event`, which is a text,
/// and one `data`. What else it has does not matter.
pub proof fn law_envelopes_have_event_and_data_once(
    payload: Seq<u8>,
    fields: Seq<(Seq<char>, Seq<u8>)>,
    event: Seq<char>,
    data: JsonView,
)
    requires
        crate::record::parts(payload) == Some(PartsView::Fields(fields)),
    ensures
        envelope_at(payload) == Some((event, data)) <==> exists|named: Seq<u8>, held: Seq<u8>|
            {
                &&& #[trigger] crate::record::has_once(fields, "event"@, named)
                &&& #[trigger] crate::record::has_once(fields, "data"@, held)
                &&& crate::record::part_value(named) == Some(JsonView::Text(event))
                &&& crate::record::part_value(held) == Some(data)
            },
{
    if envelope_at(payload) == Some((event, data)) {
        let named = crate::record::text_under(fields, "event"@)->0;
        let held = crate::record::text_under(fields, "data"@)->0;
        crate::record::law_single_fields_are_found(fields, "event"@, named);
        crate::record::law_single_fields_are_found(fields, "data"@, held);
        assert(crate::record::has_once(fields, "event"@, named));
        assert(crate::record::has_once(fields, "data"@, held));
    }
    assert forall|named: Seq<u8>, held: Seq<u8>|
        #[trigger] crate::record::has_once(fields, "event"@, named)
            && #[trigger] crate::record::has_once(fields, "data"@, held)
            && crate::record::part_value(named) == Some(JsonView::Text(event))
            && crate::record::part_value(held) == Some(data) implies envelope_at(payload) == Some(
        (event, data),
    ) by {
        crate::record::law_single_fields_are_found(fields, "event"@, named);
        crate::record::law_single_fields_are_found(fields, "data"@, held);
    }
}

/// What a hook does once Agents and Herdr answered: the ledger is reconciled with the
/// snapshot, as an event of the pane if the hook reports on one, and a focus then counts
/// as being seen at its pane. Without both answers the ledger only notes that it has to
/// recover, and the failure is handed on.
pub proof fn law_hooks_reconcile_and_then_add(
    hook: HookView,
    start: Ledger,
    end: Ledger,
    policy: Result<WorkspacePolicy, BeaconError>,
    agents: Result<Vec<AgentObservation>, BeaconError>,
    outcome: Result<(), BeaconError>,
)
    requires
        applies(hook, start, end, policy, agents, outcome),
    ensures
        policy matches Err(failure) ==> end == (Ledger { recovery_needed: true, ..start }) && (
        outcome matches Err(error) && error == failure),
        policy is Ok ==> (agents matches Err(failure) ==> end == (Ledger {
            recovery_needed: true,
            ..start
        }) && (outcome matches Err(error) && error == failure)),
        policy matches Ok(allowed) ==> (agents matches Ok(listed) ==> {
            let seen = crate::model::sightings(listed@);
            let apart = forall|i: int, j: int|
                0 <= i < j < seen.len() ==> (#[trigger] seen[i]).pane_id != (
                #[trigger] seen[j]).pane_id && seen[i].terminal_id != seen[j].terminal_id;
            let named = forall|i: int|
                0 <= i < seen.len() ==> (#[trigger] seen[i]).pane_id.len() > 0
                    && seen[i].terminal_id.len() > 0;
            &&& !(apart && named) ==> end == (Ledger { recovery_needed: true, ..start }) && (
            outcome matches Err(BeaconError::AmbiguousSnapshot))
            &&& apart && named ==> outcome is Ok && end == match hook {
                HookView::Reported(pane_id) => start.reconciled(allowed@, seen, Some(pane_id)),
                HookView::Changed => start.reconciled(allowed@, seen, None),
                HookView::Focused(pane_id) => start.reconciled(allowed@, seen, None).acknowledged(
                    seen.filter(
                        |agent: crate::ledger::Sighting|
                            allowed@.workspaces.contains(agent.workspace_id)
                                && !allowed@.excluded.contains(agent.workspace_id),
                    ),
                    Some(pane_id),
                ),
            }
        }),
{
    if let Ok(allowed) = policy {
        if let Ok(listed) = agents {
            crate::outcomes::law_known_and_not_excluded_is_eligible(
                allowed@,
                crate::model::sightings(listed@),
                allowed@.session,
            );
        }
    }
}

/// A payload that is a list is an envelope exactly if it holds the event and the data and
/// nothing else; one that is neither object nor list is none.
pub proof fn law_listed_envelopes_hold_event_and_data(
    payload: Seq<u8>,
    event: Seq<char>,
    data: JsonView,
)
    ensures
        crate::record::parts(payload) matches Some(PartsView::Items(items)) ==> (envelope_at(
            payload,
        ) == Some((event, data)) <==> items.len() == 2 && crate::record::part_value(items[0])
            == Some(JsonView::Text(event)) && crate::record::part_value(items[1]) == Some(data)),
        crate::record::parts(payload) is None ==> envelope_at(payload) is None,
{
}

/// An event that cannot be read changes nothing, and why it cannot be read is handed on.
pub proof fn law_unreadable_events_change_nothing<H: HerdrClient>(
    herdr: &H,
    failure: BeaconError,
    start: Ledger,
    end: Ledger,
    outcome: Result<(), BeaconError>,
)
    requires
        handles(herdr, Err(failure), start, end, outcome),
    ensures
        end == start,
        outcome matches Err(error) && error == failure,
{
}

/// A payload that is no envelope is no event, and data without a type, or of another
/// type than the event, is refused as such.
pub proof fn law_untyped_events_are_refused(
    event_name: Seq<char>,
    event: Seq<char>,
    data: JsonView,
    kind: Seq<char>,
    hook: Result<Hook, BeaconError>,
    unread: Result<Hook, BeaconError>,
)
    requires
        reads_event(event_name, Some((event, data)), hook),
        reads_event(event_name, None, unread),
        is_tagged(event, event_name),
    ensures
        unread matches Err(BeaconError::InvalidEvent),
        crate::json::lacks(data, "type"@) ==> (hook matches Err(BeaconError::EventTypeMissing)),
        crate::json::has(data, "type"@, JsonView::Text(kind)) && kind != event ==> (
        hook matches Err(BeaconError::EventTypeMismatch(name)) && name@ == event_name),
{
    lemma_tagged(event, event_name);
    crate::json::law_field_is_the_first_of_its_name(data, "type"@, JsonView::Text(kind));
}

} // verus!
