use std::collections::BTreeMap;

use herdr_beacon::eligibility::WorkspacePolicy;
use herdr_beacon::error::BeaconError;
use herdr_beacon::event::{decode_event, handle_event_json, Hook};
use herdr_beacon::herdr::HerdrClient;
use herdr_beacon::model::{AgentObservation, AgentStatus, BeaconState, ObservationSource};

const POLICY: &str = r#"{"ok":true,"version":1,"herdr_socket":"/test/host.sock",
    "excluded_labels":[],"workspace_ids":["w1","w2"],
    "excluded_workspace_ids":[],"show_excluded":false}"#;

#[derive(Default)]
struct FakeHerdr {
    agents: BTreeMap<String, AgentObservation>,
}

impl HerdrClient for FakeHerdr {
    fn agent_get(&self, pane_id: &str) -> Result<Option<AgentObservation>, BeaconError> {
        Ok(self.agents.get(pane_id).cloned())
    }

    fn agent_list(&self) -> Result<Vec<AgentObservation>, BeaconError> {
        Ok(self.agents.values().cloned().collect())
    }

    fn focus_agent(&self, _pane_id: &str) -> Result<AgentObservation, BeaconError> {
        Err(BeaconError::Client("not used by event tests".to_string()))
    }

    fn notify(&self, _title: &str, _body: Option<&str>) -> Result<(), BeaconError> {
        Ok(())
    }

    fn reload_config(&self) -> Result<(), BeaconError> {
        Ok(())
    }

    fn workspace_policy(&self) -> Result<WorkspacePolicy, BeaconError> {
        WorkspacePolicy::from_reply(POLICY.as_bytes(), "/test/host.sock")
    }
}

fn agent(status: AgentStatus, focused: bool, sequence: u64) -> AgentObservation {
    AgentObservation {
        pane_id: "w1:p1".to_string(),
        terminal_id: "terminal-1".to_string(),
        workspace_id: "w1".to_string(),
        status,
        focused,
        state_change_seq: sequence,
    }
}

fn event(name: &str, fields: &str) -> String {
    let tag = name.replace('.', "_");
    format!(r#"{{"event":"{tag}","data":{{"type":"{tag}"{fields}}}}}"#)
}

#[test]
fn status_hook_uses_live_state_instead_of_the_payload_status() {
    let mut state = BeaconState::default();
    let fake = FakeHerdr {
        agents: BTreeMap::from([("w1:p1".to_string(), agent(AgentStatus::Working, false, 6))]),
    };
    let payload = r#"{"event":"pane_agent_status_changed","data":{"type":"pane_agent_status_changed","pane_id":"w1:p1","workspace_id":"w1","agent_status":"done"}}"#;

    handle_event_json(&fake, &mut state, "pane.agent_status_changed", payload).unwrap();

    assert!(state.newest().is_none());
}

#[test]
fn background_done_and_blocked_agents_are_recorded() {
    for status in [AgentStatus::Done, AgentStatus::Blocked] {
        let mut state = BeaconState::default();
        let fake = FakeHerdr {
            agents: BTreeMap::from([("w1:p1".to_string(), agent(status, false, 8))]),
        };
        let payload = format!(
            r#"{{"event":"pane_agent_status_changed","data":{{"type":"pane_agent_status_changed","pane_id":"w1:p1","workspace_id":"w1","agent_status":"{}"}}}}"#,
            match status {
                AgentStatus::Done => "done",
                AgentStatus::Blocked => "blocked",
                _ => unreachable!(),
            }
        );

        handle_event_json(&fake, &mut state, "pane.agent_status_changed", &payload).unwrap();

        assert_eq!(state.newest().unwrap().status, status);
    }
}

#[test]
fn focus_hook_clears_blocked_even_after_focus_moves_away() {
    let mut state = BeaconState::default();
    state.observe(
        agent(AgentStatus::Blocked, false, 10),
        ObservationSource::Event,
    );
    let fake = FakeHerdr {
        agents: BTreeMap::from([("w1:p1".to_string(), agent(AgentStatus::Blocked, false, 10))]),
    };
    let payload = r#"{"event":"pane_focused","data":{"type":"pane_focused","pane_id":"w1:p1","workspace_id":"w1"}}"#;

    handle_event_json(&fake, &mut state, "pane.focused", payload).unwrap();

    assert!(state.newest().is_none());
}

#[test]
fn release_and_missing_closed_panes_are_removed() {
    for (event, payload) in [
        (
            "pane.agent_detected",
            r#"{"event":"pane_agent_detected","data":{"type":"pane_agent_detected","pane_id":"w1:p1","workspace_id":"w1","released":true}}"#,
        ),
        (
            "pane.closed",
            r#"{"event":"pane_closed","data":{"type":"pane_closed","pane_id":"w1:p1","workspace_id":"w1"}}"#,
        ),
    ] {
        let mut state = BeaconState::default();
        state.observe(agent(AgentStatus::Done, false, 4), ObservationSource::Event);

        handle_event_json(&FakeHerdr::default(), &mut state, event, payload).unwrap();

        assert!(state.newest().is_none());
    }
}

#[test]
fn pane_move_transfers_the_existing_identity() {
    let mut state = BeaconState::default();
    state.observe(
        agent(AgentStatus::Done, false, 14),
        ObservationSource::Event,
    );
    let moved = AgentObservation {
        pane_id: "w2:p3".to_string(),
        terminal_id: "terminal-1".to_string(),
        workspace_id: "w2".to_string(),
        status: AgentStatus::Done,
        focused: false,
        state_change_seq: 14,
    };
    let fake = FakeHerdr {
        agents: BTreeMap::from([("w2:p3".to_string(), moved)]),
    };
    let payload = r#"{"event":"pane_moved","data":{"type":"pane_moved","previous_pane_id":"w1:p1","previous_workspace_id":"w1","previous_tab_id":"w1:t1","pane":{"pane_id":"w2:p3","workspace_id":"w2","terminal_id":"terminal-1"}}}"#;

    handle_event_json(&fake, &mut state, "pane.moved", payload).unwrap();

    assert_eq!(state.newest().unwrap().pane_id, "w2:p3");
}

#[test]
fn malformed_or_mismatched_events_fail_closed() {
    let mut state = BeaconState::default();
    assert!(
        handle_event_json(&FakeHerdr::default(), &mut state, "pane.focused", "not-json").is_err()
    );
    assert!(handle_event_json(
        &FakeHerdr::default(),
        &mut state,
        "workspace.focused",
        r#"{"data":{}}"#
    )
    .is_err());
}

#[test]
fn unreadable_events_leave_the_ledger_alone() {
    let mut state = BeaconState::default();
    state.observe(agent(AgentStatus::Done, false, 4), ObservationSource::Event);
    assert!(handle_event_json(&FakeHerdr::default(), &mut state, "pane.focused", "[").is_err());
    assert_eq!(state.entries().len(), 1);
    assert!(!state.recovery_needed());
}

#[test]
fn each_event_defect_has_its_own_error() {
    assert_eq!(
        decode_event("pane.focused", "not-json"),
        Err(BeaconError::InvalidEvent)
    );
    assert_eq!(
        decode_event("pane.focused", r#"{"event":"pane_focused"}"#),
        Err(BeaconError::InvalidEvent)
    );
    assert_eq!(
        decode_event("pane.focused", r#"{"event":"pane_closed","data":{}}"#),
        Err(BeaconError::EventMismatch {
            hook: "pane.focused".to_string(),
            payload: "pane_closed".to_string(),
        })
    );
    assert_eq!(
        decode_event("pane.focused", r#"{"event":"pane_focused","data":{}}"#),
        Err(BeaconError::EventTypeMissing)
    );
    assert_eq!(
        decode_event(
            "pane.focused",
            r#"{"event":"pane_focused","data":{"type":"pane_closed"}}"#
        ),
        Err(BeaconError::EventTypeMismatch("pane.focused".to_string()))
    );
    assert_eq!(
        decode_event("pane.focused", &event("pane.focused", "")),
        Err(BeaconError::InvalidEventData)
    );
    assert_eq!(
        decode_event("tab.focused", &event("tab.focused", "")),
        Err(BeaconError::UnsupportedEvent("tab.focused".to_string()))
    );
    assert_eq!(
        decode_event("tab.focused", &event("tab.focused", ""))
            .unwrap_err()
            .message(),
        "unsupported Beacon event hook: tab.focused"
    );
}

#[test]
fn events_name_the_pane_that_they_report_on() {
    let pane = r#","pane_id":"w1:p1""#;
    assert_eq!(
        decode_event(
            "pane.agent_status_changed",
            &event("pane.agent_status_changed", pane)
        ),
        Ok(Hook::Reported("w1:p1".to_string()))
    );
    assert_eq!(
        decode_event("pane.focused", &event("pane.focused", pane)),
        Ok(Hook::Focused("w1:p1".to_string()))
    );
    for name in ["pane.closed", "pane.exited"] {
        assert_eq!(decode_event(name, &event(name, pane)), Ok(Hook::Changed));
    }
    assert_eq!(
        decode_event("pane.agent_detected", &event("pane.agent_detected", pane)),
        Ok(Hook::Reported("w1:p1".to_string()))
    );
    assert_eq!(
        decode_event(
            "pane.agent_detected",
            &event("pane.agent_detected", r#","pane_id":"w1:p1","released":true"#)
        ),
        Ok(Hook::Changed)
    );
    assert_eq!(
        decode_event(
            "pane.agent_detected",
            &event("pane.agent_detected", r#","pane_id":"w1:p1","released":1"#)
        ),
        Err(BeaconError::InvalidEventData)
    );
    assert_eq!(
        decode_event(
            "pane.moved",
            &event(
                "pane.moved",
                r#","previous_pane_id":"old","pane":{"pane_id":"new","workspace_id":"w","terminal_id":"t"}"#
            )
        ),
        Ok(Hook::Reported("new".to_string()))
    );
    assert_eq!(
        decode_event(
            "pane.moved",
            &event(
                "pane.moved",
                r#","previous_pane_id":"old","pane":{"pane_id":"new"}"#
            )
        ),
        Err(BeaconError::InvalidEventData)
    );
    for name in [
        "workspace.created",
        "workspace.closed",
        "workspace.renamed",
    ] {
        assert_eq!(decode_event(name, &event(name, "")), Ok(Hook::Changed));
    }
}

#[test]
fn a_hook_after_a_server_restart_starts_from_the_new_sequence() {
    let mut state = BeaconState::default();
    state.observe(agent(AgentStatus::Done, false, 50), ObservationSource::Event);
    assert_eq!(state.newest().unwrap().state_change_seq, 50);
    let status = event("pane.agent_status_changed", r#","pane_id":"w1:p1""#);

    let restarted = FakeHerdr {
        agents: BTreeMap::from([("w1:p1".to_string(), agent(AgentStatus::Done, false, 3))]),
    };
    handle_event_json(&restarted, &mut state, "pane.agent_status_changed", &status).unwrap();
    assert!(state.newest().is_none());

    let later = FakeHerdr {
        agents: BTreeMap::from([("w1:p1".to_string(), agent(AgentStatus::Blocked, false, 4))]),
    };
    handle_event_json(&later, &mut state, "pane.agent_status_changed", &status).unwrap();
    assert_eq!(state.newest().unwrap().state_change_seq, 4);
}

#[test]
fn envelopes_have_their_fields_once_and_skip_the_others() {
    let data = r#"{"type":"pane_focused","pane_id":"w1:p1"}"#;
    let deep = format!("{}{}", "[".repeat(300), "]".repeat(300));
    for payload in [
        format!(r#"{{"event":"pane_focused","data":{data}}}"#),
        format!(r#" [ "pane_focused" , {data} ] "#),
        format!(r#"{{"at":1e999,"event":"pane_focused","data":{data}}}"#),
        format!(r#"{{"event":"pane_focused","data":{data},"note":"\ud800"}}"#),
        format!(r#"{{"event":"pane_focused","deep":{deep},"data":{data}}}"#),
        format!(r#"{{"x":1,"x":2,"\u0065vent":"pane_focused","data":{data}}}"#),
    ] {
        assert_eq!(
            decode_event("pane.focused", &payload),
            Ok(Hook::Focused("w1:p1".to_string())),
            "{payload}"
        );
    }
    for payload in [
        format!(r#"{{"event":"pane_focused","event":"pane_focused","data":{data}}}"#),
        format!(r#"{{"event":"pane_focused","data":{data},"data":{data}}}"#),
        format!(r#"{{"event":"pane_focused","\u0065vent":"pane_focused","data":{data}}}"#),
        format!(r#"["pane_focused",{data},1]"#),
        format!(r#"{{"event":"pane_focused","data":{data},}}"#),
        format!(r#"{{"event":"pane_focused" "data":{data}}}"#),
        format!(r#"{{"event":"pane_focused","data":{data}}} x"#),
        r#"{"event":"pane_focused","data":{"type":"pane_focused","pane_id":"w1:p1","n":1e999}}"#
            .to_string(),
        "{}".to_string(),
        "[]".to_string(),
    ] {
        assert_eq!(
            decode_event("pane.focused", &payload),
            Err(BeaconError::InvalidEvent),
            "{payload}"
        );
    }
}
