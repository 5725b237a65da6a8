//! Replays out-of-order hooks through the ledger and the unread selector. Only
//! Herdr is replaced: focus requests are recorded, never sent.
use std::cell::RefCell;

use herdr_beacon::eligibility::WorkspacePolicy;
use herdr_beacon::error::BeaconError;
use herdr_beacon::event::handle_event_json;
use herdr_beacon::herdr::HerdrClient;
use herdr_beacon::jump::{
    approach, invocation_pane, jump_unread, jump_working, next_step, Approach, JumpOutcome, Step,
};
use herdr_beacon::model::{AgentObservation, AgentStatus, BeaconState, ObservationSource};

const POLICY: &str = r#"{"ok":true,"version":1,"herdr_socket":"/test/host.sock",
    "excluded_labels":[],"workspace_ids":["w1","w2"],
    "excluded_workspace_ids":[],"show_excluded":false}"#;

#[derive(Default)]
struct FakeHerdr {
    agents: RefCell<Vec<AgentObservation>>,
    selected: RefCell<Vec<String>>,
    policy_down: RefCell<bool>,
}

impl HerdrClient for FakeHerdr {
    fn agent_get(&self, pane_id: &str) -> Result<Option<AgentObservation>, BeaconError> {
        Ok(self
            .agents
            .borrow()
            .iter()
            .find(|agent| agent.pane_id == pane_id)
            .cloned())
    }

    fn agent_list(&self) -> Result<Vec<AgentObservation>, BeaconError> {
        Ok(self.agents.borrow().clone())
    }

    fn focus_agent(&self, pane_id: &str) -> Result<AgentObservation, BeaconError> {
        self.selected.borrow_mut().push(pane_id.to_string());
        Ok(self.agent_get(pane_id)?.unwrap())
    }

    fn notify(&self, _title: &str, _body: Option<&str>) -> Result<(), BeaconError> {
        Ok(())
    }

    fn reload_config(&self) -> Result<(), BeaconError> {
        Err(BeaconError::Client(
            "replay must not change configuration".to_string(),
        ))
    }

    fn workspace_policy(&self) -> Result<WorkspacePolicy, BeaconError> {
        if *self.policy_down.borrow() {
            return Err(BeaconError::Client("stopped".to_string()));
        }
        WorkspacePolicy::from_reply(POLICY.as_bytes(), "/test/host.sock")
    }
}

/// Each replay owns its state; hook order can vary independently of the current live
/// pane address, just as separately scheduled plugin processes do.
struct Replay {
    herdr: FakeHerdr,
    state: BeaconState,
}

fn terminal(pane: &str, status: AgentStatus, sequence: u64) -> AgentObservation {
    AgentObservation {
        pane_id: pane.to_string(),
        terminal_id: "same-terminal".to_string(),
        workspace_id: pane.split(':').next().unwrap().to_string(),
        status,
        focused: false,
        state_change_seq: sequence,
    }
}

impl Replay {
    fn new() -> Self {
        Self {
            herdr: FakeHerdr::default(),
            state: BeaconState::default(),
        }
    }

    fn live(&self, pane: &str, status: AgentStatus, sequence: u64) {
        *self.herdr.agents.borrow_mut() = vec![terminal(pane, status, sequence)];
    }

    fn event(&mut self, name: &str, fields: &str) {
        let tag = name.replace('.', "_");
        let payload = format!(r#"{{"event":"{tag}","data":{{"type":"{tag}",{fields}}}}}"#);
        handle_event_json(&self.herdr, &mut self.state, name, &payload).unwrap();
    }

    fn moved(&mut self) {
        self.event(
            "pane.moved",
            r#""previous_pane_id":"w1:p1","pane":{"pane_id":"w2:p2","workspace_id":"w2","terminal_id":"same-terminal"}"#,
        );
    }

    fn assert_no_target(&mut self) {
        assert_eq!(
            jump_unread(&self.herdr, &mut self.state, Some("w9:p9")).unwrap(),
            JumpOutcome::Empty,
            "an acknowledged completion must not be selected again"
        );
        assert!(self.herdr.selected.borrow().is_empty());
    }
}

#[test]
fn tests_that_delayed_move_preserves_destination_acknowledgement() {
    for status in [AgentStatus::Idle, AgentStatus::Done] {
        let mut replay = Replay::new();
        replay.live("w1:p1", AgentStatus::Done, 10);
        replay.event("pane.agent_status_changed", r#""pane_id":"w1:p1""#);
        replay.live("w2:p2", status, 10);
        replay.event("pane.focused", r#""pane_id":"w2:p2""#);

        // The user already viewed the new address before the move hook ran.
        replay.moved();
        replay.assert_no_target();
    }
}

#[test]
fn tests_that_moved_acknowledgement_clears_destination_pending_entry() {
    let mut replay = Replay::new();
    replay.live("w1:p1", AgentStatus::Done, 10);
    replay.event("pane.focused", r#""pane_id":"w1:p1""#);
    replay.live("w2:p2", AgentStatus::Done, 10);
    replay.event("pane.agent_status_changed", r#""pane_id":"w2:p2""#);

    // A status hook at the new address can run before the acknowledgement's
    // identity transfer. Both hook orders must converge to the same read state.
    replay.moved();
    replay.assert_no_target();
}

#[test]
fn tests_that_move_keeps_a_newer_unseen_idle_completion() {
    let mut replay = Replay::new();
    replay.live("w1:p1", AgentStatus::Done, 10);
    replay.event("pane.focused", r#""pane_id":"w1:p1""#);
    replay.live("w2:p2", AgentStatus::Working, 11);
    replay.event("pane.agent_status_changed", r#""pane_id":"w2:p2""#);
    replay.live("w2:p2", AgentStatus::Idle, 12);
    replay.event("pane.agent_status_changed", r#""pane_id":"w2:p2""#);
    replay.moved();

    assert_eq!(
        jump_unread(&replay.herdr, &mut replay.state, Some("w9:p9")).unwrap(),
        JumpOutcome::Focused("w2:p2".to_string())
    );
    assert_eq!(*replay.herdr.selected.borrow(), ["w2:p2"]);
}

#[test]
fn moved_panes_settle_against_acknowledgements_in_either_order() {
    let mut entry_first = BeaconState::default();
    entry_first.observe(
        terminal("w1:p1", AgentStatus::Done, 10),
        ObservationSource::Event,
    );
    entry_first.observe(
        terminal("w2:p2", AgentStatus::Done, 10),
        ObservationSource::Focus,
    );
    entry_first.move_pane("w1:p1", "w2:p2", "w2", "same-terminal");
    assert!(entry_first.newest().is_none());

    let mut acknowledgement_first = BeaconState::default();
    acknowledgement_first.observe(
        terminal("w1:p1", AgentStatus::Done, 10),
        ObservationSource::Focus,
    );
    acknowledgement_first.observe(
        terminal("w2:p2", AgentStatus::Done, 10),
        ObservationSource::Event,
    );
    acknowledgement_first.move_pane("w1:p1", "w2:p2", "w2", "same-terminal");
    assert!(acknowledgement_first.newest().is_none());
}

#[test]
fn approaches_are_checked_before_anything_is_focused() {
    let herdr = FakeHerdr::default();
    let selected = terminal("w1:p1", AgentStatus::Working, 3);
    assert!(matches!(approach(&herdr, &selected), Approach::Refused));
    *herdr.agents.borrow_mut() = vec![AgentObservation {
        workspace_id: "w2".to_string(),
        ..selected.clone()
    }];
    assert!(matches!(approach(&herdr, &selected), Approach::Refused));
    *herdr.agents.borrow_mut() = vec![selected.clone()];
    *herdr.policy_down.borrow_mut() = true;
    assert!(matches!(
        approach(&herdr, &selected),
        Approach::Unconfirmed(_)
    ));
    assert!(herdr.selected.borrow().is_empty());
    *herdr.policy_down.borrow_mut() = false;
    assert!(matches!(
        approach(&herdr, &selected),
        Approach::Arrived(agent) if agent.pane_id == "w1:p1"
    ));
    assert_eq!(*herdr.selected.borrow(), ["w1:p1"]);
}

#[test]
fn jumps_without_a_policy_ask_for_recovery() {
    let replay = Replay::new();
    replay.live("w1:p1", AgentStatus::Working, 3);
    *replay.herdr.policy_down.borrow_mut() = true;
    let mut state = BeaconState::default();
    assert_eq!(
        jump_working(&replay.herdr, &mut state, None),
        Err(BeaconError::Client("stopped".to_string()))
    );
    assert!(state.recovery_needed());
}

#[test]
fn the_invoking_pane_comes_from_the_context_or_is_inherited() {
    let named = Some(r#"{"focused_pane_id":"w1:p2"}"#);
    assert_eq!(
        invocation_pane(named, Some("w1:p1")),
        Some("w1:p2".to_string())
    );
    for context in [
        None,
        Some("not json"),
        Some("{}"),
        Some(r#"{"focused_pane_id":null}"#),
        Some(r#"{"focused_pane_id":""}"#),
        Some(r#"{"focused_pane_id":7}"#),
    ] {
        assert_eq!(
            invocation_pane(context, Some("w1:p1")),
            Some("w1:p1".to_string())
        );
        assert_eq!(invocation_pane(context, Some("")), None);
        assert_eq!(invocation_pane(context, None), None);
    }
}

#[test]
fn contexts_name_the_pane_once_and_skip_the_rest() {
    for context in [
        r#"{"other":1e999,"focused_pane_id":"w1:p2"}"#,
        r#"["w1:p2"]"#,
        r#"{"x":{"focused_pane_id":"w9:p9"},"focused_pane_id":"w1:p2","x":1}"#,
    ] {
        assert_eq!(
            invocation_pane(Some(context), Some("w1:p1")),
            Some("w1:p2".to_string())
        );
    }
    let twice = r#"{"focused_pane_id":"w1:p2","focused_pane_id":"w1:p2"}"#;
    assert_eq!(
        invocation_pane(Some(twice), Some("w1:p1")),
        Some("w1:p1".to_string())
    );
}

#[test]
fn nothing_is_focused_before_both_checks() {
    let selected = terminal("w1:p1", AgentStatus::Working, 3);
    let policy = WorkspacePolicy::from_reply(POLICY.as_bytes(), "/test/host.sock").unwrap();
    let elsewhere = terminal("w3:p1", AgentStatus::Working, 3);
    let later = terminal("w1:p1", AgentStatus::Idle, 9);
    for (live, policy, step) in [
        (None, None, Step::Refuse),
        (None, Some(&policy), Step::Refuse),
        (Some(&elsewhere), None, Step::Refuse),
        (Some(&elsewhere), Some(&policy), Step::Refuse),
        (Some(&later), None, Step::Consult),
        (Some(&later), Some(&policy), Step::Focus),
    ] {
        assert_eq!(next_step(&selected, live, policy), step);
    }
    assert_eq!(
        next_step(&elsewhere, Some(&elsewhere), Some(&policy)),
        Step::Refuse
    );
}
