use std::sync::Mutex;

use herdr_beacon::eligibility::WorkspacePolicy;
use herdr_beacon::error::BeaconError;
use herdr_beacon::herdr::HerdrClient;
use herdr_beacon::jump::{
    jump_recent, jump_recent_reverse, jump_unread, jump_working, JumpOutcome,
};
use herdr_beacon::model::{AgentObservation, AgentStatus, BeaconState, ObservationSource};

const POLICY: &str = r#"{"ok":true,"version":1,"herdr_socket":"/test/host.sock",
    "excluded_labels":[],"workspace_ids":["w1","w2","w3","w4","w5"],
    "excluded_workspace_ids":[],"show_excluded":false}"#;

struct FakeHerdr {
    agents: Vec<AgentObservation>,
    focus_error: bool,
    focused: Mutex<Vec<String>>,
    notifications: Mutex<Vec<String>>,
}

impl FakeHerdr {
    fn new(agents: Vec<AgentObservation>) -> Self {
        Self {
            agents,
            focus_error: false,
            focused: Mutex::new(Vec::new()),
            notifications: Mutex::new(Vec::new()),
        }
    }
}

impl HerdrClient for FakeHerdr {
    fn agent_get(&self, pane_id: &str) -> Result<Option<AgentObservation>, BeaconError> {
        Ok(self
            .agents
            .iter()
            .find(|agent| agent.pane_id == pane_id)
            .cloned())
    }

    fn agent_list(&self) -> Result<Vec<AgentObservation>, BeaconError> {
        Ok(self.agents.clone())
    }

    fn focus_agent(&self, pane_id: &str) -> Result<AgentObservation, BeaconError> {
        if self.focus_error {
            return Err(BeaconError::Client("focus failed".to_string()));
        }
        self.focused.lock().unwrap().push(pane_id.to_string());
        let mut agent = self
            .agents
            .iter()
            .find(|agent| agent.pane_id == pane_id)
            .cloned()
            .unwrap();
        agent.focused = true;
        agent.status = AgentStatus::Idle;
        Ok(agent)
    }

    fn notify(&self, title: &str, _body: Option<&str>) -> Result<(), BeaconError> {
        self.notifications.lock().unwrap().push(title.to_string());
        Ok(())
    }

    fn reload_config(&self) -> Result<(), BeaconError> {
        Ok(())
    }

    fn workspace_policy(&self) -> Result<WorkspacePolicy, BeaconError> {
        WorkspacePolicy::from_reply(POLICY.as_bytes(), "/test/host.sock")
    }
}

fn agent(pane: &str, status: AgentStatus, sequence: u64) -> AgentObservation {
    AgentObservation {
        pane_id: pane.to_string(),
        terminal_id: format!("terminal-{pane}"),
        workspace_id: pane.split(':').next().unwrap().to_string(),
        status,
        focused: false,
        state_change_seq: sequence,
    }
}

#[test]
fn jump_recovers_done_agents_and_focuses_the_newest() {
    let mut state = BeaconState::default();
    let fake = FakeHerdr::new(vec![
        agent("w1:p1", AgentStatus::Done, 4),
        agent("w2:p1", AgentStatus::Done, 9),
    ]);

    let outcome = jump_unread(&fake, &mut state, None).unwrap();

    assert_eq!(outcome, JumpOutcome::Focused("w2:p1".to_string()));
    assert_eq!(*fake.focused.lock().unwrap(), ["w2:p1"]);
    assert_eq!(state.entries().len(), 1);
    assert_eq!(state.newest().unwrap().pane_id, "w1:p1");
}

#[test]
fn working_jump_advances_from_the_focused_agent_in_recency_order() {
    let mut state = BeaconState::default();
    let mut newest = agent("w1:p1", AgentStatus::Working, 12);
    newest.focused = true;
    let fake = FakeHerdr::new(vec![
        agent("w1:p3", AgentStatus::Working, 4),
        newest,
        agent("w1:p2", AgentStatus::Working, 8),
        agent("w1:p4", AgentStatus::Idle, 20),
    ]);

    let outcome = jump_working(&fake, &mut state, None).unwrap();

    assert_eq!(outcome, JumpOutcome::Focused("w1:p2".to_string()));
    assert_eq!(*fake.focused.lock().unwrap(), ["w1:p2"]);
}

#[test]
fn working_jump_uses_invoking_pane_instead_of_server_focus() {
    let mut state = BeaconState::default();
    let mut server_focused = agent("w1:p1", AgentStatus::Working, 12);
    server_focused.focused = true;
    let fake = FakeHerdr::new(vec![
        server_focused,
        agent("w1:p2", AgentStatus::Working, 8),
        agent("w1:p3", AgentStatus::Working, 4),
    ]);

    assert_eq!(
        jump_working(&fake, &mut state, Some("w1:p2")).unwrap(),
        JumpOutcome::Focused("w1:p3".to_string()),
    );
    // A supplied cursor outside the working set must not fall back to server focus.
    assert_eq!(
        jump_working(&fake, &mut state, Some("w1:p4")).unwrap(),
        JumpOutcome::Focused("w1:p1".to_string()),
    );
}

#[test]
fn recent_jump_skips_working_and_blocked_but_keeps_unread_completions() {
    let mut state = BeaconState::default();
    let fake = FakeHerdr::new(vec![
        agent("w1:p1", AgentStatus::Idle, 8),
        agent("w2:p1", AgentStatus::Blocked, 12),
        agent("w3:p1", AgentStatus::Done, 10),
        agent("w4:p1", AgentStatus::Unknown, 6),
        agent("w5:p1", AgentStatus::Working, 14),
    ]);
    let mut current = "outside".to_string();
    for expected in ["w3:p1", "w1:p1", "w4:p1", "w3:p1"] {
        assert_eq!(
            jump_recent(&fake, &mut state, Some(&current)).unwrap(),
            JumpOutcome::Focused(expected.to_string())
        );
        current = expected.to_string();
    }
}

#[test]
fn reverse_recent_jump_inverts_forward_at_every_position_including_ties_and_wrap() {
    let mut state = BeaconState::default();
    let fake = FakeHerdr::new(vec![
        agent("w3:p1", AgentStatus::Done, 10),
        agent("w1:p1", AgentStatus::Idle, 8),
        agent("w2:p1", AgentStatus::Idle, 10),
        agent("w5:p1", AgentStatus::Done, 14),
        agent("w4:p1", AgentStatus::Unknown, 6),
    ]);
    for current in &fake.agents {
        let JumpOutcome::Focused(next) = jump_recent(&fake, &mut state, Some(&current.pane_id)).unwrap()
        else {
            panic!("expected a forward destination");
        };
        assert_eq!(
            jump_recent_reverse(&fake, &mut state, Some(&next)).unwrap(),
            JumpOutcome::Focused(current.pane_id.clone())
        );
    }
    let mut current = "outside".to_string();
    for expected in ["w4:p1", "w1:p1", "w3:p1", "w2:p1", "w5:p1", "w4:p1"] {
        assert_eq!(
            jump_recent_reverse(&fake, &mut state, Some(&current)).unwrap(),
            JumpOutcome::Focused(expected.to_string())
        );
        current = expected.to_string();
    }
}

#[test]
fn reverse_recent_jump_respects_invoking_pane_and_handles_empty_single_and_errors() {
    let mut state = BeaconState::default();
    let mut server_focused = agent("w1:p1", AgentStatus::Done, 12);
    server_focused.focused = true;
    let fake = FakeHerdr::new(vec![
        server_focused.clone(),
        agent("w2:p1", AgentStatus::Idle, 8),
    ]);
    assert_eq!(
        jump_recent_reverse(&fake, &mut state, Some("w2:p1")).unwrap(),
        JumpOutcome::Focused("w1:p1".into())
    );
    assert_eq!(
        jump_recent_reverse(&fake, &mut state, None).unwrap(),
        JumpOutcome::Focused("w2:p1".into())
    );
    let fake = FakeHerdr::new(vec![]);
    assert_eq!(
        jump_recent_reverse(&fake, &mut state, None).unwrap(),
        JumpOutcome::Empty
    );
    assert_eq!(*fake.notifications.lock().unwrap(), ["No eligible agents"]);
    let mut fake = FakeHerdr::new(vec![server_focused]);
    assert_eq!(
        jump_recent_reverse(&fake, &mut state, Some("w1:p1")).unwrap(),
        JumpOutcome::Focused("w1:p1".into())
    );
    fake.focus_error = true;
    assert!(jump_recent_reverse(&fake, &mut state, None).is_err());
}

#[test]
fn recent_jump_uses_invoking_pane_with_stable_ties() {
    let mut state = BeaconState::default();
    let mut server_focused = agent("w1:p1", AgentStatus::Done, 0);
    server_focused.focused = true;
    let fake = FakeHerdr::new(vec![
        agent("w3:p1", AgentStatus::Idle, 0),
        server_focused,
        agent("w2:p1", AgentStatus::Idle, 0),
    ]);
    assert_eq!(
        jump_recent(&fake, &mut state, Some("w2:p1")).unwrap(),
        JumpOutcome::Focused("w3:p1".to_string())
    );
    assert_eq!(
        jump_recent(&fake, &mut state, None).unwrap(),
        JumpOutcome::Focused("w2:p1".to_string())
    );
}

#[test]
fn recent_jump_handles_no_agents_and_propagates_focus_failure() {
    let mut state = BeaconState::default();
    let fake = FakeHerdr::new(vec![]);
    assert_eq!(jump_recent(&fake, &mut state, None).unwrap(), JumpOutcome::Empty);
    assert_eq!(*fake.notifications.lock().unwrap(), ["No eligible agents"]);
    let mut fake = FakeHerdr::new(vec![agent("w1:p1", AgentStatus::Unknown, 8)]);
    assert_eq!(
        jump_recent(&fake, &mut state, Some("w1:p1")).unwrap(),
        JumpOutcome::Focused("w1:p1".to_string())
    );
    fake.focus_error = true;
    assert!(jump_recent(&fake, &mut state, None).is_err());
}

#[test]
fn recent_directions_enter_from_excluded_agents_and_refresh_membership() {
    let mut state = BeaconState::default();
    let mut fake = FakeHerdr::new(vec![
        agent("w1:p1", AgentStatus::Working, 14),
        agent("w2:p1", AgentStatus::Blocked, 12),
        agent("w3:p1", AgentStatus::Done, 10),
        agent("w4:p1", AgentStatus::Idle, 8),
    ]);
    assert_eq!(
        jump_recent(&fake, &mut state, Some("w1:p1")).unwrap(),
        JumpOutcome::Focused("w3:p1".into())
    );
    assert_eq!(
        jump_recent_reverse(&fake, &mut state, Some("w2:p1")).unwrap(),
        JumpOutcome::Focused("w4:p1".into())
    );
    // Finishing a turn adds it immediately; starting work removes a candidate.
    fake.agents[0].status = AgentStatus::Idle;
    fake.agents[0].state_change_seq = 15;
    fake.agents[2].status = AgentStatus::Working;
    assert_eq!(
        jump_recent(&fake, &mut state, Some("w3:p1")).unwrap(),
        JumpOutcome::Focused("w1:p1".into())
    );
    assert_eq!(
        jump_recent_reverse(&fake, &mut state, Some("w4:p1")).unwrap(),
        JumpOutcome::Focused("w1:p1".into())
    );
}

#[test]
fn recent_directions_do_not_focus_when_all_agents_are_working_or_blocked() {
    let mut state = BeaconState::default();
    let fake = FakeHerdr::new(vec![
        agent("w1:p1", AgentStatus::Working, 14),
        agent("w2:p1", AgentStatus::Blocked, 12),
    ]);
    assert_eq!(jump_recent(&fake, &mut state, None).unwrap(), JumpOutcome::Empty);
    assert_eq!(
        jump_recent_reverse(&fake, &mut state, None).unwrap(),
        JumpOutcome::Empty
    );
    assert!(fake.focused.lock().unwrap().is_empty());
}

#[test]
fn working_cycle_includes_blockers_and_excludes_finished_or_unknown_agents() {
    let mut state = BeaconState::default();
    let fake = FakeHerdr::new(vec![
        agent("w1:p1", AgentStatus::Working, 14),
        agent("w2:p1", AgentStatus::Blocked, 12),
        agent("w3:p1", AgentStatus::Done, 20),
        agent("w4:p1", AgentStatus::Idle, 18),
        agent("w5:p1", AgentStatus::Unknown, 16),
    ]);
    assert_eq!(
        jump_working(&fake, &mut state, Some("w3:p1")).unwrap(),
        JumpOutcome::Focused("w1:p1".into())
    );
    assert_eq!(
        jump_working(&fake, &mut state, Some("w1:p1")).unwrap(),
        JumpOutcome::Focused("w2:p1".into())
    );
    assert_eq!(
        jump_working(&fake, &mut state, Some("w2:p1")).unwrap(),
        JumpOutcome::Focused("w1:p1".into())
    );
}

#[test]
fn unread_jump_keeps_api_idle_completion_and_does_not_repeat_it() {
    let mut state = BeaconState::default();
    state.observe(
        agent("w1:p1", AgentStatus::Working, 8),
        ObservationSource::Event,
    );
    let mut idle = agent("w1:p1", AgentStatus::Idle, 9);
    idle.focused = true;
    let fake = FakeHerdr::new(vec![idle]);

    assert_eq!(
        jump_unread(&fake, &mut state, Some("w1:p2")).unwrap(),
        JumpOutcome::Focused("w1:p1".to_string()),
    );
    assert_eq!(
        jump_unread(&fake, &mut state, Some("w1:p2")).unwrap(),
        JumpOutcome::Empty,
    );
    assert_eq!(*fake.focused.lock().unwrap(), ["w1:p1"]);
}

#[test]
fn unread_jump_acknowledges_only_the_invoking_pane() {
    let mut state = BeaconState::default();
    let mut other_client = agent("w1:p1", AgentStatus::Done, 8);
    other_client.focused = true;
    let fake = FakeHerdr::new(vec![other_client, agent("w1:p2", AgentStatus::Done, 9)]);
    assert_eq!(
        jump_unread(&fake, &mut state, Some("w1:p2")).unwrap(),
        JumpOutcome::Focused("w1:p1".to_string()),
    );
    assert!(state.entries().is_empty());
}

#[test]
fn working_jump_starts_with_the_newest_turn_when_focus_is_elsewhere() {
    let mut state = BeaconState::default();
    let mut idle = agent("w1:p3", AgentStatus::Idle, 20);
    idle.focused = true;
    let fake = FakeHerdr::new(vec![
        agent("w1:p1", AgentStatus::Working, 8),
        idle,
        agent("w1:p2", AgentStatus::Working, 12),
    ]);

    let outcome = jump_working(&fake, &mut state, None).unwrap();

    assert_eq!(outcome, JumpOutcome::Focused("w1:p2".to_string()));
}

#[test]
fn working_jump_wraps_from_the_oldest_turn_to_the_newest() {
    let mut state = BeaconState::default();
    let mut oldest = agent("w1:p1", AgentStatus::Working, 4);
    oldest.focused = true;
    let fake = FakeHerdr::new(vec![
        oldest,
        agent("w1:p2", AgentStatus::Working, 12),
        agent("w1:p3", AgentStatus::Working, 8),
    ]);

    let outcome = jump_working(&fake, &mut state, None).unwrap();

    assert_eq!(outcome, JumpOutcome::Focused("w1:p2".to_string()));
}

#[test]
fn working_jump_reports_an_empty_queue_without_focusing() {
    let mut state = BeaconState::default();
    let fake = FakeHerdr::new(vec![
        agent("w1:p1", AgentStatus::Idle, 8),
        agent("w1:p2", AgentStatus::Done, 12),
    ]);

    let outcome = jump_working(&fake, &mut state, None).unwrap();

    assert_eq!(outcome, JumpOutcome::Empty);
    assert!(fake.focused.lock().unwrap().is_empty());
    assert_eq!(
        *fake.notifications.lock().unwrap(),
        ["No working or blocked agents"]
    );
}

#[test]
fn reconciliation_prunes_missing_focused_and_running_entries() {
    let mut state = BeaconState::default();
    for observation in [
        agent("w1:p1", AgentStatus::Done, 2),
        agent("w1:p2", AgentStatus::Blocked, 3),
        agent("w1:p3", AgentStatus::Done, 4),
    ] {
        state.observe(observation, ObservationSource::Event);
    }
    let mut focused = agent("w1:p2", AgentStatus::Blocked, 3);
    focused.focused = true;
    let fake = FakeHerdr::new(vec![agent("w1:p1", AgentStatus::Working, 5), focused]);

    let outcome = jump_unread(&fake, &mut state, None).unwrap();

    assert_eq!(outcome, JumpOutcome::Empty);
    assert!(state.entries().is_empty());
}

#[test]
fn unread_jump_includes_already_blocked_agents_without_inventing_unread_state() {
    let mut state = BeaconState::default();
    let fake = FakeHerdr::new(vec![agent("w1:p1", AgentStatus::Blocked, 7)]);

    let outcome = jump_unread(&fake, &mut state, None).unwrap();

    assert_eq!(outcome, JumpOutcome::Focused("w1:p1".to_string()));
    assert!(state.entries().is_empty());
}

#[test]
fn unread_jump_cycles_seen_blocked_agents_and_consumes_completions() {
    let mut state = BeaconState::default();
    let fake = FakeHerdr::new(vec![
        agent("w1:p1", AgentStatus::Blocked, 12),
        agent("w2:p1", AgentStatus::Done, 10),
        agent("w3:p1", AgentStatus::Blocked, 8),
        agent("w4:p1", AgentStatus::Blocked, 4),
        agent("w5:p1", AgentStatus::Idle, 20),
    ]);
    // Having looked at a blocked request does not resolve its need for input.
    for observation in &fake.agents {
        if observation.status == AgentStatus::Blocked {
            state.observe(observation.clone(), ObservationSource::Focus);
        }
    }
    let mut current = "w5:p1".to_string();
    for expected in ["w1:p1", "w2:p1", "w3:p1", "w4:p1", "w1:p1", "w3:p1"] {
        assert_eq!(
            jump_unread(&fake, &mut state, Some(&current)).unwrap(),
            JumpOutcome::Focused(expected.to_string())
        );
        current = expected.to_string();
    }
    assert!(state.entries().is_empty());
}

#[test]
fn unread_jump_wraps_from_an_acknowledged_completion_without_repeating_it() {
    let mut state = BeaconState::default();
    let mut current = agent("w1:p1", AgentStatus::Idle, 4);
    current.focused = true;
    let fake = FakeHerdr::new(vec![current, agent("w2:p1", AgentStatus::Blocked, 12)]);
    assert_eq!(
        jump_unread(&fake, &mut state, Some("w1:p1")).unwrap(),
        JumpOutcome::Focused("w2:p1".to_string())
    );
    assert_eq!(
        jump_unread(&fake, &mut state, Some("w2:p1")).unwrap(),
        JumpOutcome::Empty
    );
}

#[test]
fn unread_jump_drops_a_resolved_blocker() {
    let mut state = BeaconState::default();
    let blocked = agent("w1:p1", AgentStatus::Blocked, 8);
    state.observe(blocked, ObservationSource::Focus);
    let fake = FakeHerdr::new(vec![agent("w1:p1", AgentStatus::Working, 9)]);
    assert_eq!(
        jump_unread(&fake, &mut state, Some("w2:p1")).unwrap(),
        JumpOutcome::Empty
    );
}

#[test]
fn focus_failure_keeps_the_selected_entry() {
    let mut state = BeaconState::default();
    let selected = agent("w1:p1", AgentStatus::Done, 11);
    state.observe(selected.clone(), ObservationSource::Event);
    let mut fake = FakeHerdr::new(vec![selected]);
    fake.focus_error = true;

    assert!(jump_unread(&fake, &mut state, None).is_err());

    assert_eq!(state.newest().unwrap().pane_id, "w1:p1");
}

#[test]
fn forward_recent_jump_visits_the_next_older_agent() {
    let herdr = FakeHerdr::new(vec![
        agent("w1:p1", AgentStatus::Idle, 30),
        agent("w2:p1", AgentStatus::Idle, 10),
        agent("w3:p1", AgentStatus::Idle, 20),
    ]);
    let mut state = BeaconState::default();
    for (here, next) in [("w1:p1", "w3:p1"), ("w3:p1", "w2:p1"), ("w2:p1", "w1:p1")] {
        assert_eq!(
            jump_recent(&herdr, &mut state, Some(here)).unwrap(),
            JumpOutcome::Focused(next.to_string())
        );
    }
    assert_eq!(*herdr.focused.lock().unwrap(), ["w3:p1", "w2:p1", "w1:p1"]);
}
