use herdr_beacon::model::{AgentObservation, AgentStatus, BeaconState, ObservationSource};
use herdr_beacon::storage::decode_state;

fn observation(
    pane_id: &str,
    terminal_id: &str,
    status: AgentStatus,
    sequence: u64,
) -> AgentObservation {
    AgentObservation {
        pane_id: pane_id.to_string(),
        terminal_id: terminal_id.to_string(),
        workspace_id: "w1".to_string(),
        status,
        focused: false,
        state_change_seq: sequence,
    }
}

#[test]
fn new_idle_completion_survives_server_focus_and_reconciliation() {
    let mut state = BeaconState::default();
    state.observe(
        observation("w1:p1", "t1", AgentStatus::Working, 8),
        ObservationSource::Event,
    );
    let mut idle = observation("w1:p1", "t1", AgentStatus::Idle, 9);
    // Server focus is not the calling client's acknowledgement in Herdr 0.9.
    idle.focused = true;
    state.observe(idle.clone(), ObservationSource::Event);
    state.observe(idle, ObservationSource::Reconcile);

    assert_eq!(state.newest().unwrap().state_change_seq, 9);
}

#[test]
fn initial_idle_is_a_baseline_but_a_new_idle_sequence_is_unread() {
    let mut state = BeaconState::default();
    let idle = observation("w1:p1", "t1", AgentStatus::Idle, 8);
    state.observe(idle.clone(), ObservationSource::Event);
    state.observe(idle, ObservationSource::Reconcile);
    assert!(state.newest().is_none());

    // Recover a completed turn even if its intermediate working hook was missed.
    state.observe(
        observation("w1:p1", "t1", AgentStatus::Idle, 10),
        ObservationSource::Reconcile,
    );
    assert_eq!(state.newest().unwrap().state_change_seq, 10);
}

#[test]
fn focus_acknowledgement_survives_idle_done_label_changes() {
    let mut state = BeaconState::default();
    let done = observation("w1:p1", "t1", AgentStatus::Done, 9);
    state.observe(done.clone(), ObservationSource::Event);
    state.observe(done.clone(), ObservationSource::Focus);
    for source in [ObservationSource::Event, ObservationSource::Reconcile] {
        for status in [AgentStatus::Idle, AgentStatus::Done] {
            state.observe(
                AgentObservation {
                    status,
                    ..done.clone()
                },
                source,
            );
            assert!(state.newest().is_none());
        }
    }
    state.observe(
        observation("w1:p1", "t1", AgentStatus::Idle, 11),
        ObservationSource::Event,
    );
    assert_eq!(state.newest().unwrap().state_change_seq, 11);
}

#[test]
fn new_terminal_idle_does_not_inherit_old_completion_history() {
    let mut state = BeaconState::default();
    state.observe(
        observation("w1:p1", "old", AgentStatus::Done, 8),
        ObservationSource::Event,
    );
    state.observe(
        observation("w1:p1", "new", AgentStatus::Idle, 10),
        ObservationSource::Reconcile,
    );
    assert!(state.newest().is_none());
}

#[test]
fn moved_acknowledgement_prevents_resurrecting_the_same_completion() {
    let mut state = BeaconState::default();
    state.observe(
        observation("w1:p1", "t1", AgentStatus::Done, 8),
        ObservationSource::Focus,
    );
    state.move_pane("w1:p1", "w2:p4", "w2", "t1");
    state.observe(
        observation("w2:p4", "t1", AgentStatus::Done, 8),
        ObservationSource::Reconcile,
    );
    assert!(state.newest().is_none());
}

#[test]
fn existing_v1_state_preserves_pending_and_acknowledged_completions() {
    let mut state = decode_state(
        br#"{
        "version": 1, "next_ordinal": 1,
        "entries": {"w1:p1": {"pane_id": "w1:p1", "terminal_id": "t1",
            "workspace_id": "w1", "status": "done", "state_change_seq": 8, "ordinal": 1}},
        "watermarks": {"w1:p2": {"terminal_id": "t2", "state_change_seq": 9}}
    }"#,
    )
    .unwrap();
    state.validate().unwrap();
    state.observe(
        observation("w1:p1", "t1", AgentStatus::Idle, 8),
        ObservationSource::Reconcile,
    );
    state.observe(
        observation("w1:p2", "t2", AgentStatus::Done, 9),
        ObservationSource::Reconcile,
    );
    assert_eq!(state.entries().len(), 1);
    assert_eq!(state.newest().unwrap().pane_id, "w1:p1");
}

#[test]
fn newest_attention_uses_herdr_sequence_then_local_order() {
    let mut state = BeaconState::default();
    state.observe(
        observation("w1:p1", "t1", AgentStatus::Done, 8),
        ObservationSource::Event,
    );
    state.observe(
        observation("w1:p2", "t2", AgentStatus::Blocked, 12),
        ObservationSource::Event,
    );

    assert_eq!(state.newest().unwrap().pane_id, "w1:p2");

    state.observe(
        observation("w1:p3", "t3", AgentStatus::Done, 12),
        ObservationSource::Event,
    );

    assert_eq!(state.newest().unwrap().pane_id, "w1:p3");
}

#[test]
fn watermark_rejects_a_late_attention_hook() {
    let mut state = BeaconState::default();
    let done = observation("w1:p1", "t1", AgentStatus::Done, 5);
    state.observe(done.clone(), ObservationSource::Event);

    let mut focused = done.clone();
    focused.focused = true;
    focused.status = AgentStatus::Idle;
    state.observe(focused, ObservationSource::Focus);
    state.observe(done, ObservationSource::Event);

    assert!(state.newest().is_none());

    state.observe(
        observation("w1:p1", "t1", AgentStatus::Done, 6),
        ObservationSource::Event,
    );
    assert_eq!(state.newest().unwrap().state_change_seq, 6);
}

#[test]
fn a_new_terminal_can_reuse_a_watermarked_pane_id() {
    let mut state = BeaconState::default();
    let old = observation("w1:p1", "old", AgentStatus::Done, 40);
    state.observe(old.clone(), ObservationSource::Event);
    let mut focused = old;
    focused.focused = true;
    state.observe(focused, ObservationSource::Focus);

    state.observe(
        observation("w1:p1", "new", AgentStatus::Done, 1),
        ObservationSource::Event,
    );

    assert_eq!(state.newest().unwrap().terminal_id, "new");
}

#[test]
fn reconciliation_does_not_resurrect_acknowledged_done_or_bootstrap_blocked() {
    let mut state = BeaconState::default();
    let done = observation("w1:p1", "t1", AgentStatus::Done, 7);
    state.observe(done.clone(), ObservationSource::Event);
    let mut focused = done.clone();
    focused.focused = true;
    state.observe(focused, ObservationSource::Focus);

    state.observe(done, ObservationSource::Reconcile);
    state.observe(
        observation("w1:p2", "t2", AgentStatus::Blocked, 8),
        ObservationSource::Reconcile,
    );

    assert!(state.entries().is_empty());
    state.observe(
        observation("w1:p1", "t1", AgentStatus::Done, 9),
        ObservationSource::Reconcile,
    );
    assert_eq!(state.newest().unwrap().pane_id, "w1:p1");
}

#[test]
fn stale_clear_does_not_remove_newer_attention() {
    let mut state = BeaconState::default();
    state.observe(
        observation("w1:p1", "t1", AgentStatus::Done, 9),
        ObservationSource::Event,
    );
    state.observe(
        observation("w1:p1", "t1", AgentStatus::Working, 8),
        ObservationSource::Event,
    );

    assert_eq!(state.newest().unwrap().state_change_seq, 9);
}

#[test]
fn pane_move_preserves_attention_order_and_watermark() {
    let mut state = BeaconState::default();
    state.observe(
        observation("w1:p1", "t1", AgentStatus::Done, 9),
        ObservationSource::Event,
    );
    state.move_pane("w1:p1", "w2:p4", "w2", "t1");

    let entry = state.newest().unwrap();
    assert_eq!(entry.pane_id, "w2:p4");
    assert_eq!(entry.workspace_id, "w2");
    assert_eq!(entry.state_change_seq, 9);
}

#[test]
fn reconciliation_rebases_state_after_herdr_sequence_reset() {
    let mut state = BeaconState::default();
    let old = observation("w1:p1", "t1", AgentStatus::Done, 40);
    state.observe(old.clone(), ObservationSource::Event);
    let mut seen = old;
    seen.focused = true;
    state.observe(seen, ObservationSource::Focus);

    state.observe(
        observation("w1:p1", "t1", AgentStatus::Blocked, 1),
        ObservationSource::Reconcile,
    );
    state.observe(
        observation("w1:p1", "t1", AgentStatus::Blocked, 2),
        ObservationSource::Event,
    );

    assert_eq!(state.newest().unwrap().state_change_seq, 2);
}

#[test]
fn authoritative_reconciliation_clears_old_high_sequence_entries() {
    let mut state = BeaconState::default();
    state.observe(
        observation("w1:p1", "t1", AgentStatus::Done, 40),
        ObservationSource::Event,
    );

    state.observe(
        observation("w1:p1", "t1", AgentStatus::Working, 1),
        ObservationSource::Reconcile,
    );

    assert!(state.newest().is_none());
}

#[test]
fn a_restarted_agent_at_work_is_cleared_at_once() {
    for status in [AgentStatus::Working, AgentStatus::Unknown] {
        let mut state = BeaconState::default();
        let mut seen = AgentObservation {
            pane_id: "w1:p1".to_string(),
            terminal_id: "t1".to_string(),
            workspace_id: "w1".to_string(),
            status: AgentStatus::Done,
            focused: false,
            state_change_seq: 50,
        };
        state.observe(seen.clone(), ObservationSource::Event);
        seen.status = status;
        seen.state_change_seq = 3;
        for _ in 0..2 {
            state.observe(seen.clone(), ObservationSource::Reconcile);
            let mark = state.watermarks().get("w1:p1").unwrap();
            assert_eq!(mark.state_change_seq, 3);
            assert_eq!(mark.cleared_through, Some(3));
            assert!(state.newest().is_none());
        }
    }
}
