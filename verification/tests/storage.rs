use herdr_beacon::error::BeaconError;
use herdr_beacon::model::{AgentObservation, AgentStatus, BeaconState, ObservationSource};
use herdr_beacon::storage::{decode_state, encode_state};

fn observation(index: u64) -> AgentObservation {
    AgentObservation {
        pane_id: format!("w1:p{index}"),
        terminal_id: format!("t{index}"),
        workspace_id: "w1".to_string(),
        status: AgentStatus::Done,
        focused: false,
        state_change_seq: index,
    }
}

#[test]
fn unsupported_state_version_is_rejected() {
    let error =
        decode_state(br#"{"version":99,"next_ordinal":0,"entries":{},"watermarks":{}}"#)
            .unwrap_err();

    assert!(error.message().contains("version 99"));
    assert_eq!(
        error.message(),
        "unsupported Beacon state version 99; expected 2"
    );
}

#[test]
fn corrupt_states_are_reported() {
    let error = decode_state(b"{broken").unwrap_err();
    assert!(error.message().contains("parse"));
    for state in [
        &br#"{"version":2,"next_ordinal":0,"entries":{},"watermarks":{}}"#[..],
        &br#"{"version":1,"next_ordinal":0,"entries":{},"watermarks":{},"unrecognized":true}"#[..],
        &br#"{"next_ordinal":0,"entries":{},"watermarks":{}}"#[..],
        &br#"{"version":1,"next_ordinal":-1,"entries":{},"watermarks":{}}"#[..],
        &br#"{"version":1,"next_ordinal":0,"entries":{"p":{"pane_id":"p"}},"watermarks":{}}"#[..],
        &br#"{"version":1,"next_ordinal":0,"entries":{},"watermarks":{"p":{"terminal_id":"t","state_change_seq":1,"extra":2}}}"#[..],
    ] {
        assert_eq!(decode_state(state).unwrap_err(), BeaconError::InvalidState);
    }
}

#[test]
fn inconsistent_states_are_refused() {
    let entry = r#"{"pane_id":"p1","terminal_id":"t","workspace_id":"w","status":"done","state_change_seq":8,"ordinal":3}"#;
    let misfiled = format!(
        r#"{{"version":1,"next_ordinal":3,"entries":{{"p2":{entry}}},"watermarks":{{}}}}"#
    );
    assert_eq!(
        decode_state(misfiled.as_bytes()).unwrap_err(),
        BeaconError::EntryKeyMismatch
    );
    let ahead = format!(
        r#"{{"version":1,"next_ordinal":2,"entries":{{"p1":{entry}}},"watermarks":{{}}}}"#
    );
    assert_eq!(
        decode_state(ahead.as_bytes()).unwrap_err(),
        BeaconError::OrdinalAhead
    );
}

#[test]
fn saved_states_are_restored() {
    let mut state = BeaconState::default();
    for index in 1..=16 {
        state.observe(observation(index), ObservationSource::Event);
    }
    state.observe(observation(3), ObservationSource::Focus);
    state.withhold(&observation(4));
    state.policy_unavailable();

    let bytes = encode_state(&state).unwrap();
    let restored = decode_state(&bytes).unwrap();

    assert_eq!(restored.version(), 2);
    assert_eq!(restored.next_ordinal(), 16);
    assert_eq!(restored.entries().len(), 14);
    assert_eq!(restored.newest(), state.newest());
    assert_eq!(
        restored.watermarks().get("w1:p3").unwrap().cleared_through,
        Some(3)
    );
    assert_eq!(restored.suppressed().get("t4").unwrap().state_change_seq, 4);
    assert!(restored.recovery_needed());
    assert_eq!(encode_state(&restored).unwrap(), bytes);
}

#[test]
fn stored_states_are_plain_json_objects() {
    let text = String::from_utf8(encode_state(&BeaconState::default()).unwrap()).unwrap();
    let value: serde_json::Value = serde_json::from_str(&text).unwrap();
    assert_eq!(value["version"], 2);
    assert_eq!(value["next_ordinal"], 0);
    assert_eq!(value["recovery_needed"], false);
    assert!(value["policy"].is_null());
    for name in ["entries", "watermarks", "suppressed"] {
        assert!(value[name].as_object().unwrap().is_empty());
    }
    assert!(value["locations"].as_array().unwrap().is_empty());
}

#[test]
fn records_that_repeat_a_field_are_refused() {
    let entry = r#"{"pane_id":"p1","terminal_id":"t","workspace_id":"w","status":"done","state_change_seq":8,"ordinal":1}"#;
    let state = |entries: &str, watermarks: &str| {
        format!(
            r#"{{"version":1,"next_ordinal":1,"entries":{{{entries}}},"watermarks":{{{watermarks}}}}}"#
        )
    };
    let kept = state(&format!(r#""p1":{entry}"#), "");
    assert_eq!(
        decode_state(kept.as_bytes()).unwrap().newest().unwrap().pane_id,
        "p1"
    );

    let twice = kept.replacen(r#""version":1"#, r#""version":1,"version":1"#, 1);
    let spelled_twice = kept.replacen(r#""version":1"#, r#""version":1,"\u0076ersion":1"#, 1);
    let nested_twice = kept.replacen(r#""ordinal":1"#, r#""ordinal":1,"ordinal":1"#, 1);
    let status_twice = kept.replacen(r#""done""#, r#"{"done":null,"done":null}"#, 1);
    for text in [twice, spelled_twice, nested_twice, status_twice] {
        assert_eq!(
            decode_state(text.as_bytes()).unwrap_err(),
            BeaconError::InvalidState,
            "{text}"
        );
    }

    // A key can come again: its last record counts, but every record must be one.
    let older = entry.replacen(r#""state_change_seq":8"#, r#""state_change_seq":5"#, 1);
    let again = state(&format!(r#""p1":{older},"p1":{entry}"#), "");
    let restored = decode_state(again.as_bytes()).unwrap();
    assert_eq!(restored.entries().len(), 1);
    assert_eq!(restored.newest().unwrap().state_change_seq, 8);
    let shadowed = state(&format!(r#""p1":{{}},"p1":{entry}"#), "");
    assert_eq!(
        decode_state(shadowed.as_bytes()).unwrap_err(),
        BeaconError::InvalidState
    );
}

#[test]
fn records_can_be_lists_of_their_fields() {
    let state = br#" [1, 1, {"p1": ["p1","t","w","done",8,1]}, {"p2": ["t2",4]} ] "#;
    let restored = decode_state(state).unwrap();
    assert_eq!(restored.newest().unwrap().state_change_seq, 8);
    assert_eq!(restored.watermarks().get("p2").unwrap().state_change_seq, 4);
    let twice = br#"[1, 1, {"p1": {"pane_id":"p1","pane_id":"p1","terminal_id":"t","workspace_id":"w","status":"done","state_change_seq":8,"ordinal":1}}, {}]"#;
    assert_eq!(decode_state(twice).unwrap_err(), BeaconError::InvalidState);
}

#[test]
fn deeply_nested_states_are_refused() {
    let deep = format!("{}{}", "[".repeat(200_000), "]".repeat(200_000));
    assert_eq!(
        decode_state(deep.as_bytes()).unwrap_err(),
        BeaconError::InvalidState
    );
    let field = format!(r#"{{"version":1,"x":{deep}}}"#);
    assert_eq!(
        decode_state(field.as_bytes()).unwrap_err(),
        BeaconError::InvalidState
    );
}

#[test]
fn states_are_laid_out_in_the_order_of_their_fields() {
    let mut state = BeaconState::default();
    state.observe(observation(1), ObservationSource::Event);
    state.observe(observation(2), ObservationSource::Focus);
    let text = String::from_utf8(encode_state(&state).unwrap()).unwrap();
    assert_eq!(
        text,
        r#"{
  "version": 2,
  "next_ordinal": 1,
  "entries": {
    "w1:p1": {
      "pane_id": "w1:p1",
      "terminal_id": "t1",
      "workspace_id": "w1",
      "status": "done",
      "state_change_seq": 1,
      "ordinal": 1
    }
  },
  "watermarks": {
    "w1:p2": {
      "terminal_id": "t2",
      "state_change_seq": 2,
      "cleared_through": 2
    }
  },
  "policy": null,
  "suppressed": {},
  "locations": [],
  "recovery_needed": false
}"#
    );
}
