use herdr_beacon::error::BeaconError;
use herdr_beacon::herdr::{
    decode_output, error_code, focus_arguments, get_arguments, list_arguments,
    notification_arguments, parse_agent, read_agent_focus, read_agent_get, read_agent_list,
    read_notification, reload_arguments, require_success, tab_arguments,
};
use herdr_beacon::json::Json;
use herdr_beacon::model::AgentStatus;

fn json(text: &str) -> Json {
    decode_output(true, text.as_bytes(), b"").unwrap().value
}

#[test]
fn agent_response_maps_the_fields_beacon_uses() {
    let response = json(
        r#"{
            "result": {
                "type": "agent_get",
                "agent": {
                    "terminal_id": "terminal-7",
                    "agent_status": "done",
                    "workspace_id": "w2",
                    "tab_id": "w2:t1",
                    "pane_id": "w2:p4",
                    "focused": false,
                    "state_change_seq": 19,
                    "revision": 2
                }
            }
        }"#,
    );

    let observation =
        parse_agent(response.field("result").unwrap().field("agent").unwrap()).unwrap();

    assert_eq!(observation.pane_id, "w2:p4");
    assert_eq!(observation.terminal_id, "terminal-7");
    assert_eq!(observation.status, AgentStatus::Done);
    assert_eq!(observation.state_change_seq, 19);
}

#[test]
fn malformed_agent_payload_is_rejected() {
    let error = parse_agent(&json(r#"{"pane_id": "w1:p1"}"#)).unwrap_err();
    assert!(error.message().contains("agent payload"));
}

#[test]
fn agents_of_servers_without_sequences_count_from_zero() {
    let agent = parse_agent(&json(
        r#"{"terminal_id":"t","agent_status":"idle","workspace_id":"w","pane_id":"p","focused":true}"#,
    ))
    .unwrap();
    assert_eq!(agent.state_change_seq, 0);
    assert!(agent.focused);
}

#[test]
fn agents_can_be_records_in_field_order() {
    let agent = parse_agent(&json(r#"["t",{"blocked":null},"w","p",false,7]"#)).unwrap();
    assert_eq!(agent.terminal_id, "t");
    assert_eq!(agent.status, AgentStatus::Blocked);
    assert_eq!(agent.workspace_id, "w");
    assert_eq!(agent.pane_id, "p");
    assert_eq!(agent.state_change_seq, 7);
    assert!(parse_agent(&json(r#"["t","idle","w","p"]"#)).is_err());
    assert!(parse_agent(&json(r#"["t","idle","w","p",false,7,8]"#)).is_err());
    assert!(parse_agent(&json(r#"["t","sleeping","w","p",false]"#)).is_err());
    assert!(parse_agent(&json(r#"["t","idle","w","p",false,-1]"#)).is_err());
    assert!(parse_agent(&json(r#"["t","idle","w","p",false,1.5]"#)).is_err());
}

#[test]
fn failed_commands_report_on_their_error_output() {
    let reported = decode_output(false, b"1", b"2").unwrap();
    assert!(!reported.success);
    assert_eq!(reported.value, Json::Number(2));
    assert_eq!(
        decode_output(false, b"1", b"").unwrap().value,
        Json::Number(1)
    );
    assert_eq!(
        decode_output(true, b"1", b"2").unwrap().value,
        Json::Number(1)
    );
    assert_eq!(
        decode_output(true, b"{", b""),
        Err(BeaconError::InvalidOutput(
            "EOF while parsing an object at line 1 column 1".to_string()
        ))
    );
}

#[test]
fn refusals_carry_code_and_message() {
    let refused = decode_output(
        false,
        b"",
        br#"{"error":{"code":"tab_not_found","message":"tab disappeared"}}"#,
    )
    .unwrap();
    assert_eq!(
        error_code(&refused.value),
        Some("tab_not_found".to_string())
    );
    let error = require_success(&refused).unwrap_err();
    assert_eq!(error.message(), "tab_not_found: tab disappeared");
    let silent = decode_output(false, b"{}", b"").unwrap();
    assert_eq!(
        require_success(&silent).unwrap_err().message(),
        "command_failed: Herdr command failed"
    );
    assert!(require_success(&decode_output(true, br#"{"error":null}"#, b"").unwrap()).is_err());
    assert!(require_success(&decode_output(true, b"{}", b"").unwrap()).is_ok());
}

#[test]
fn missing_agents_are_no_error() {
    let missing = decode_output(
        false,
        br#"{"error":{"code":"agent_not_found","message":"missing"}}"#,
        b"",
    )
    .unwrap();
    assert_eq!(read_agent_get(&missing), Ok(None));
    assert_eq!(
        read_agent_get(&decode_output(true, br#"{"result":{}}"#, b"").unwrap()),
        Err(BeaconError::GetWithoutAgent)
    );
    assert_eq!(
        read_agent_get(&decode_output(true, br#"{"result":{"agent":1}}"#, b"").unwrap()),
        Err(BeaconError::InvalidAgent)
    );
}

#[test]
fn agent_lists_are_read_whole_or_not_at_all() {
    let list = decode_output(
        true,
        br#"{"result":{"agents":[["t1","working","w","p1",true,10],["t2","done","w","p2",false,8]]}}"#,
        b"",
    )
    .unwrap();
    let agents = read_agent_list(&list).unwrap();
    assert_eq!(agents.len(), 2);
    assert_eq!(agents[0].pane_id, "p1");
    assert_eq!(agents[1].status, AgentStatus::Done);
    assert_eq!(
        read_agent_list(
            &decode_output(true, br#"{"result":{"agents":[["t1"]]}}"#, b"").unwrap()
        ),
        Err(BeaconError::InvalidAgent)
    );
    assert_eq!(
        read_agent_list(&decode_output(true, br#"{"result":{"agents":{}}}"#, b"").unwrap()),
        Err(BeaconError::ListWithoutAgents)
    );
}

#[test]
fn a_focused_agent_names_its_tab() {
    let focused = decode_output(
        true,
        br#"{"result":{"agent":{"terminal_id":"t","agent_status":"working","workspace_id":"w1","tab_id":"w1:t9","pane_id":"w1:p2","focused":true,"state_change_seq":8}}}"#,
        b"",
    )
    .unwrap();
    let (agent, tab) = read_agent_focus(&focused).unwrap();
    assert_eq!(agent.pane_id, "w1:p2");
    assert_eq!(tab, "w1:t9");
    assert_eq!(
        read_agent_focus(
            &decode_output(true, br#"{"result":{"agent":["t","idle","w","p",true]}}"#, b"")
                .unwrap()
        ),
        Err(BeaconError::FocusWithoutTab)
    );
    assert_eq!(
        read_agent_focus(&decode_output(true, b"{}", b"").unwrap()),
        Err(BeaconError::FocusWithoutAgent)
    );
}

#[test]
fn routine_suppression_of_notifications_is_success() {
    for reason in ["rate_limited", "disabled", "busy", "no_foreground_client"] {
        let answer = format!(r#"{{"result":{{"shown":false,"reason":"{reason}"}}}}"#);
        assert_eq!(
            read_notification(&decode_output(true, answer.as_bytes(), b"").unwrap()),
            Ok(())
        );
    }
    assert_eq!(
        read_notification(&decode_output(true, br#"{"result":{"shown":true}}"#, b"").unwrap()),
        Ok(())
    );
    let error = read_notification(
        &decode_output(
            true,
            br#"{"result":{"shown":false,"reason":"unexpected_failure"}}"#,
            b"",
        )
        .unwrap(),
    )
    .unwrap_err();
    assert_eq!(
        error.message(),
        "Herdr did not show the notification: unexpected_failure"
    );
    assert_eq!(
        read_notification(&decode_output(true, br#"{"result":{"shown":false}}"#, b"").unwrap()),
        Err(BeaconError::NotShown("unknown".to_string()))
    );
    assert_eq!(
        read_notification(&decode_output(true, br#"{"result":{}}"#, b"").unwrap()),
        Err(BeaconError::NotificationWithoutOutcome)
    );
}

#[test]
fn commands_are_spelled_as_herdr_expects() {
    assert_eq!(get_arguments("w1:p1"), ["agent", "get", "w1:p1"]);
    assert_eq!(list_arguments(), ["agent", "list"]);
    assert_eq!(focus_arguments("w1:p1"), ["agent", "focus", "w1:p1"]);
    assert_eq!(tab_arguments("w1:t9"), ["tab", "focus", "w1:t9"]);
    assert_eq!(
        notification_arguments("No unread agents", None),
        [
            "notification",
            "show",
            "No unread agents",
            "--sound",
            "none"
        ]
    );
    assert_eq!(
        notification_arguments("title", Some("body")),
        [
            "notification",
            "show",
            "title",
            "--body",
            "body",
            "--sound",
            "none"
        ]
    );
    assert_eq!(reload_arguments(), ["server", "reload-config"]);
}
