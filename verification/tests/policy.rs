//! Whole invocations against a private Agents endpoint and a private Herdr.
use std::cell::{Cell, RefCell};

use herdr_beacon::eligibility::{
    accept_chunk, policy_request, policy_root, PolicyRoot, WorkspacePolicy,
};
use herdr_beacon::error::BeaconError;
use herdr_beacon::event::handle_event_json;
use herdr_beacon::herdr::HerdrClient;
use herdr_beacon::jump::{jump, Shortcut};
use herdr_beacon::model::{AgentObservation, AgentStatus, BeaconState};
use herdr_beacon::socket::normalize_socket;
use herdr_beacon::storage::{decode_state, encode_state};

const SESSION: &str = "/test/./host.sock";
const STATUS_EVENT: &str = r#"{"event":"pane_agent_status_changed","data":{"type":"pane_agent_status_changed","pane_id":"p-d"}}"#;

/// The fields of a policy reply, each as JSON text.
#[derive(Clone)]
struct Reply {
    ok: String,
    version: String,
    herdr_socket: String,
    excluded_labels: String,
    workspace_ids: String,
    excluded_workspace_ids: String,
    show_excluded: String,
}

impl Reply {
    fn new() -> Self {
        Self {
            ok: "true".to_string(),
            version: "1".to_string(),
            herdr_socket: "\"/test/host.sock\"".to_string(),
            excluded_labels: "[\"delegated\"]".to_string(),
            workspace_ids: "[\"a\",\"d\"]".to_string(),
            excluded_workspace_ids: "[\"d\"]".to_string(),
            show_excluded: "false".to_string(),
        }
    }

    fn set(&mut self, field: &str, value: &str) {
        let slot = match field {
            "ok" => &mut self.ok,
            "version" => &mut self.version,
            "herdr_socket" => &mut self.herdr_socket,
            "excluded_labels" => &mut self.excluded_labels,
            "workspace_ids" => &mut self.workspace_ids,
            "excluded_workspace_ids" => &mut self.excluded_workspace_ids,
            "show_excluded" => &mut self.show_excluded,
            _ => unreachable!(),
        };
        *slot = value.to_string();
    }

    fn wire(&self) -> Vec<u8> {
        let Reply {
            ok,
            version,
            herdr_socket,
            excluded_labels,
            workspace_ids,
            excluded_workspace_ids,
            show_excluded,
        } = self;
        format!(
            r#"{{"ok":{ok},"version":{version},"herdr_socket":{herdr_socket},"excluded_labels":{excluded_labels},"workspace_ids":{workspace_ids},"excluded_workspace_ids":{excluded_workspace_ids},"show_excluded":{show_excluded}}}{}"#,
            "\n"
        )
        .into_bytes()
    }
}

struct Fixture {
    agents: RefCell<Vec<AgentObservation>>,
    preflight: RefCell<Option<Vec<AgentObservation>>>,
    reply: RefCell<Reply>,
    after_first: RefCell<Option<Reply>>,
    wire: RefCell<Option<Vec<u8>>>,
    requests: Cell<usize>,
    focuses: RefCell<Vec<String>>,
    state: RefCell<BeaconState>,
}

impl HerdrClient for Fixture {
    fn agent_get(&self, pane_id: &str) -> Result<Option<AgentObservation>, BeaconError> {
        let preflight = self.preflight.borrow();
        let agents = self.agents.borrow();
        let agents = preflight.as_ref().unwrap_or(&agents);
        Ok(agents
            .iter()
            .find(|agent| agent.pane_id == pane_id)
            .cloned())
    }

    fn agent_list(&self) -> Result<Vec<AgentObservation>, BeaconError> {
        Ok(self.agents.borrow().clone())
    }

    fn focus_agent(&self, pane_id: &str) -> Result<AgentObservation, BeaconError> {
        self.focuses.borrow_mut().push(pane_id.to_string());
        let agents = self.agents.borrow();
        let mut agent = agents
            .iter()
            .find(|agent| agent.pane_id == pane_id)
            .cloned()
            .unwrap();
        agent.focused = true;
        Ok(agent)
    }

    fn notify(&self, _title: &str, _body: Option<&str>) -> Result<(), BeaconError> {
        Ok(())
    }

    fn reload_config(&self) -> Result<(), BeaconError> {
        Err(BeaconError::Client("not used by policy tests".to_string()))
    }

    fn workspace_policy(&self) -> Result<WorkspacePolicy, BeaconError> {
        self.requests.set(self.requests.get() + 1);
        let bytes = match &*self.wire.borrow() {
            Some(raw) => raw.clone(),
            None => self.reply.borrow().wire(),
        };
        if let Some(next) = self.after_first.borrow_mut().take() {
            *self.reply.borrow_mut() = next;
        }
        let mut reply = Vec::new();
        for chunk in bytes.chunks(4096) {
            if accept_chunk(&mut reply, chunk)? {
                return WorkspacePolicy::from_reply(&reply, SESSION);
            }
        }
        accept_chunk(&mut reply, &[])?;
        unreachable!()
    }
}

impl Fixture {
    fn new() -> Self {
        Self {
            agents: RefCell::new(Vec::new()),
            preflight: RefCell::new(None),
            reply: RefCell::new(Reply::new()),
            after_first: RefCell::new(None),
            wire: RefCell::new(None),
            requests: Cell::new(0),
            focuses: RefCell::new(Vec::new()),
            state: RefCell::new(BeaconState::default()),
        }
    }

    fn live(&self, agents: Vec<AgentObservation>) {
        *self.agents.borrow_mut() = agents;
    }

    fn set(&self, field: &str, value: &str) {
        self.reply.borrow_mut().set(field, value);
    }

    /// One invocation on the stored state. What it did to the ledger is stored, also
    /// when it failed.
    fn run(&self, command: &str) -> Result<(), BeaconError> {
        let bytes = encode_state(&self.state.borrow())?;
        let mut state = decode_state(&bytes)?;
        let outside = Some("outside");
        let outcome = match command {
            "event" => {
                handle_event_json(self, &mut state, "pane.agent_status_changed", STATUS_EVENT)
            }
            "jump-unread" => jump(Shortcut::Unread, self, &mut state, outside).map(|_| ()),
            "jump-working" => jump(Shortcut::Working, self, &mut state, outside).map(|_| ()),
            "jump-recent" => jump(Shortcut::Recent, self, &mut state, outside).map(|_| ()),
            "jump-recent-reverse" => {
                jump(Shortcut::RecentReverse, self, &mut state, outside).map(|_| ())
            }
            _ => unreachable!(),
        };
        state.validate().unwrap();
        *self.state.borrow_mut() = state;
        outcome
    }

    fn ok(&self, command: &str) {
        self.run(command).unwrap();
    }

    fn focuses(&self) -> Vec<String> {
        self.focuses.borrow().clone()
    }

    fn entries(&self) -> Vec<String> {
        let state = self.state.borrow();
        let entries = state.entries();
        (0..entries.len())
            .map(|i| entries.value_at(i).workspace_id.clone())
            .collect()
    }
}

fn agent(ws: &str, status: AgentStatus, seq: u64) -> AgentObservation {
    AgentObservation {
        pane_id: format!("p-{ws}"),
        terminal_id: format!("t-{ws}"),
        workspace_id: ws.to_string(),
        status,
        focused: false,
        state_change_seq: seq,
    }
}

#[test]
fn tests_that_all_modes_exclude_resolved_ids_even_when_shown() {
    for shown in ["false", "true"] {
        for (mode, status) in [
            ("jump-unread", AgentStatus::Done),
            ("jump-working", AgentStatus::Working),
            ("jump-recent", AgentStatus::Idle),
            ("jump-recent-reverse", AgentStatus::Idle),
        ] {
            let f = Fixture::new();
            f.set("show_excluded", shown);
            f.live(vec![
                agent("a", status, 10),
                agent("d", status, if mode.ends_with("reverse") { 1 } else { 20 }),
            ]);
            f.ok(mode);
            assert_eq!(f.focuses(), ["p-a"], "{mode} shown={shown}");
            assert!(f.entries().iter().all(|workspace| workspace != "d"));
            assert_eq!(f.requests.get(), 2);
        }
    }
    let session = normalize_socket(SESSION).unwrap();
    let request: serde_json::Value =
        serde_json::from_str(&policy_request(&session)).unwrap();
    assert_eq!(request["cmd"], "workspace_policy");
    assert_eq!(request["version"], 1);
    assert_eq!(request["herdr_socket"], "/test/host.sock");
    assert_eq!(request.as_object().unwrap().len(), 3);
}

#[test]
fn tests_that_hook_exclusion_and_policy_removal_baseline_completion() {
    let f = Fixture::new();
    f.live(vec![agent("d", AgentStatus::Done, 8)]);
    f.ok("event");
    assert!(f.entries().is_empty());
    f.set("excluded_labels", "[]");
    f.set("excluded_workspace_ids", "[]");
    f.ok("jump-unread");
    assert!(f.focuses().is_empty());
    f.live(vec![agent("d", AgentStatus::Done, 10)]);
    f.ok("jump-unread");
    assert_eq!(f.focuses(), ["p-d"]);
}

#[test]
fn tests_that_policy_failure_is_closed_and_recovery_does_not_replay() {
    let f = Fixture::new();
    f.live(vec![agent("a", AgentStatus::Done, 8)]);
    *f.wire.borrow_mut() =
        Some(b"{\"ok\":false,\"code\":\"not_ready\",\"error\":\"starting\"}\n".to_vec());
    for mode in [
        "event",
        "jump-unread",
        "jump-working",
        "jump-recent",
        "jump-recent-reverse",
    ] {
        assert!(f.run(mode).is_err());
    }
    assert!(f.focuses().is_empty());
    *f.wire.borrow_mut() = None;
    f.ok("jump-unread");
    assert!(f.focuses().is_empty());
    f.live(vec![agent("a", AgentStatus::Done, 10)]);
    f.ok("jump-unread");
    assert_eq!(f.focuses(), ["p-a"]);
}

#[test]
fn tests_that_invalid_wire_replies_never_focus() {
    for (field, value) in [
        ("version", "2"),
        ("show_excluded", "\"false\""),
        ("herdr_socket", "\"/other.sock\""),
        ("workspace_ids", "[5]"),
        ("excluded_workspace_ids", "[\"unknown\"]"),
    ] {
        let f = Fixture::new();
        f.live(vec![agent("a", AgentStatus::Working, 8)]);
        f.set(field, value);
        assert!(f.run("jump-working").is_err(), "accepted {field}");
        assert!(f.focuses().is_empty());
    }
}

#[test]
fn tests_that_unknown_workspace_and_preflight_move_never_focus() {
    let f = Fixture::new();
    f.live(vec![agent("unknown", AgentStatus::Working, 8)]);
    f.ok("jump-working");
    assert!(f.focuses().is_empty());
    f.live(vec![agent("a", AgentStatus::Working, 10)]);
    let mut moved = agent("a", AgentStatus::Working, 10);
    moved.workspace_id = "d".to_string();
    *f.preflight.borrow_mut() = Some(vec![moved]);
    f.ok("jump-working");
    assert!(f.focuses().is_empty());
}

#[test]
fn tests_that_reset_at_same_host_path_baselines_current_completion() {
    let f = Fixture::new();
    f.live(vec![agent("a", AgentStatus::Working, 80)]);
    f.ok("event");
    f.live(vec![agent("a", AgentStatus::Done, 2)]);
    f.ok("jump-unread");
    assert!(f.focuses().is_empty());
    f.live(vec![agent("a", AgentStatus::Done, 4)]);
    f.ok("jump-unread");
    assert_eq!(f.focuses(), ["p-a"]);
}

#[test]
fn tests_that_refused_preflight_keeps_other_pending_completions() {
    let f = Fixture::new();
    f.set("workspace_ids", "[\"a\",\"b\",\"d\"]");
    f.live(vec![
        agent("a", AgentStatus::Done, 10),
        agent("b", AgentStatus::Done, 8),
    ]);
    let mut changed = agent("a", AgentStatus::Done, 10);
    changed.terminal_id = "replacement".to_string();
    *f.preflight.borrow_mut() = Some(vec![changed]);
    f.ok("jump-unread");
    assert!(f.focuses().is_empty());
    *f.preflight.borrow_mut() = None;
    f.ok("jump-unread");
    assert_eq!(f.focuses(), ["p-b"]);
}

#[test]
fn tests_that_preflight_refresh_refuses_a_newly_excluded_target() {
    let f = Fixture::new();
    f.live(vec![agent("a", AgentStatus::Working, 8)]);
    let mut changed = f.reply.borrow().clone();
    changed.set("excluded_workspace_ids", "[\"a\",\"d\"]");
    *f.after_first.borrow_mut() = Some(changed);
    f.ok("jump-working");
    assert!(f.focuses().is_empty());
}

#[test]
fn tests_that_show_hide_never_reenters_but_rename_and_move_do() {
    for mode in ["rename", "move", "recreate"] {
        let f = Fixture::new();
        f.live(vec![agent("d", AgentStatus::Done, 8)]);
        f.ok("event");
        f.set("show_excluded", "true");
        f.ok("jump-unread");
        assert!(f.focuses().is_empty());
        let mut current = agent("d", AgentStatus::Done, 10);
        match mode {
            "rename" => f.set("excluded_workspace_ids", "[]"),
            "move" => {
                current.workspace_id = "a".to_string();
                current.pane_id = "new-address".to_string();
            }
            _ => {
                current.terminal_id = "new-terminal".to_string();
            }
        }
        f.live(vec![current.clone()]);
        f.ok("jump-unread");
        assert!(f.focuses().is_empty());
        current.state_change_seq = 12;
        f.live(vec![current]);
        f.ok("jump-unread");
        if mode == "recreate" {
            assert!(f.focuses().is_empty());
        } else {
            assert_eq!(f.focuses().len(), 1);
        }
    }
}

#[test]
fn tests_that_legacy_migration_preserves_ambiguous_pending_and_acknowledgements() {
    for cleared in [None, Some(10)] {
        let f = Fixture::new();
        let mark = match cleared {
            None => r#"{"terminal_id":"t-a","state_change_seq":10}"#,
            Some(_) => r#"{"terminal_id":"t-a","state_change_seq":10,"cleared_through":10}"#,
        };
        let stored = format!(
            r#"{{"version":1,"next_ordinal":1,
            "entries":{{"p-a":{{"pane_id":"p-a","workspace_id":"a","terminal_id":"t-a","status":"done","state_change_seq":10,"ordinal":1}}}},
            "watermarks":{{"p-a":{mark}}}}}"#
        );
        *f.state.borrow_mut() = decode_state(stored.as_bytes()).unwrap();
        f.live(vec![agent("a", AgentStatus::Idle, 10)]);
        f.ok("jump-unread");
        assert_eq!(f.focuses().len(), usize::from(cleared.is_none()));
        let state = f.state.borrow();
        assert_eq!(state.version(), 2);
        assert_eq!(
            state.watermarks().get("p-a").unwrap().cleared_through,
            Some(10)
        );
    }
}

#[test]
fn tests_that_partial_v2_or_unknown_legacy_fields_are_not_overwritten() {
    for state in [
        r#"{"version":2,"next_ordinal":0,"entries":{},"watermarks":{}}"#,
        r#"{"version":1,"next_ordinal":0,"entries":{},"watermarks":{},"unrecognized":true}"#,
    ] {
        assert!(decode_state(state.as_bytes()).is_err());
    }
}

#[test]
fn tests_that_malformed_oversized_and_old_agents_replies_are_closed() {
    for bytes in [
        b"{}\n".to_vec(),
        b"not json\n".to_vec(),
        b"{\"ok\":true}".to_vec(),
        vec![b' '; 256 * 1024 + 1],
        b"{\"ok\":false,\"code\":\"unsupported_version\",\"error\":\"old daemon\"}\n".to_vec(),
    ] {
        let f = Fixture::new();
        f.live(vec![agent("a", AgentStatus::Working, 8)]);
        *f.wire.borrow_mut() = Some(bytes);
        assert!(f.run("jump-working").is_err());
        assert!(f.focuses().is_empty());
    }
}

#[test]
fn tests_that_many_candidates_share_a_bounded_number_of_policy_reads() {
    let f = Fixture::new();
    let agents = (0..400)
        .map(|n| {
            let mut a = agent(
                if n % 2 == 0 { "a" } else { "d" },
                AgentStatus::Working,
                n,
            );
            a.pane_id = format!("p-{n}");
            a.terminal_id = format!("t-{n}");
            a
        })
        .collect();
    f.live(agents);
    f.ok("jump-working");
    assert_eq!(f.focuses(), ["p-398"]);
    assert_eq!(f.requests.get(), 2);
}

#[test]
fn tests_that_cli_unread_regressions_preserve_passive_move_history() {
    for initial in [AgentStatus::Working, AgentStatus::Done] {
        let f = Fixture::new();
        let mut a = agent("a", initial, 9);
        f.live(vec![a.clone()]);
        f.ok("event");
        a.status = AgentStatus::Idle;
        a.state_change_seq = 10;
        f.live(vec![a.clone()]);
        f.ok("event");
        a.pane_id = "moved".to_string();
        f.live(vec![a.clone()]);
        // An old-address status hook must not be interpreted as acknowledgement.
        f.ok("event");
        f.ok("jump-unread");
        assert_eq!(f.focuses(), ["moved"]);
        f.ok("event");
        f.ok("jump-unread");
        assert_eq!(f.focuses(), ["moved"]);
    }
}

#[test]
fn tests_that_duplicate_unsorted_missing_and_invalid_sets_are_closed() {
    for (field, value) in [
        ("workspace_ids", "[\"a\",\"a\",\"d\"]"),
        ("workspace_ids", "[\"d\",\"a\"]"),
        ("excluded_labels", "[\"\"]"),
        ("excluded_labels", "[\"bad\\nlabel\"]"),
        ("ok", "\"true\""),
        ("show_excluded", "null"),
    ] {
        let f = Fixture::new();
        f.live(vec![agent("a", AgentStatus::Working, 8)]);
        f.set(field, value);
        assert!(f.run("jump-working").is_err());
        assert!(f.focuses().is_empty());
    }
}

#[test]
fn tests_that_unknown_membership_recovery_baselines_without_affecting_other_workspaces() {
    let f = Fixture::new();
    f.live(vec![
        agent("unknown", AgentStatus::Done, 10),
        agent("a", AgentStatus::Done, 8),
    ]);
    f.ok("jump-unread");
    assert_eq!(f.focuses(), ["p-a"]);
    f.set("workspace_ids", "[\"a\",\"d\",\"unknown\"]");
    f.ok("jump-unread");
    assert_eq!(f.focuses(), ["p-a"]);
    f.live(vec![agent("unknown", AgentStatus::Done, 12)]);
    f.ok("jump-unread");
    assert_eq!(f.focuses(), ["p-a", "p-unknown"]);
}

#[test]
fn tests_that_topology_hooks_and_delayed_aliases_use_only_canonical_location() {
    let f = Fixture::new();
    f.live(vec![agent("a", AgentStatus::Done, 10)]);
    f.ok("event");
    let mut moved = agent("a", AgentStatus::Done, 10);
    moved.workspace_id = "d".to_string();
    moved.pane_id = "moved".to_string();
    f.live(vec![moved]);
    for (name, data) in [
        (
            "pane.moved",
            r#","previous_pane_id":"old","pane":{"pane_id":"p-a","workspace_id":"a","terminal_id":"t-a"}"#,
        ),
        ("workspace.renamed", r#","workspace_id":"d""#),
        ("workspace.created", r#","workspace_id":"d""#),
        ("workspace.closed", r#","workspace_id":"a""#),
    ] {
        let tag = name.replace('.', "_");
        let payload = format!(r#"{{"event":"{tag}","data":{{"type":"{tag}"{data}}}}}"#);
        let mut state = f.state.borrow_mut();
        handle_event_json(&f, &mut state, name, &payload).unwrap();
        assert!(state.entries().is_empty());
        assert!(state.watermarks().is_empty());
    }
}

#[test]
fn tests_that_exclusion_survives_empty_snapshots_and_recreated_workspaces() {
    let f = Fixture::new();
    f.live(vec![agent("d", AgentStatus::Done, 10)]);
    f.ok("event");
    f.live(vec![]);
    f.set("workspace_ids", "[\"a\"]");
    f.set("excluded_workspace_ids", "[]");
    f.ok("jump-unread");
    let mut returning = agent("d", AgentStatus::Done, 20);
    returning.workspace_id = "a".to_string();
    returning.pane_id = "returned".to_string();
    f.live(vec![returning.clone()]);
    f.ok("jump-unread");
    assert!(f.focuses().is_empty());
    returning.state_change_seq = 22;
    f.live(vec![returning]);
    f.ok("jump-unread");
    assert_eq!(f.focuses(), ["returned"]);
    f.set("workspace_ids", "[\"a\",\"new-d\"]");
    f.set("excluded_workspace_ids", "[\"new-d\"]");
    f.live(vec![agent("new-d", AgentStatus::Done, 100)]);
    f.ok("jump-unread");
    assert_eq!(f.focuses(), ["returned"]);
}

#[test]
fn tests_that_config_removal_baselines_newly_resolved_history() {
    let f = Fixture::new();
    // The configured label had no live workspace at the previous invocation.
    f.set("excluded_workspace_ids", "[]");
    f.live(vec![]);
    f.ok("event");
    f.set("excluded_labels", "[]");
    f.live(vec![agent("a", AgentStatus::Done, 20)]);
    f.ok("jump-unread");
    assert!(f.focuses().is_empty());
    f.live(vec![agent("a", AgentStatus::Done, 22)]);
    f.ok("jump-unread");
    assert_eq!(f.focuses(), ["p-a"]);
}

#[test]
fn tests_that_recreated_destination_does_not_inherit_another_terminal_pending_entry() {
    let f = Fixture::new();
    *f.state.borrow_mut() = decode_state(
        br#"{"version":1,"next_ordinal":1,
        "entries":{"p-a":{"pane_id":"p-a","workspace_id":"a","terminal_id":"departed","status":"done","state_change_seq":100,"ordinal":1}},
        "watermarks":{"old-address":{"terminal_id":"t-a","state_change_seq":10,"cleared_through":10}}}"#,
    )
    .unwrap();
    f.live(vec![agent("a", AgentStatus::Done, 10)]);
    f.ok("jump-unread");
    assert!(f.focuses().is_empty());
}

#[test]
fn ambiguous_snapshots_ask_for_recovery() {
    for second in [
        agent("a", AgentStatus::Working, 9),
        AgentObservation {
            pane_id: String::new(),
            ..agent("b", AgentStatus::Working, 9)
        },
        AgentObservation {
            terminal_id: String::new(),
            ..agent("b", AgentStatus::Working, 9)
        },
        AgentObservation {
            terminal_id: "t-a".to_string(),
            ..agent("b", AgentStatus::Working, 9)
        },
    ] {
        let f = Fixture::new();
        f.live(vec![agent("a", AgentStatus::Working, 8), second]);
        assert_eq!(f.run("jump-working"), Err(BeaconError::AmbiguousSnapshot));
        assert!(f.state.borrow().recovery_needed());
    }
}

#[test]
fn every_policy_defect_has_its_own_error() {
    let check = |field: &str, value: &str| {
        let mut reply = Reply::new();
        reply.set(field, value);
        WorkspacePolicy::from_reply(&reply.wire(), SESSION).unwrap_err()
    };
    assert!(matches!(
        check("ok", "false"),
        BeaconError::PolicyUnavailable(_)
    ));
    assert_eq!(check("version", "\"1\""), BeaconError::InvalidPolicy);
    assert_eq!(check("version", "4294967296"), BeaconError::InvalidPolicy);
    assert_eq!(check("version", "2"), BeaconError::PolicyMismatch);
    assert_eq!(
        check("herdr_socket", "\"/other.sock\""),
        BeaconError::PolicyMismatch
    );
    assert_eq!(
        check("herdr_socket", "\"host.sock\""),
        BeaconError::SocketPath
    );
    assert_eq!(
        check("excluded_labels", "[\"\\u2003 \"]"),
        BeaconError::PolicySets
    );
    assert_eq!(
        check("excluded_workspace_ids", "[\"x\"]"),
        BeaconError::PolicyUnresolved
    );
    assert_eq!(
        WorkspacePolicy::from_reply(b"[", SESSION).unwrap_err(),
        BeaconError::PolicySyntax("EOF while parsing a list at line 1 column 1".to_string())
    );
    assert_eq!(
        WorkspacePolicy::from_reply(&Reply::new().wire(), "relative").unwrap_err(),
        BeaconError::SocketPath
    );
}

#[test]
fn valid_policies_know_their_workspaces() {
    let policy = WorkspacePolicy::from_reply(&Reply::new().wire(), SESSION).unwrap();
    assert!(policy.eligible("a"));
    assert!(!policy.eligible("d"));
    assert!(!policy.eligible("unknown"));
    assert_eq!(policy.session(), "/test/host.sock");
    assert_eq!(*policy.labels(), ["delegated"]);
    assert_eq!(*policy.excluded(), ["d"]);
}

#[test]
fn at_most_1984_workspaces_can_be_excluded() {
    for (count, accepted) in [(1984, true), (1985, false)] {
        let names: Vec<String> = (0..count).map(|n| format!("\"w{n:05}\"")).collect();
        let list = format!("[{}]", names.join(","));
        let mut reply = Reply::new();
        reply.set("workspace_ids", &list);
        reply.set("excluded_workspace_ids", &list);
        assert_eq!(
            WorkspacePolicy::from_reply(&reply.wire(), SESSION).is_ok(),
            accepted
        );
    }
}

#[test]
fn socket_paths_are_normalized_lexically() {
    for (path, normal) in [
        ("/", "/"),
        ("/a", "/a"),
        ("//a///b/", "/a/b"),
        ("/a/./b/../c", "/a/c"),
        ("/../../a", "/a"),
        ("/a/..", "/"),
        ("/.hidden/...", "/.hidden/..."),
    ] {
        assert_eq!(normalize_socket(path).unwrap(), normal);
        assert_eq!(normalize_socket(normal).unwrap(), normal);
    }
    for path in ["", "a", "./a", "/a\n", "/a\u{7f}", "/a\u{85}"] {
        assert_eq!(
            normalize_socket(path).unwrap_err(),
            BeaconError::SocketPath
        );
    }
}

#[test]
fn requests_are_one_line_of_json() {
    assert_eq!(
        policy_request("/test/\"quoted\".sock"),
        "{\"cmd\":\"workspace_policy\",\"herdr_socket\":\"/test/\\\"quoted\\\".sock\",\"version\":1}\n"
    );
}

#[test]
fn replies_end_at_their_first_newline() {
    let mut reply = Vec::new();
    assert_eq!(accept_chunk(&mut reply, b"ab"), Ok(false));
    assert_eq!(accept_chunk(&mut reply, b"c\nrest\n"), Ok(true));
    assert_eq!(reply, b"abc\n");
    let mut whole = Vec::new();
    assert_eq!(accept_chunk(&mut whole, b"abc\nrest\n"), Ok(true));
    assert_eq!(whole, reply);
    assert_eq!(
        accept_chunk(&mut Vec::new(), b""),
        Err(BeaconError::ReplyWithoutNewline)
    );
    let mut full = vec![b' '; 256 * 1024 - 1];
    assert_eq!(
        accept_chunk(&mut full, b"x\n"),
        Err(BeaconError::ReplyTooLong)
    );
    assert_eq!(full.len(), 256 * 1024 - 1);
    assert_eq!(accept_chunk(&mut full, b"\n"), Ok(true));
}

#[test]
fn policy_sockets_are_looked_for_in_order() {
    assert_eq!(policy_root(true, true, true), PolicyRoot::Named);
    assert_eq!(policy_root(false, true, true), PolicyRoot::StateHome);
    assert_eq!(policy_root(false, false, true), PolicyRoot::Home);
    assert_eq!(policy_root(false, false, false), PolicyRoot::Unknown);
}

#[test]
fn refused_policies_say_why() {
    let refusal = |reply: &[u8]| {
        WorkspacePolicy::from_reply(reply, SESSION)
            .unwrap_err()
            .message()
    };
    assert_eq!(
        refusal(br#"{"ok":false,"code":"not_ready","error":{"retry":[1,-2]}}"#),
        r#"Agents policy unavailable: "not_ready": {"retry":[1,-2]}"#
    );
    assert_eq!(
        refusal(br#"{"ok":false,"code":{"b":1,"a":[{"d":0,"c":0}]}}"#),
        r#"Agents policy unavailable: {"a":[{"c":0,"d":0}],"b":1}: null"#
    );
    assert_eq!(
        refusal(br#"{"ok":false,"error":1.5}"#),
        "Agents policy unavailable: null: 1.5"
    );
    assert_eq!(refusal(b"not json\n"), "expected ident at line 1 column 2");
}
