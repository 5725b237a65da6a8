use std::cell::RefCell;

use herdr_beacon::chord::{key_matches, AltShortcut};
use herdr_beacon::config::{
    config_root, confirm_install, plan_install, ConfigRoot, InstallPlan,
};
use herdr_beacon::eligibility::WorkspacePolicy;
use herdr_beacon::error::BeaconError;
use herdr_beacon::herdr::HerdrClient;
use herdr_beacon::model::AgentObservation;
use toml_edit::{DocumentMut, Item, Table};

fn written(original: Option<&str>) -> String {
    match plan_install(original).unwrap() {
        InstallPlan::Write(text) => text,
        InstallPlan::Unchanged => panic!("expected an updated config"),
    }
}

fn commands(text: &str) -> Vec<(String, String)> {
    let document = text.parse::<DocumentMut>().unwrap();
    document["keys"]["command"]
        .as_array_of_tables()
        .unwrap()
        .iter()
        .map(|table: &Table| {
            (
                table.get("key").and_then(Item::as_str).unwrap().to_string(),
                table
                    .get("command")
                    .and_then(Item::as_str)
                    .unwrap()
                    .to_string(),
            )
        })
        .collect()
}

fn beacon_commands() -> Vec<(String, String)> {
    vec![
        ("alt+u".into(), "shadowfax.beacon.jump-unread".into()),
        ("alt+o".into(), "shadowfax.beacon.jump-working".into()),
        ("alt+quote".into(), "shadowfax.beacon.jump-recent".into()),
        (
            "alt+shift+quote".into(),
            "shadowfax.beacon.jump-recent-reverse".into(),
        ),
        (
            "alt+double_quote".into(),
            "shadowfax.beacon.jump-recent-reverse".into(),
        ),
    ]
}

#[test]
fn install_preserves_unrelated_config_and_backs_up_the_original() {
    let original = r#"[theme]
name = "gruvbox"

[keys]
prefix = "ctrl+a"

[[keys.command]]
key = "alt+i"
type = "plugin_action"
command = "shadowfax.scratch.toggle-nvim"
description = "Scratch"
"#;

    let text = written(Some(original));

    assert!(text.starts_with(original));
    let mut expected = vec![("alt+i".into(), "shadowfax.scratch.toggle-nvim".into())];
    expected.extend(beacon_commands());
    assert_eq!(commands(&text), expected);
}

#[test]
fn repeated_install_is_a_byte_for_byte_no_op() {
    let once = written(Some("[keys]\nprefix = \"ctrl+a\"\n"));

    assert_eq!(plan_install(Some(&once)).unwrap(), InstallPlan::Unchanged);
}

#[test]
fn install_replaces_stale_or_duplicate_beacon_commands() {
    let text = written(Some(
        r#"[keys]
[[keys.command]]
key = "alt+b"
type = "plugin_action"
command = "shadowfax.beacon.jump-unread"
description = "Old"

[[keys.command]]
key = "alt+n"
type = "plugin_action"
command = "shadowfax.beacon.jump-unread"
description = "Duplicate"
"#,
    ));

    assert_eq!(commands(&text), beacon_commands());
}

#[test]
fn install_refuses_an_existing_custom_alt_u_binding() {
    let original = r#"[keys]
[[keys.command]]
key = "alt+u"
type = "plugin_action"
command = "someone.else.open"
description = "Keep me"
"#;

    let error = plan_install(Some(original)).unwrap_err();

    assert!(error.message().contains("already bound"));
}

#[test]
fn install_refuses_an_existing_custom_alt_o_binding() {
    let original = r#"[keys]
[[keys.command]]
key = "alt+o"
type = "plugin_action"
command = "someone.else.open"
description = "Keep me"
"#;

    let error = plan_install(Some(original)).unwrap_err();

    assert!(error.message().contains("alt+o is already bound"));
}

#[test]
fn install_refuses_equivalent_alt_shortcuts_before_writing() {
    for key in [
        "alt+quote",
        "alt+'",
        "option+quote",
        "meta+'",
        "quote+alt",
        " ' + OPTION ",
        "ALT+META+QUOTE",
        "u+option",
        "META+o",
        "shift+option+quote",
        "SHIFT + ' + META",
        "meta+double_quote",
        "double-quote+alt",
        "alt+shift+double_quote",
    ] {
        for original in [
            format!("[keys]\nnext_agent = [\"{key}\"]\n"),
            format!("[keys]\n[[keys.command]]\nkey = \"{key}\"\ntype = \"plugin_action\"\ncommand = \"someone.else.open\"\n"),
        ] {
            assert!(plan_install(Some(&original)).is_err(), "must detect {key}");
        }
    }
}

#[test]
fn install_refuses_custom_key_arrays_without_writing_or_backing_up() {
    for key in [
        "shift+alt+quote",
        "option+double_quote",
        "META+SHIFT+'",
        "alt+u",
        "alt+o",
    ] {
        let original = format!("[keys]\n[[keys.command]]\nkey = [\"alt+z\", \"{key}\"]\ntype = \"plugin_action\"\ncommand = \"someone.else.open\"\n");
        let error = plan_install(Some(&original)).unwrap_err();
        assert!(error.message().contains("already bound"));
    }
}

#[test]
fn install_allows_distinct_shifted_or_modified_shortcuts() {
    for key in ["alt+U", "alt+O", "ctrl+alt+quote", "ctrl+alt+shift+quote"] {
        let original = format!("[keys]\nnext_agent = \"{key}\"\n");
        assert!(
            plan_install(Some(&original)).is_ok(),
            "must preserve distinct {key}"
        );
    }
}

#[test]
fn install_refuses_a_builtin_alt_u_binding() {
    let original = "[keys]\nnext_agent = [\"ctrl+alt+j\", \"alt+u\"]\n";

    let error = plan_install(Some(original)).unwrap_err();

    assert!(error.message().contains("keys.next_agent"));
    assert_eq!(
        error.message(),
        "alt+u is already assigned to keys.next_agent"
    );
}

#[test]
fn install_can_create_a_new_config() {
    assert_eq!(commands(&written(None)), beacon_commands());
}

#[test]
fn installing_twice_settles_configs_of_every_shape() {
    for original in [
        "",
        "# only a comment",
        "keys.prefix = \"ctrl+a\"\n",
        "[keys.sub]\nx = 1\n[theme]\nname = \"a\"\n[keys]\nprefix = \"b\"\n",
        "[[keys.command]]\nkey = \"alt+i\"\n[other]\n[[keys.command]]\nkey = \"alt+b\"\ncommand = \"shadowfax.beacon.jump-unread\"\n",
        "[[keys.command]]\nkey = \"alt+i\"\n[keys.command.env]\nA = \"1\"\n[keys]\nq = \"alt+q\"",
    ] {
        let once = written(Some(original));
        assert_eq!(plan_install(Some(&once)).unwrap(), InstallPlan::Unchanged);
    }
}

#[test]
fn configs_that_cannot_hold_bindings_are_refused() {
    let fault = "[keys".parse::<DocumentMut>().unwrap_err().to_string();
    assert_eq!(
        plan_install(Some("[keys")).unwrap_err(),
        BeaconError::InvalidConfig(fault.clone())
    );
    assert_eq!(
        plan_install(Some("[keys")).unwrap_err().message(),
        format!("failed to parse the Herdr config: {fault}")
    );
    assert_eq!(
        plan_install(Some("keys = 1\n")).unwrap_err(),
        BeaconError::KeysNotTable
    );
    assert_eq!(
        plan_install(Some("keys = { prefix = \"a\" }\n")).unwrap_err(),
        BeaconError::KeysNotTable
    );
    assert_eq!(
        plan_install(Some("[keys]\ncommand = []\n")).unwrap_err(),
        BeaconError::CommandsNotTables
    );
}

#[test]
fn the_first_conflict_is_reported() {
    let original = "[keys]\nb = \"alt+o\"\na = \"alt+u\"\nz = \"alt+u\"\n";
    assert_eq!(
        plan_install(Some(original)).unwrap_err(),
        BeaconError::KeyAssigned {
            key: "alt+u".to_string(),
            action: "a".to_string(),
        }
    );
}

#[test]
fn chords_are_normalized() {
    assert_eq!(
        AltShortcut::parse("Option + U"),
        Some(AltShortcut {
            key: 'u',
            shift: true
        })
    );
    assert_eq!(
        AltShortcut::parse("alt+shift+quote"),
        AltShortcut::parse("meta+double-quote")
    );
    for text in ["", "u", "alt", "alt+", "alt+a+b", "ctrl+alt+u", "alt+uu"] {
        assert_eq!(AltShortcut::parse(text), None, "{text}");
    }
    assert!(key_matches("\u{a0}alt\u{2003}+ u", "alt+u"));
    assert!(!key_matches("ctrl+u", "ctrl+u"));
}

#[test]
fn config_locations_have_an_order() {
    assert_eq!(config_root(true, true, true), ConfigRoot::Named);
    assert_eq!(config_root(false, true, true), ConfigRoot::ConfigHome);
    assert_eq!(config_root(false, false, true), ConfigRoot::Home);
    assert_eq!(config_root(false, false, false), ConfigRoot::Unknown);
}

#[test]
fn token_order_and_blanks_do_not_matter() {
    let expected = AltShortcut::parse("alt+shift+quote");
    assert!(expected.is_some());
    for spelling in ["quote+shift+alt", " Shift + META + quote ", "shift+quote+option"] {
        assert_eq!(AltShortcut::parse(spelling), expected);
    }
    for spelling in ["u+o+alt", "alt", "u", "shift+u", "alt++u", "alt+shift"] {
        assert_eq!(AltShortcut::parse(spelling), None);
    }
    assert_eq!(
        AltShortcut::parse("U+alt"),
        Some(AltShortcut { key: 'u', shift: true })
    );
}

#[test]
fn a_new_config_holds_nothing_but_the_bindings() {
    let document = written(None).parse::<DocumentMut>().unwrap();
    assert_eq!(document.iter().count(), 1);
    assert_eq!(document["keys"].as_table().unwrap().len(), 1);
}

#[derive(Default)]
struct Host {
    asked: RefCell<Vec<String>>,
    refuses_reload: bool,
    silent: bool,
}

fn failure(reason: &str) -> BeaconError {
    BeaconError::Client(reason.to_string())
}

impl HerdrClient for Host {
    fn agent_get(&self, _pane_id: &str) -> Result<Option<AgentObservation>, BeaconError> {
        Err(failure("not used"))
    }

    fn agent_list(&self) -> Result<Vec<AgentObservation>, BeaconError> {
        Err(failure("not used"))
    }

    fn focus_agent(&self, _pane_id: &str) -> Result<AgentObservation, BeaconError> {
        Err(failure("not used"))
    }

    fn notify(&self, title: &str, body: Option<&str>) -> Result<(), BeaconError> {
        assert!(body.is_none());
        self.asked.borrow_mut().push(title.to_string());
        if self.silent {
            return Err(failure("silent"));
        }
        Ok(())
    }

    fn reload_config(&self) -> Result<(), BeaconError> {
        self.asked.borrow_mut().push("reload".to_string());
        if self.refuses_reload {
            return Err(failure("reload"));
        }
        Ok(())
    }

    fn workspace_policy(&self) -> Result<WorkspacePolicy, BeaconError> {
        Err(failure("not used"))
    }
}

#[test]
fn installations_are_confirmed() {
    let installed = "Beacon shortcuts installed, including Shift-Alt-' to go back";
    let host = Host::default();
    assert_eq!(confirm_install(&host, true), Ok(None));
    assert_eq!(*host.asked.borrow(), ["reload", installed]);

    let host = Host::default();
    assert_eq!(confirm_install(&host, false), Ok(None));
    assert_eq!(
        *host.asked.borrow(),
        ["Beacon keybindings are already installed"]
    );

    let host = Host { refuses_reload: true, ..Host::default() };
    assert_eq!(confirm_install(&host, true), Err(failure("reload")));
    assert_eq!(*host.asked.borrow(), ["reload"]);

    let host = Host { silent: true, ..Host::default() };
    assert_eq!(confirm_install(&host, true), Ok(Some(failure("silent"))));
    assert_eq!(confirm_install(&host, false), Ok(Some(failure("silent"))));
}
