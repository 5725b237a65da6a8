//! Beacon's shortcuts in the Herdr config.

use vstd::prelude::*;
use crate::chord::key_matches;
use crate::error::BeaconError;
use crate::text::same;

verus! {

/// One direct Herdr shortcut owned and normalized by Beacon's installer.
pub struct Binding {
    pub key: &'static str,
    pub command: &'static str,
    pub description: &'static str,
}

/// The meaning of a binding.
pub struct BindingView {
    pub key: Seq<char>,
    pub command: Seq<char>,
    pub description: Seq<char>,
}

impl View for Binding {
    type V = BindingView;

    open spec fn view(&self) -> BindingView {
        BindingView {
            key: self.key@,
            command: self.command@,
            description: self.description@,
        }
    }
}

/// The complete set of bindings that Beacon owns. Legacy terminals send
/// Alt-double-quote without a separate Shift modifier; both encodings invoke one
/// action.
pub open spec fn owned_bindings() -> Seq<BindingView> {
    seq![
        BindingView {
            key: "alt+u"@,
            command: "shadowfax.beacon.jump-unread"@,
            description: "Cycle through unread or blocked agents"@,
        },
        BindingView {
            key: "alt+o"@,
            command: "shadowfax.beacon.jump-working"@,
            description: "Cycle through working or blocked agents"@,
        },
        BindingView {
            key: "alt+quote"@,
            command: "shadowfax.beacon.jump-recent"@,
            description: "Cycle through idle, done, or unknown agents by recent activity"@,
        },
        BindingView {
            key: "alt+shift+quote"@,
            command: "shadowfax.beacon.jump-recent-reverse"@,
            description:
                "Cycle backward through idle, done, or unknown agents by recent activity"@,
        },
        BindingView {
            key: "alt+double_quote"@,
            command: "shadowfax.beacon.jump-recent-reverse"@,
            description:
                "Cycle backward through idle, done, or unknown agents by recent activity"@,
        },
    ]
}

/// The bindings that a list holds.
pub open spec fn bindings_seen(bindings: Seq<Binding>) -> Seq<BindingView> {
    bindings.map_values(|binding: Binding| binding@)
}

/// The complete set of bindings that Beacon owns.
pub fn bindings() -> (all: Vec<Binding>)
    ensures
        bindings_seen(all@) == owned_bindings(),
{
    let all = vec![
        Binding {
            key: "alt+u",
            command: "shadowfax.beacon.jump-unread",
            description: "Cycle through unread or blocked agents",
        },
        Binding {
            key: "alt+o",
            command: "shadowfax.beacon.jump-working",
            description: "Cycle through working or blocked agents",
        },
        Binding {
            key: "alt+quote",
            command: "shadowfax.beacon.jump-recent",
            description: "Cycle through idle, done, or unknown agents by recent activity",
        },
        Binding {
            key: "alt+shift+quote",
            command: "shadowfax.beacon.jump-recent-reverse",
            description: "Cycle backward through idle, done, or unknown agents by recent activity",
        },
        Binding {
            key: "alt+double_quote",
            command: "shadowfax.beacon.jump-recent-reverse",
            description: "Cycle backward through idle, done, or unknown agents by recent activity",
        },
    ];
    assert(bindings_seen(all@) =~= owned_bindings());
    all
}

/// A config value, as far as key bindings are concerned. Herdr bindings are a text
/// or a list of texts; other members of a list are `None`.
#[derive(Debug, PartialEq, Eq)]
pub enum Setting {
    Text(String),
    List(Vec<Option<String>>),
    Other,
}

/// The meaning of a config value.
pub enum SettingView {
    Text(Seq<char>),
    List(Seq<Option<Seq<char>>>),
    Other,
}

impl View for Setting {
    type V = SettingView;

    open spec fn view(&self) -> SettingView {
        match self {
            Setting::Text(text) => SettingView::Text(text@),
            Setting::List(items) => SettingView::List(
                items@.map_values(
                    |item: Option<String>|
                        match item {
                            Some(text) => Some(text@),
                            None => None,
                        },
                ),
            ),
            Setting::Other => SettingView::Other,
        }
    }
}

/// The named values of a table, in their order.
pub struct Block {
    pub entries: Vec<(String, Setting)>,
}

impl View for Block {
    type V = Seq<(Seq<char>, SettingView)>;

    open spec fn view(&self) -> Seq<(Seq<char>, SettingView)> {
        self.entries@.map_values(|entry: (String, Setting)| (entry.0@, entry.1@))
    }
}

/// What a Herdr config says of keys.
pub struct Config {
    /// There is something under `keys`.
    pub has_keys: bool,
    /// It is a table.
    pub keys_are_table: bool,
    /// What the table holds.
    pub settings: Block,
    /// There is something under `keys.command`.
    pub has_command: bool,
    /// It is an array of tables.
    pub commands_are_tables: bool,
    /// The tables of the array.
    pub commands: Vec<Block>,
}

/// The meaning of what a Herdr config says of keys.
pub struct ConfigView {
    pub has_keys: bool,
    pub keys_are_table: bool,
    pub settings: Seq<(Seq<char>, SettingView)>,
    pub has_command: bool,
    pub commands_are_tables: bool,
    pub commands: Seq<Seq<(Seq<char>, SettingView)>>,
}

impl View for Config {
    type V = ConfigView;

    open spec fn view(&self) -> ConfigView {
        ConfigView {
            has_keys: self.has_keys,
            keys_are_table: self.keys_are_table,
            settings: self.settings@,
            has_command: self.has_command,
            commands_are_tables: self.commands_are_tables,
            commands: self.commands@.map_values(|block: Block| block@),
        }
    }
}

/// Whether a config value binds a key. Every alias counts, so that an array cannot
/// silently keep a conflicting shortcut.
pub open spec fn uses_key(value: SettingView, key: Seq<char>) -> bool {
    match value {
        SettingView::Text(text) => crate::chord::matches_key(text, key),
        SettingView::List(items) => exists|i: int|
            0 <= i < items.len() && (#[trigger] items[i] matches Some(text)
                && crate::chord::matches_key(text, key)),
        SettingView::Other => false,
    }
}

/// The value of the first entry with the given name.
pub open spec fn value_of(
    entries: Seq<(Seq<char>, SettingView)>,
    name: Seq<char>,
) -> Option<SettingView>
    decreases entries.len(),
{
    if entries.len() == 0 {
        None
    } else if entries[0].0 == name {
        Some(entries[0].1)
    } else {
        value_of(entries.drop_first(), name)
    }
}

/// The named text of a table.
pub open spec fn named_text(
    entries: Seq<(Seq<char>, SettingView)>,
    name: Seq<char>,
) -> Option<Seq<char>> {
    match value_of(entries, name) {
        Some(SettingView::Text(text)) => Some(text),
        _ => None,
    }
}

/// Whether a custom command is one of Beacon's.
pub open spec fn is_owned(block: Seq<(Seq<char>, SettingView)>) -> bool {
    exists|b: int|
        0 <= b < owned_bindings().len() && named_text(block, "command"@) == Some(
            #[trigger] owned_bindings()[b].command,
        )
}

/// Whether a custom command is exactly the block that a binding installs.
pub open spec fn is_desired(block: Seq<(Seq<char>, SettingView)>, binding: BindingView) -> bool {
    &&& block.len() == 4
    &&& named_text(block, "key"@) == Some(binding.key)
    &&& named_text(block, "type"@) == Some("plugin_action"@)
    &&& named_text(block, "command"@) == Some(binding.command)
    &&& named_text(block, "description"@) == Some(binding.description)
}

/// The block that a binding installs.
pub open spec fn block_for(binding: BindingView) -> Seq<(Seq<char>, SettingView)> {
    seq![
        ("key"@, SettingView::Text(binding.key)),
        ("type"@, SettingView::Text("plugin_action"@)),
        ("command"@, SettingView::Text(binding.command)),
        ("description"@, SettingView::Text(binding.description)),
    ]
}

impl ConfigView {
    /// What is not there is no table, and what is no table holds nothing.
    pub open spec fn consistent(self) -> bool {
        &&& !self.has_keys ==> !self.keys_are_table
        &&& !self.keys_are_table ==> self.settings.len() == 0 && !self.has_command
        &&& !self.has_command ==> !self.commands_are_tables
        &&& !self.commands_are_tables ==> self.commands.len() == 0
    }

    /// A built-in action has one of Beacon's shortcuts.
    pub open spec fn assigned(self, b: int, i: int) -> bool {
        &&& self.keys_are_table
        &&& 0 <= b < owned_bindings().len()
        &&& 0 <= i < self.settings.len()
        &&& self.settings[i].0 != "command"@
        &&& uses_key(self.settings[i].1, owned_bindings()[b].key)
    }

    /// The first shortcut that is assigned, and the first action that has it.
    pub open spec fn first_assigned(self, b: int, i: int) -> bool {
        &&& self.assigned(b, i)
        &&& forall|b2: int, i2: int| #[trigger]
            self.assigned(b2, i2) ==> b < b2 || b == b2 && i <= i2
    }

    /// A custom command of somebody else has one of Beacon's shortcuts.
    pub open spec fn bound(self, b: int) -> bool {
        &&& 0 <= b < owned_bindings().len()
        &&& exists|i: int| 0 <= i < self.commands.len() && #[trigger] self.bound_by(b, i)
    }

    /// The custom command has the shortcut, and is not the one that should have it.
    pub open spec fn bound_by(self, b: int, i: int) -> bool {
        &&& value_of(self.commands[i], "key"@) matches Some(value)
        &&& uses_key(value, owned_bindings()[b].key)
        &&& named_text(self.commands[i], "command"@) != Some(owned_bindings()[b].command)
    }

    /// Each of Beacon's blocks is there once, and there are no others of Beacon's.
    pub open spec fn installed(self) -> bool {
        &&& self.commands.filter(|block: Seq<(Seq<char>, SettingView)>| is_owned(block)).len()
            == owned_bindings().len()
        &&& forall|b: int|
            0 <= b < owned_bindings().len() ==> self.commands.filter(
                |block: Seq<(Seq<char>, SettingView)>|
                    is_desired(block, #[trigger] owned_bindings()[b]),
            ).len() == 1
    }

    /// The settings other than the custom commands.
    pub open spec fn builtins(self) -> Seq<(Seq<char>, SettingView)> {
        self.settings.filter(|entry: (Seq<char>, SettingView)| entry.0 != "command"@)
    }

    /// The custom commands that are not Beacon's.
    pub open spec fn foreign(self) -> Seq<Seq<(Seq<char>, SettingView)>> {
        self.commands.filter(|block: Seq<(Seq<char>, SettingView)>| !is_owned(block))
    }

    /// The custom commands after installation: those of others, in their order, and
    /// then Beacon's.
    pub open spec fn extended(self) -> Seq<Seq<(Seq<char>, SettingView)>> {
        self.foreign() + owned_bindings().map_values(|binding: BindingView| block_for(binding))
    }
}

/// How the review of a config ends: with the first objection, or with whether the
/// bindings are already installed.
pub open spec fn reviews(config: ConfigView, verdict: Result<bool, BeaconError>) -> bool {
    if exists|b: int, i: int| config.assigned(b, i) {
        verdict matches Err(BeaconError::KeyAssigned { key, action }) && exists|b: int, i: int|
         #[trigger]
            config.first_assigned(b, i) && key@ == owned_bindings()[b].key && action@
                == config.settings[i].0
    } else if config.has_keys && !config.keys_are_table {
        verdict matches Err(error) && error is KeysNotTable
    } else if config.has_command && !config.commands_are_tables {
        verdict matches Err(error) && error is CommandsNotTables
    } else if exists|b: int| config.bound(b) {
        verdict matches Err(BeaconError::KeyBound(key)) && exists|b: int| #[trigger]
            config.bound(b) && key@ == owned_bindings()[b].key && forall|b2: int| #[trigger]
                config.bound(b2) ==> b <= b2
    } else {
        verdict == Ok::<bool, BeaconError>(config.installed())
    }
}

/// Whether a config value binds a key.
fn item_uses_key(value: &Setting, key: &str) -> (used: bool)
    ensures
        used == uses_key(value@, key@),
{
    match value {
        Setting::Text(text) => key_matches(text, key),
        Setting::List(items) => {
            let ghost seen = value@->List_0;
            let mut i: usize = 0;
            while i < items.len()
                invariant
                    i <= items.len(),
                    value@ == SettingView::List(seen),
                    seen.len() == items@.len(),
                    forall|j: int|
                        0 <= j < items@.len() ==> #[trigger] seen[j] == match items@[j] {
                            Some(text) => Some(text@),
                            None => None,
                        },
                    forall|j: int|
                        0 <= j < i ==> !(#[trigger] seen[j] matches Some(text)
                            && crate::chord::matches_key(text, key@)),
                decreases items.len() - i,
            {
                assert(seen[i as int] == match items@[i as int] {
                    Some(text) => Some(text@),
                    None => None,
                });
                if let Some(text) = &items[i] {
                    if key_matches(text, key) {
                        return true;
                    }
                }
                i = i + 1;
            }
            false
        },
        Setting::Other => false,
    }
}

/// The value of the first entry with the given name.
fn find<'a>(block: &'a Block, name: &str) -> (value: Option<&'a Setting>)
    ensures
        match value {
            Some(value) => value_of(block@, name@) == Some(value@),
            None => value_of(block@, name@) is None,
        },
{
    let ghost all = block@;
    let mut i: usize = 0;
    assert(all.skip(0) =~= all);
    while i < block.entries.len()
        invariant
            i <= block.entries.len(),
            all == block@,
            value_of(all, name@) == value_of(all.skip(i as int), name@),
        decreases block.entries.len() - i,
    {
        assert(all.skip(i as int)[0] == (
            block.entries@[i as int].0@,
            block.entries@[i as int].1@,
        ));
        assert(all.skip(i as int).drop_first() =~= all.skip(i + 1));
        if same(&block.entries[i].0, name) {
            return Some(&block.entries[i].1);
        }
        i = i + 1;
    }
    None
}

/// Whether the named value of a table is the given text.
fn table_string_is(block: &Block, name: &str, text: &str) -> (equal: bool)
    ensures
        equal == (named_text(block@, name@) == Some(text@)),
{
    match find(block, name) {
        Some(Setting::Text(value)) => same(value, text),
        _ => false,
    }
}

/// Whether a custom command is one of Beacon's.
pub fn owns(block: &Block) -> (owned: bool)
    ensures
        owned == is_owned(block@),
{
    let all = bindings();
    let mut b: usize = 0;
    while b < all.len()
        invariant
            b <= all.len(),
            bindings_seen(all@) == owned_bindings(),
            forall|c: int|
                0 <= c < b ==> named_text(block@, "command"@) != Some(
                    #[trigger] owned_bindings()[c].command,
                ),
        decreases all.len() - b,
    {
        assert(owned_bindings()[b as int] == all@[b as int]@);
        if table_string_is(block, "command", all[b].command) {
            assert(named_text(block@, "command"@) == Some(owned_bindings()[b as int].command));
            return true;
        }
        b = b + 1;
    }
    assert(bindings_seen(all@).len() == owned_bindings().len());
    false
}

/// Whether a custom command is exactly the block that a binding installs.
fn desires(block: &Block, binding: &Binding) -> (desired: bool)
    ensures
        desired == is_desired(block@, binding@),
{
    block.entries.len() == 4 && table_string_is(block, "key", binding.key) && table_string_is(
        block,
        "type",
        "plugin_action",
    ) && table_string_is(block, "command", binding.command) && table_string_is(
        block,
        "description",
        binding.description,
    )
}

/// Refuses a config in which a built-in action has one of Beacon's shortcuts.
fn ensure_builtin_keys_are_available(config: &Config) -> (verdict: Result<(), BeaconError>)
    ensures
        match verdict {
            Ok(()) => forall|b: int, i: int| !config@.assigned(b, i),
            Err(BeaconError::KeyAssigned { key, action }) => exists|b: int, i: int| #[trigger]
                config@.first_assigned(b, i) && key@ == owned_bindings()[b].key && action@
                    == config@.settings[i].0,
            Err(_) => false,
        },
{
    if !config.keys_are_table {
        return Ok(());
    }
    let all = bindings();
    let mut b: usize = 0;
    while b < all.len()
        invariant
            b <= all.len(),
            bindings_seen(all@) == owned_bindings(),
            config@.keys_are_table,
            forall|c: int, i: int| #[trigger] config@.assigned(c, i) ==> b <= c,
        decreases all.len() - b,
    {
        assert(owned_bindings()[b as int] == all@[b as int]@);
        let mut i: usize = 0;
        while i < config.settings.entries.len()
            invariant
                b < all.len(),
                bindings_seen(all@) == owned_bindings(),
                owned_bindings()[b as int] == all@[b as int]@,
                i <= config.settings.entries.len(),
                config@.keys_are_table,
                forall|c: int, j: int| #[trigger]
                    config@.assigned(c, j) ==> b < c || b == c && i <= j,
            decreases config.settings.entries.len() - i,
        {
            let entry = &config.settings.entries[i];
            assert(config@.settings[i as int] == (entry.0@, entry.1@));
            if !same(&entry.0, "command") && item_uses_key(&entry.1, all[b].key) {
                assert(bindings_seen(all@).len() == all@.len());
                assert(config@.assigned(b as int, i as int));
                assert(config@.first_assigned(b as int, i as int));
                return Err(
                    BeaconError::KeyAssigned {
                        key: all[b].key.to_owned(),
                        action: entry.0.clone(),
                    },
                );
            }
            assert(!config@.assigned(b as int, i as int));
            i = i + 1;
        }
        b = b + 1;
    }
    assert(bindings_seen(all@).len() == all@.len());
    Ok(())
}

/// Refuses a config in which a custom command of somebody else has one of Beacon's
/// shortcuts.
fn ensure_custom_keys_are_available(config: &Config) -> (verdict: Result<(), BeaconError>)
    ensures
        match verdict {
            Ok(()) => forall|b: int| !config@.bound(b),
            Err(BeaconError::KeyBound(key)) => exists|b: int| #[trigger]
                config@.bound(b) && key@ == owned_bindings()[b].key && forall|b2: int| #[trigger]
                    config@.bound(b2) ==> b <= b2,
            Err(_) => false,
        },
{
    let all = bindings();
    let mut b: usize = 0;
    while b < all.len()
        invariant
            b <= all.len(),
            bindings_seen(all@) == owned_bindings(),
            forall|c: int| #[trigger] config@.bound(c) ==> b <= c,
        decreases all.len() - b,
    {
        assert(owned_bindings()[b as int] == all@[b as int]@);
        assert(bindings_seen(all@).len() == all@.len());
        let mut i: usize = 0;
        while i < config.commands.len()
            invariant
                b < all.len(),
                bindings_seen(all@) == owned_bindings(),
                bindings_seen(all@).len() == all@.len(),
                owned_bindings()[b as int] == all@[b as int]@,
                i <= config.commands.len(),
                forall|c: int| #[trigger] config@.bound(c) ==> b <= c,
                forall|j: int| 0 <= j < i ==> !#[trigger] config@.bound_by(b as int, j),
            decreases config.commands.len() - i,
        {
            let block = &config.commands[i];
            assert(config@.commands[i as int] == block@);
            let taken = match find(block, "key") {
                Some(value) => item_uses_key(value, all[b].key) && !table_string_is(
                    block,
                    "command",
                    all[b].command,
                ),
                None => false,
            };
            if taken {
                assert(config@.bound_by(b as int, i as int));
                assert(config@.bound(b as int));
                return Err(BeaconError::KeyBound(all[b].key.to_owned()));
            }
            assert(!config@.bound_by(b as int, i as int));
            i = i + 1;
        }
        assert(!config@.bound(b as int));
        b = b + 1;
    }
    assert(bindings_seen(all@).len() == all@.len());
    Ok(())
}

/// How many custom commands are Beacon's.
fn count_owned(commands: &Vec<Block>) -> (count: usize)
    ensures
        count == commands@.map_values(|block: Block| block@).filter(
            |block: Seq<(Seq<char>, SettingView)>| is_owned(block),
        ).len(),
{
    let ghost all = commands@.map_values(|block: Block| block@);
    let ghost keep = |block: Seq<(Seq<char>, SettingView)>| is_owned(block);
    let mut count: usize = 0;
    let mut i: usize = 0;
    assert(all.take(0) =~= Seq::<Seq<(Seq<char>, SettingView)>>::empty());
    assert(all.take(0).filter(keep).len() == 0) by {
        reveal(Seq::filter);
    }
    while i < commands.len()
        invariant
            i <= commands.len(),
            count <= i,
            all == commands@.map_values(|block: Block| block@),
            keep == (|block: Seq<(Seq<char>, SettingView)>| is_owned(block)),
            count == all.take(i as int).filter(keep).len(),
        decreases commands.len() - i,
    {
        assert(all.take(i + 1).drop_last() =~= all.take(i as int));
        assert(all.take(i + 1).last() == commands@[i as int]@);
        proof {
            reveal(Seq::filter);
        }
        if owns(&commands[i]) {
            count = count + 1;
        }
        i = i + 1;
    }
    assert(all.take(commands.len() as int) =~= all);
    count
}

/// How many custom commands are exactly the block that a binding installs.
fn count_desired(commands: &Vec<Block>, binding: &Binding) -> (count: usize)
    ensures
        count == commands@.map_values(|block: Block| block@).filter(
            |block: Seq<(Seq<char>, SettingView)>| is_desired(block, binding@),
        ).len(),
{
    let ghost all = commands@.map_values(|block: Block| block@);
    let ghost keep = |block: Seq<(Seq<char>, SettingView)>| is_desired(block, binding@);
    let mut count: usize = 0;
    let mut i: usize = 0;
    assert(all.take(0) =~= Seq::<Seq<(Seq<char>, SettingView)>>::empty());
    assert(all.take(0).filter(keep).len() == 0) by {
        reveal(Seq::filter);
    }
    while i < commands.len()
        invariant
            i <= commands.len(),
            count <= i,
            all == commands@.map_values(|block: Block| block@),
            keep == (|block: Seq<(Seq<char>, SettingView)>| is_desired(block, binding@)),
            count == all.take(i as int).filter(keep).len(),
        decreases commands.len() - i,
    {
        assert(all.take(i + 1).drop_last() =~= all.take(i as int));
        assert(all.take(i + 1).last() == commands@[i as int]@);
        proof {
            reveal(Seq::filter);
        }
        if desires(&commands[i], binding) {
            count = count + 1;
        }
        i = i + 1;
    }
    assert(all.take(commands.len() as int) =~= all);
    count
}

/// Whether each of Beacon's blocks is there once, and no others of Beacon's.
fn is_installed(config: &Config) -> (installed: bool)
    ensures
        installed == config@.installed(),
{
    let all = bindings();
    assert(bindings_seen(all@).len() == all@.len());
    if count_owned(&config.commands) != all.len() {
        return false;
    }
    let mut b: usize = 0;
    while b < all.len()
        invariant
            b <= all.len(),
            bindings_seen(all@) == owned_bindings(),
            bindings_seen(all@).len() == all@.len(),
            config@.commands.filter(
                |block: Seq<(Seq<char>, SettingView)>| is_owned(block),
            ).len() == owned_bindings().len(),
            forall|c: int|
                0 <= c < b ==> config@.commands.filter(
                    |block: Seq<(Seq<char>, SettingView)>|
                        is_desired(block, #[trigger] owned_bindings()[c]),
                ).len() == 1,
        decreases all.len() - b,
    {
        assert(owned_bindings()[b as int] == all@[b as int]@);
        if count_desired(&config.commands, &all[b]) != 1 {
            assert(!(config@.commands.filter(
                |block: Seq<(Seq<char>, SettingView)>|
                    is_desired(block, owned_bindings()[b as int]),
            ).len() == 1));
            return false;
        }
        b = b + 1;
    }
    true
}

/// Reviews a config before anything is written. Every destination is validated
/// first, so that a conflict cannot leave a partially upgraded config.
pub fn review(config: &Config) -> (verdict: Result<bool, BeaconError>)
    ensures
        reviews(config@, verdict),
{
    if let Err(error) = ensure_builtin_keys_are_available(config) {
        assert(exists|b: int, i: int| #[trigger] config@.first_assigned(b, i));
        return Err(error);
    }
    if config.has_keys && !config.keys_are_table {
        return Err(BeaconError::KeysNotTable);
    }
    if config.has_command && !config.commands_are_tables {
        return Err(BeaconError::CommandsNotTables);
    }
    if let Err(error) = ensure_custom_keys_are_available(config) {
        return Err(error);
    }
    Ok(is_installed(config))
}

/// A block that a binding installs says what the binding does.
proof fn lemma_block_texts(binding: BindingView)
    ensures
        value_of(block_for(binding), "key"@) == Some(SettingView::Text(binding.key)),
        named_text(block_for(binding), "key"@) == Some(binding.key),
        named_text(block_for(binding), "type"@) == Some("plugin_action"@),
        named_text(block_for(binding), "command"@) == Some(binding.command),
        named_text(block_for(binding), "description"@) == Some(binding.description),
{
    reveal_strlit("key");
    reveal_strlit("type");
    reveal_strlit("command");
    reveal_strlit("description");
    assert("key"@.len() == 3 && "type"@.len() == 4);
    assert("command"@.len() == 7 && "description"@.len() == 11);
    let block = block_for(binding);
    assert(block.drop_first()[0] == ("type"@, SettingView::Text("plugin_action"@)));
    assert(block.drop_first().drop_first()[0] == ("command"@, SettingView::Text(binding.command)));
    assert(block.drop_first().drop_first().drop_first()[0] == (
        "description"@,
        SettingView::Text(binding.description),
    ));
    reveal_with_fuel(value_of, 5);
}

/// Two of Beacon's bindings have the same shortcut only if they have the same
/// command, and the same key only if they are the same.
proof fn lemma_bindings_agree(a: int, b: int)
    requires
        0 <= a < owned_bindings().len(),
        0 <= b < owned_bindings().len(),
    ensures
        crate::chord::matches_key(owned_bindings()[a].key, owned_bindings()[b].key)
            ==> owned_bindings()[a].command == owned_bindings()[b].command,
        owned_bindings()[a].key == owned_bindings()[b].key ==> a == b,
{
    crate::chord::lemma_own_keys();
    reveal_strlit("alt+u");
    reveal_strlit("alt+o");
    reveal_strlit("alt+quote");
    reveal_strlit("alt+shift+quote");
    reveal_strlit("alt+double_quote");
    assert("alt+u"@[4] == 'u' && "alt+o"@[4] == 'o');
    assert("alt+u"@.len() == 5 && "alt+o"@.len() == 5 && "alt+quote"@.len() == 9);
    assert("alt+shift+quote"@.len() == 15 && "alt+double_quote"@.len() == 16);
}

proof fn lemma_filter_push<A>(items: Seq<A>, keep: spec_fn(A) -> bool, item: A)
    ensures
        items.push(item).filter(keep).len() == items.filter(keep).len() + if keep(item) {
            1int
        } else {
            0int
        },
{
    reveal(Seq::filter);
    assert(items.push(item).drop_last() =~= items);
}

/// How many of Beacon's own blocks pass a test.
proof fn lemma_own_blocks_filtered(keep: spec_fn(Seq<(Seq<char>, SettingView)>) -> bool, k: int)
    requires
        0 <= k <= owned_bindings().len(),
    ensures
        ({
            let blocks = owned_bindings().take(k).map_values(
                |binding: BindingView| block_for(binding),
            );
            &&& (forall|b: int|
                0 <= b < k ==> keep(block_for(#[trigger] owned_bindings()[b]))) ==> blocks.filter(
                keep,
            ).len() == k
            &&& (forall|b: int|
                0 <= b < k ==> !keep(block_for(#[trigger] owned_bindings()[b]))) ==> blocks.filter(
                keep,
            ).len() == 0
            &&& forall|only: int|
                0 <= only < k && keep(block_for(#[trigger] owned_bindings()[only])) && (forall|
                    b: int,
                |
                    0 <= b < k && b != only ==> !keep(
                        block_for(#[trigger] owned_bindings()[b]),
                    )) ==> blocks.filter(keep).len() == 1
        }),
    decreases k,
{
    let to_block = |binding: BindingView| block_for(binding);
    let blocks = owned_bindings().take(k).map_values(to_block);
    if k == 0 {
        assert(blocks =~= Seq::<Seq<(Seq<char>, SettingView)>>::empty());
        reveal(Seq::filter);
    } else {
        lemma_own_blocks_filtered(keep, k - 1);
        let fewer = owned_bindings().take(k - 1).map_values(to_block);
        assert(blocks =~= fewer.push(block_for(owned_bindings()[k - 1])));
        lemma_filter_push(fewer, keep, block_for(owned_bindings()[k - 1]));
    }
}

/// Installing settles a config: whatever was reviewed without objection has, once
/// the bindings are installed in it, no conflict and every binding exactly once.
pub proof fn law_installed_config_is_settled(
    earlier: ConfigView,
    later: ConfigView,
    verdict: Result<bool, BeaconError>,
)
    requires
        earlier.consistent(),
        reviews(earlier, Ok(earlier.installed())),
        later.keys_are_table,
        later.commands_are_tables,
        later.builtins() == earlier.builtins(),
        later.commands == earlier.extended(),
        reviews(later, verdict),
    ensures
        verdict == Ok::<bool, BeaconError>(true),
{
    assert forall|b: int, i: int| !later.assigned(b, i) by {
        if later.assigned(b, i) {
            lemma_builtin_stays(later, earlier, b, i);
        }
    }
    assert forall|b: int| !later.bound(b) by {
        if later.bound(b) {
            lemma_custom_stays(later, earlier, b);
        }
    }
    lemma_every_binding_once(later, earlier);
}

/// A shortcut that is taken after installing was taken before.
proof fn lemma_custom_stays(later: ConfigView, earlier: ConfigView, b: int)
    requires
        later.commands == earlier.extended(),
        later.bound(b),
    ensures
        earlier.bound(b),
{
    let foreign = |block: Seq<(Seq<char>, SettingView)>| !is_owned(block);
    let i = choose|i: int| 0 <= i < later.commands.len() && #[trigger] later.bound_by(b, i);
    if i < earlier.foreign().len() {
        assert(later.commands[i] == earlier.foreign()[i]);
        let j = crate::seqs::lemma_filter_source(earlier.commands, foreign, i);
        assert(earlier.bound_by(b, j));
    } else {
        let a = i - earlier.foreign().len();
        assert(later.commands[i] == block_for(owned_bindings()[a]));
        lemma_block_texts(owned_bindings()[a]);
        lemma_bindings_agree(a, b);
    }
}

/// After installing, each of Beacon's blocks is there once, and no others of its own.
proof fn lemma_every_binding_once(later: ConfigView, earlier: ConfigView)
    requires
        later.commands == earlier.extended(),
    ensures
        later.installed(),
{
    let owned = |block: Seq<(Seq<char>, SettingView)>| is_owned(block);
    let foreign = |block: Seq<(Seq<char>, SettingView)>| !is_owned(block);
    let own_blocks = owned_bindings().map_values(|binding: BindingView| block_for(binding));
    let count = owned_bindings().len() as int;
    assert(owned_bindings().take(count) =~= owned_bindings());
    assert forall|a: int| 0 <= a < count implies is_owned(
        block_for(#[trigger] owned_bindings()[a]),
    ) by {
        lemma_block_texts(owned_bindings()[a]);
        assert(named_text(block_for(owned_bindings()[a]), "command"@) == Some(
            owned_bindings()[a].command,
        ));
    }
    Seq::filter_distributes_over_add(earlier.foreign(), own_blocks, owned);
    lemma_nothing_kept(earlier.commands, foreign, owned);
    lemma_own_blocks_filtered(owned, count);
    assert(later.commands.filter(owned).len() == count);
    assert forall|b: int| 0 <= b < count implies later.commands.filter(
        |block: Seq<(Seq<char>, SettingView)>| is_desired(block, #[trigger] owned_bindings()[b]),
    ).len() == 1 by {
        lemma_binding_once(later, earlier, b);
    }
}

proof fn lemma_binding_once(later: ConfigView, earlier: ConfigView, b: int)
    requires
        later.commands == earlier.extended(),
        0 <= b < owned_bindings().len(),
    ensures
        later.commands.filter(
            |block: Seq<(Seq<char>, SettingView)>| is_desired(block, owned_bindings()[b]),
        ).len() == 1,
{
    let foreign = |block: Seq<(Seq<char>, SettingView)>| !is_owned(block);
    let own_blocks = owned_bindings().map_values(|binding: BindingView| block_for(binding));
    let count = owned_bindings().len() as int;
    let desired = |block: Seq<(Seq<char>, SettingView)>| is_desired(block, owned_bindings()[b]);
    assert(owned_bindings().take(count) =~= owned_bindings());
    Seq::filter_distributes_over_add(earlier.foreign(), own_blocks, desired);
    assert forall|block: Seq<(Seq<char>, SettingView)>| #[trigger] desired(block) implies !foreign(
        block,
    ) by {
        assert(named_text(block, "command"@) == Some(owned_bindings()[b].command));
    }
    lemma_nothing_kept(earlier.commands, foreign, desired);
    lemma_block_texts(owned_bindings()[b]);
    assert(desired(block_for(owned_bindings()[b])));
    assert forall|a: int| 0 <= a < count && a != b implies !desired(
        block_for(#[trigger] owned_bindings()[a]),
    ) by {
        lemma_block_texts(owned_bindings()[a]);
        lemma_bindings_agree(a, b);
    }
    lemma_own_blocks_filtered(desired, count);
}

/// A built-in setting of the later config is one of the earlier config.
proof fn lemma_builtin_stays(later: ConfigView, earlier: ConfigView, b: int, i: int)
    requires
        later.builtins() == earlier.builtins(),
        later.assigned(b, i),
        earlier.keys_are_table || earlier.settings.len() == 0,
    ensures
        exists|j: int| earlier.assigned(b, j),
{
    let builtin = |entry: (Seq<char>, SettingView)| entry.0 != "command"@;
    crate::seqs::lemma_filter_members(later.settings, builtin, later.settings[i]);
    crate::seqs::lemma_filter_members(earlier.settings, builtin, later.settings[i]);
    let j = choose|j: int|
        0 <= j < earlier.settings.len() && earlier.settings[j] == later.settings[i];
    assert(earlier.assigned(b, j));
}

/// A filter that contradicts an earlier one keeps nothing.
proof fn lemma_nothing_kept<A>(items: Seq<A>, first: spec_fn(A) -> bool, second: spec_fn(A) -> bool)
    requires
        forall|item: A| #[trigger] second(item) ==> !first(item),
    ensures
        items.filter(first).filter(second).len() == 0,
{
    let kept = items.filter(first).filter(second);
    if kept.len() > 0 {
        let i = crate::seqs::lemma_filter_source(items.filter(first), second, 0);
        let j = crate::seqs::lemma_filter_source(items, first, i);
        assert(second(items[j]));
    }
}

/// The first value of a block under the name is the text.
pub open spec fn says(
    block: Seq<(Seq<char>, SettingView)>,
    name: Seq<char>,
    text: Seq<char>,
) -> bool {
    exists|i: int|
        0 <= i < block.len() && #[trigger] block[i] == (name, SettingView::Text(text)) && forall|
            j: int,
        |
            0 <= j < i ==> (#[trigger] block[j]).0 != name
}

/// The command of a block is one of Beacon's actions.
pub open spec fn runs_beacon(block: Seq<(Seq<char>, SettingView)>) -> bool {
    ||| says(block, "command"@, "shadowfax.beacon.jump-unread"@)
    ||| says(block, "command"@, "shadowfax.beacon.jump-working"@)
    ||| says(block, "command"@, "shadowfax.beacon.jump-recent"@)
    ||| says(block, "command"@, "shadowfax.beacon.jump-recent-reverse"@)
}

/// A block of four texts that ties a key to a plugin action.
pub open spec fn ties(
    key: Seq<char>,
    command: Seq<char>,
    description: Seq<char>,
) -> Seq<(Seq<char>, SettingView)> {
    seq![
        ("key"@, SettingView::Text(key)),
        ("type"@, SettingView::Text("plugin_action"@)),
        ("command"@, SettingView::Text(command)),
        ("description"@, SettingView::Text(description)),
    ]
}

/// A named value is that of the first entry with the name.
proof fn lemma_first_value(block: Seq<(Seq<char>, SettingView)>, name: Seq<char>) -> (i: int)
    ensures
        0 <= i <= block.len(),
        forall|j: int| 0 <= j < i ==> (#[trigger] block[j]).0 != name,
        i < block.len() ==> block[i].0 == name && value_of(block, name) == Some(block[i].1),
        i == block.len() ==> value_of(block, name) is None,
    decreases block.len(),
{
    if block.len() == 0 || block[0].0 == name {
        0
    } else {
        let i = lemma_first_value(block.drop_first(), name);
        assert forall|j: int| 0 <= j < i + 1 implies (#[trigger] block[j]).0 != name by {
            if j > 0 {
                assert(block.drop_first()[j - 1] == block[j]);
            }
        }
        i + 1
    }
}

/// What the named text of a block is.
proof fn lemma_says(block: Seq<(Seq<char>, SettingView)>, name: Seq<char>, text: Seq<char>)
    ensures
        says(block, name, text) <==> named_text(block, name) == Some(text),
{
    let i = lemma_first_value(block, name);
    if says(block, name, text) {
        let k = choose|k: int|
            0 <= k < block.len() && #[trigger] block[k] == (name, SettingView::Text(text))
                && forall|j: int| 0 <= j < k ==> (#[trigger] block[j]).0 != name;
        if k < i {
            assert(block[k].0 != name);
        } else if i < k {
            assert(block[i].0 != name);
        }
    }
    if named_text(block, name) == Some(text) {
        assert(block[i] == (name, SettingView::Text(text)));
    }
}

/// A block is one of Beacon's exactly if its command is.
proof fn lemma_runs_beacon(block: Seq<(Seq<char>, SettingView)>)
    ensures
        runs_beacon(block) <==> is_owned(block),
{
    lemma_says(block, "command"@, "shadowfax.beacon.jump-unread"@);
    lemma_says(block, "command"@, "shadowfax.beacon.jump-working"@);
    lemma_says(block, "command"@, "shadowfax.beacon.jump-recent"@);
    lemma_says(block, "command"@, "shadowfax.beacon.jump-recent-reverse"@);
    let all = owned_bindings();
    assert(all[0].command == "shadowfax.beacon.jump-unread"@);
    assert(all[1].command == "shadowfax.beacon.jump-working"@);
    assert(all[2].command == "shadowfax.beacon.jump-recent"@);
    assert(all[3].command == "shadowfax.beacon.jump-recent-reverse"@);
    assert(all[4].command == "shadowfax.beacon.jump-recent-reverse"@);
}

/// The commands after installation are the earlier ones whose command text is none of
/// Beacon's actions, each of them whatever else it says and in its order, followed by
/// one block for each of Beacon's five shortcuts.
pub proof fn law_foreign_commands_are_kept(earlier: ConfigView)
    ensures
        earlier.extended() == earlier.commands.filter(
            |block: Seq<(Seq<char>, SettingView)>|
                !says(block, "command"@, "shadowfax.beacon.jump-unread"@) && !says(
                    block,
                    "command"@,
                    "shadowfax.beacon.jump-working"@,
                ) && !says(block, "command"@, "shadowfax.beacon.jump-recent"@) && !says(
                    block,
                    "command"@,
                    "shadowfax.beacon.jump-recent-reverse"@,
                ),
        ) + seq![
            ties(
                "alt+u"@,
                "shadowfax.beacon.jump-unread"@,
                "Cycle through unread or blocked agents"@,
            ),
            ties(
                "alt+o"@,
                "shadowfax.beacon.jump-working"@,
                "Cycle through working or blocked agents"@,
            ),
            ties(
                "alt+quote"@,
                "shadowfax.beacon.jump-recent"@,
                "Cycle through idle, done, or unknown agents by recent activity"@,
            ),
            ties(
                "alt+shift+quote"@,
                "shadowfax.beacon.jump-recent-reverse"@,
                "Cycle backward through idle, done, or unknown agents by recent activity"@,
            ),
            ties(
                "alt+double_quote"@,
                "shadowfax.beacon.jump-recent-reverse"@,
                "Cycle backward through idle, done, or unknown agents by recent activity"@,
            ),
        ],
{
    let keep = |block: Seq<(Seq<char>, SettingView)>|
        !says(block, "command"@, "shadowfax.beacon.jump-unread"@) && !says(
            block,
            "command"@,
            "shadowfax.beacon.jump-working"@,
        ) && !says(block, "command"@, "shadowfax.beacon.jump-recent"@) && !says(
            block,
            "command"@,
            "shadowfax.beacon.jump-recent-reverse"@,
        );
    let foreign = |block: Seq<(Seq<char>, SettingView)>| !is_owned(block);
    assert forall|block: Seq<(Seq<char>, SettingView)>| #[trigger] keep(block) == foreign(
        block,
    ) by {
        lemma_runs_beacon(block);
    }
    assert(keep =~= foreign);
    let own = owned_bindings().map_values(|binding: BindingView| block_for(binding));
    assert(own =~= seq![
        ties(
            "alt+u"@,
            "shadowfax.beacon.jump-unread"@,
            "Cycle through unread or blocked agents"@,
        ),
        ties(
            "alt+o"@,
            "shadowfax.beacon.jump-working"@,
            "Cycle through working or blocked agents"@,
        ),
        ties(
            "alt+quote"@,
            "shadowfax.beacon.jump-recent"@,
            "Cycle through idle, done, or unknown agents by recent activity"@,
        ),
        ties(
            "alt+shift+quote"@,
            "shadowfax.beacon.jump-recent-reverse"@,
            "Cycle backward through idle, done, or unknown agents by recent activity"@,
        ),
        ties(
            "alt+double_quote"@,
            "shadowfax.beacon.jump-recent-reverse"@,
            "Cycle backward through idle, done, or unknown agents by recent activity"@,
        ),
    ]);
}

/// The first value of a block under `key` binds the given key.
pub open spec fn takes(block: Seq<(Seq<char>, SettingView)>, key: Seq<char>) -> bool {
    exists|i: int|
        0 <= i < block.len() && (#[trigger] block[i]).0 == "key"@ && uses_key(block[i].1, key)
            && forall|j: int| 0 <= j < i ==> (#[trigger] block[j]).0 != "key"@
}

/// A custom command has a key of Beacon's that goes to another action.
pub open spec fn intrudes(block: Seq<(Seq<char>, SettingView)>) -> bool {
    ||| takes(block, "alt+u"@) && !says(block, "command"@, "shadowfax.beacon.jump-unread"@)
    ||| takes(block, "alt+o"@) && !says(block, "command"@, "shadowfax.beacon.jump-working"@)
    ||| takes(block, "alt+quote"@) && !says(block, "command"@, "shadowfax.beacon.jump-recent"@)
    ||| takes(block, "alt+shift+quote"@) && !says(
        block,
        "command"@,
        "shadowfax.beacon.jump-recent-reverse"@,
    )
    ||| takes(block, "alt+double_quote"@) && !says(
        block,
        "command"@,
        "shadowfax.beacon.jump-recent-reverse"@,
    )
}

/// A value binds one of Beacon's keys.
pub open spec fn uses_own_key(value: SettingView) -> bool {
    ||| uses_key(value, "alt+u"@)
    ||| uses_key(value, "alt+o"@)
    ||| uses_key(value, "alt+quote"@)
    ||| uses_key(value, "alt+shift+quote"@)
    ||| uses_key(value, "alt+double_quote"@)
}

/// A block has exactly four entries, and they say what Beacon's block for the key says.
pub open spec fn is_tied(
    block: Seq<(Seq<char>, SettingView)>,
    key: Seq<char>,
    command: Seq<char>,
    description: Seq<char>,
) -> bool {
    &&& block.len() == 4
    &&& says(block, "key"@, key)
    &&& says(block, "type"@, "plugin_action"@)
    &&& says(block, "command"@, command)
    &&& says(block, "description"@, description)
}

/// How many blocks are the one that ties the key to the command.
pub open spec fn ties_among(
    blocks: Seq<Seq<(Seq<char>, SettingView)>>,
    key: Seq<char>,
    command: Seq<char>,
    description: Seq<char>,
) -> nat {
    blocks.filter(
        |block: Seq<(Seq<char>, SettingView)>| is_tied(block, key, command, description),
    ).len()
}

proof fn lemma_intrudes(config: ConfigView, i: int)
    requires
        0 <= i < config.commands.len(),
    ensures
        intrudes(config.commands[i]) <==> exists|b: int|
            0 <= b < owned_bindings().len() && #[trigger] config.bound_by(b, i),
        forall|b: int|
            #![trigger config.bound_by(b, i)]
            0 <= b < owned_bindings().len() ==> (config.bound_by(b, i) <==> takes(
                config.commands[i],
                owned_bindings()[b].key,
            ) && !says(config.commands[i], "command"@, owned_bindings()[b].command)),
{
    let block = config.commands[i];
    let at = lemma_first_value(block, "key"@);
    assert forall|b: int|
        #![trigger config.bound_by(b, i)]
        0 <= b < owned_bindings().len() implies (config.bound_by(b, i) <==> takes(
        block,
        owned_bindings()[b].key,
    ) && !says(block, "command"@, owned_bindings()[b].command)) by {
        let key = owned_bindings()[b].key;
        lemma_says(block, "command"@, owned_bindings()[b].command);
        if takes(block, key) {
            let k = choose|k: int|
                0 <= k < block.len() && (#[trigger] block[k]).0 == "key"@ && uses_key(
                    block[k].1,
                    key,
                ) && forall|j: int| 0 <= j < k ==> (#[trigger] block[j]).0 != "key"@;
            if at < k {
                assert(block[at].0 != "key"@);
            } else if k < at {
                assert(block[k].0 != "key"@);
            }
        }
        if config.bound_by(b, i) {
            assert(block[at].0 == "key"@);
        }
    }
    let all = owned_bindings();
    assert(all[0].key == "alt+u"@ && all[1].key == "alt+o"@ && all[2].key == "alt+quote"@);
    assert(all[3].key == "alt+shift+quote"@ && all[4].key == "alt+double_quote"@);
    assert(config.bound_by(0, i) == (takes(block, "alt+u"@) && !says(
        block,
        "command"@,
        "shadowfax.beacon.jump-unread"@,
    )));
    assert(config.bound_by(1, i) == (takes(block, "alt+o"@) && !says(
        block,
        "command"@,
        "shadowfax.beacon.jump-working"@,
    )));
    assert(config.bound_by(2, i) == (takes(block, "alt+quote"@) && !says(
        block,
        "command"@,
        "shadowfax.beacon.jump-recent"@,
    )));
    assert(config.bound_by(3, i) == (takes(block, "alt+shift+quote"@) && !says(
        block,
        "command"@,
        "shadowfax.beacon.jump-recent-reverse"@,
    )));
    assert(config.bound_by(4, i) == (takes(block, "alt+double_quote"@) && !says(
        block,
        "command"@,
        "shadowfax.beacon.jump-recent-reverse"@,
    )));
}

proof fn lemma_uses_own_key(config: ConfigView, i: int)
    requires
        config.keys_are_table,
        0 <= i < config.settings.len(),
        config.settings[i].0 != "command"@,
    ensures
        uses_own_key(config.settings[i].1) <==> exists|b: int| #[trigger] config.assigned(b, i),
{
    let all = owned_bindings();
    assert(all[0].key == "alt+u"@ && all[1].key == "alt+o"@ && all[2].key == "alt+quote"@);
    assert(all[3].key == "alt+shift+quote"@ && all[4].key == "alt+double_quote"@);
    let value = config.settings[i].1;
    assert(config.assigned(0, i) == uses_key(value, "alt+u"@));
    assert(config.assigned(1, i) == uses_key(value, "alt+o"@));
    assert(config.assigned(2, i) == uses_key(value, "alt+quote"@));
    assert(config.assigned(3, i) == uses_key(value, "alt+shift+quote"@));
    assert(config.assigned(4, i) == uses_key(value, "alt+double_quote"@));
}

/// A config is refused exactly if a setting other than the custom commands binds one of
/// Beacon's keys, if what is under `keys` or `keys.command` has the wrong form, or if a
/// custom command has one of the keys and goes elsewhere, in this order.
pub proof fn law_review_refuses_exactly_conflicts(
    config: ConfigView,
    verdict: Result<bool, BeaconError>,
)
    requires
        reviews(config, verdict),
    ensures
        ({
            let assigned = config.keys_are_table && exists|i: int|
                0 <= i < config.settings.len() && (#[trigger] config.settings[i]).0 != "command"@
                    && uses_own_key(config.settings[i].1);
            let keys_misshapen = config.has_keys && !config.keys_are_table;
            let commands_misshapen = config.has_command && !config.commands_are_tables;
            let bound = exists|i: int|
                0 <= i < config.commands.len() && intrudes(#[trigger] config.commands[i]);
            &&& (verdict matches Err(BeaconError::KeyAssigned { .. })) <==> assigned
            &&& (verdict matches Err(BeaconError::KeysNotTable)) <==> !assigned && keys_misshapen
            &&& (verdict matches Err(BeaconError::CommandsNotTables)) <==> !assigned
                && !keys_misshapen && commands_misshapen
            &&& (verdict matches Err(BeaconError::KeyBound(_))) <==> !assigned && !keys_misshapen
                && !commands_misshapen && bound
            &&& verdict is Ok <==> !assigned && !keys_misshapen && !commands_misshapen && !bound
        }),
        verdict matches Err(BeaconError::KeyAssigned { key, action }) ==> exists|i: int|
            0 <= i < config.settings.len() && (#[trigger] config.settings[i]).0 == action@
                && action@ != "command"@ && uses_key(config.settings[i].1, key@),
        verdict matches Err(BeaconError::KeyBound(key)) ==> exists|i: int|
            0 <= i < config.commands.len() && intrudes(#[trigger] config.commands[i]) && takes(
                config.commands[i],
                key@,
            ),
{
    let assigned = config.keys_are_table && exists|i: int|
        0 <= i < config.settings.len() && (#[trigger] config.settings[i]).0 != "command"@
            && uses_own_key(config.settings[i].1);
    if assigned {
        let i = choose|i: int|
            0 <= i < config.settings.len() && (#[trigger] config.settings[i]).0 != "command"@
                && uses_own_key(config.settings[i].1);
        lemma_uses_own_key(config, i);
        let b = choose|b: int| #[trigger] config.assigned(b, i);
        assert(config.assigned(b, i));
    }
    if exists|b: int, i: int| config.assigned(b, i) {
        let (b, i) = choose|b: int, i: int| config.assigned(b, i);
        assert(config.assigned(b, i));
        lemma_uses_own_key(config, i);
        assert(assigned);
    }
    let bound = exists|i: int|
        0 <= i < config.commands.len() && intrudes(#[trigger] config.commands[i]);
    if bound {
        let i = choose|i: int|
            0 <= i < config.commands.len() && intrudes(#[trigger] config.commands[i]);
        lemma_intrudes(config, i);
        let b = choose|b: int|
            0 <= b < owned_bindings().len() && #[trigger] config.bound_by(b, i);
        assert(config.bound(b));
    }
    assert forall|b: int| #[trigger] config.bound(b) implies exists|i: int|
        0 <= i < config.commands.len() && intrudes(#[trigger] config.commands[i]) && takes(
            config.commands[i],
            owned_bindings()[b].key,
        ) by {
        let i = choose|i: int| 0 <= i < config.commands.len() && #[trigger] config.bound_by(b, i);
        lemma_intrudes(config, i);
        assert(intrudes(config.commands[i]));
    }
}

/// The bindings count as installed exactly if five custom commands run Beacon and each
/// of the five blocks is there once.
pub proof fn law_installed_means_each_block_once(config: ConfigView)
    ensures
        config.installed() <==> {
            &&& config.commands.filter(
                |block: Seq<(Seq<char>, SettingView)>| runs_beacon(block),
            ).len() == 5
            &&& ties_among(
                config.commands,
                "alt+u"@,
                "shadowfax.beacon.jump-unread"@,
                "Cycle through unread or blocked agents"@,
            ) == 1
            &&& ties_among(
                config.commands,
                "alt+o"@,
                "shadowfax.beacon.jump-working"@,
                "Cycle through working or blocked agents"@,
            ) == 1
            &&& ties_among(
                config.commands,
                "alt+quote"@,
                "shadowfax.beacon.jump-recent"@,
                "Cycle through idle, done, or unknown agents by recent activity"@,
            ) == 1
            &&& ties_among(
                config.commands,
                "alt+shift+quote"@,
                "shadowfax.beacon.jump-recent-reverse"@,
                "Cycle backward through idle, done, or unknown agents by recent activity"@,
            ) == 1
            &&& ties_among(
                config.commands,
                "alt+double_quote"@,
                "shadowfax.beacon.jump-recent-reverse"@,
                "Cycle backward through idle, done, or unknown agents by recent activity"@,
            ) == 1
        },
{
    let all = owned_bindings();
    let runs = |block: Seq<(Seq<char>, SettingView)>| runs_beacon(block);
    let owned = |block: Seq<(Seq<char>, SettingView)>| is_owned(block);
    assert forall|block: Seq<(Seq<char>, SettingView)>| #[trigger] runs(block) == owned(block) by {
        lemma_runs_beacon(block);
    }
    assert(runs =~= owned);
    assert forall|b: int| 0 <= b < all.len() implies config.commands.filter(
        |block: Seq<(Seq<char>, SettingView)>| is_desired(block, #[trigger] owned_bindings()[b]),
    ).len() == ties_among(config.commands, all[b].key, all[b].command, all[b].description) by {
        lemma_ties(config.commands, all[b]);
    }
    assert(all[0] == owned_bindings()[0] && all[1] == owned_bindings()[1]);
    assert(all[2] == owned_bindings()[2] && all[3] == owned_bindings()[3]);
    assert(all[4] == owned_bindings()[4]);
    lemma_ties(config.commands, all[0]);
    lemma_ties(config.commands, all[1]);
    lemma_ties(config.commands, all[2]);
    lemma_ties(config.commands, all[3]);
    lemma_ties(config.commands, all[4]);
}

proof fn lemma_ties(blocks: Seq<Seq<(Seq<char>, SettingView)>>, binding: BindingView)
    ensures
        blocks.filter(
            |block: Seq<(Seq<char>, SettingView)>| is_desired(block, binding),
        ).len() == ties_among(blocks, binding.key, binding.command, binding.description),
{
    let desired = |block: Seq<(Seq<char>, SettingView)>| is_desired(block, binding);
    let tied = |block: Seq<(Seq<char>, SettingView)>|
        is_tied(block, binding.key, binding.command, binding.description);
    assert forall|block: Seq<(Seq<char>, SettingView)>| #[trigger] desired(block) == tied(
        block,
    ) by {
        lemma_says(block, "key"@, binding.key);
        lemma_says(block, "type"@, "plugin_action"@);
        lemma_says(block, "command"@, binding.command);
        lemma_says(block, "description"@, binding.description);
    }
    assert(desired =~= tied);
}

/// A value binds a key exactly if it is a text that spells the same shortcut as the
/// key, or a list with such a text in it.
pub proof fn law_every_alias_binds(value: SettingView, key: Seq<char>)
    ensures
        uses_key(value, key) <==> exists|text: Seq<char>|
            #![trigger crate::chord::shortcut(text)]
            {
                &&& value == SettingView::Text(text) || (value matches SettingView::List(items)
                    && items.contains(Some(text)))
                &&& crate::chord::shortcut(text) is Some
                &&& crate::chord::shortcut(text) == crate::chord::shortcut(key)
            },
{
    match value {
        SettingView::Text(text) => {
            assert(crate::chord::shortcut(text) == crate::chord::shortcut(text));
        },
        SettingView::List(items) => {
            if uses_key(value, key) {
                let i = choose|i: int|
                    0 <= i < items.len() && (#[trigger] items[i] matches Some(text)
                        && crate::chord::matches_key(text, key));
                let text = items[i]->0;
                assert(items.contains(Some(text)));
                assert(crate::chord::shortcut(text) is Some);
            }
        },
        SettingView::Other => {},
    }
}

/// A block that ties a key to a command says so.
pub proof fn lemma_tied_commands()
    ensures
        forall|key: Seq<char>, command: Seq<char>, description: Seq<char>|
            says(#[trigger] ties(key, command, description), "command"@, command),
{
    assert forall|key: Seq<char>, command: Seq<char>, description: Seq<char>| says(
        #[trigger] ties(key, command, description),
        "command"@,
        command,
    ) by {
        let binding = BindingView { key, command, description };
        assert(ties(key, command, description) =~= block_for(binding));
        lemma_block_texts(binding);
        lemma_says(block_for(binding), "command"@, command);
    }
}

/// A setting other than the custom commands binds the key.
pub open spec fn is_taken(config: ConfigView, key: Seq<char>) -> bool {
    exists|i: int|
        0 <= i < config.settings.len() && (#[trigger] config.settings[i]).0 != "command"@
            && uses_key(config.settings[i].1, key)
}

/// A custom command has the key and another command text than the given one.
pub open spec fn is_claimed(config: ConfigView, key: Seq<char>, command: Seq<char>) -> bool {
    exists|i: int|
        0 <= i < config.commands.len() && takes(#[trigger] config.commands[i], key) && !says(
            config.commands[i],
            "command"@,
            command,
        )
}

/// Of several conflicts the first is reported: the first of Beacon's keys that a setting
/// binds, and the first setting that binds it; or the first of the keys that a custom
/// command claims.
pub proof fn law_first_conflict_is_reported(config: ConfigView, verdict: Result<bool, BeaconError>)
    requires
        reviews(config, verdict),
    ensures
        verdict matches Err(BeaconError::KeyAssigned { key, action }) ==> {
            &&& key@ == if is_taken(config, "alt+u"@) {
                "alt+u"@
            } else if is_taken(config, "alt+o"@) {
                "alt+o"@
            } else if is_taken(config, "alt+quote"@) {
                "alt+quote"@
            } else if is_taken(config, "alt+shift+quote"@) {
                "alt+shift+quote"@
            } else {
                "alt+double_quote"@
            }
            &&& exists|i: int|
                {
                    &&& 0 <= i < config.settings.len()
                    &&& (#[trigger] config.settings[i]).0 == action@
                    &&& uses_key(config.settings[i].1, key@)
                    &&& forall|j: int|
                        0 <= j < i && (#[trigger] config.settings[j]).0 != "command"@ ==> !uses_key(
                            config.settings[j].1,
                            key@,
                        )
                }
        },
        verdict matches Err(BeaconError::KeyBound(key)) ==> key@ == if is_claimed(
            config,
            "alt+u"@,
            "shadowfax.beacon.jump-unread"@,
        ) {
            "alt+u"@
        } else if is_claimed(config, "alt+o"@, "shadowfax.beacon.jump-working"@) {
            "alt+o"@
        } else if is_claimed(config, "alt+quote"@, "shadowfax.beacon.jump-recent"@) {
            "alt+quote"@
        } else if is_claimed(
            config,
            "alt+shift+quote"@,
            "shadowfax.beacon.jump-recent-reverse"@,
        ) {
            "alt+shift+quote"@
        } else {
            "alt+double_quote"@
        },
{
    let all = owned_bindings();
    assert(all[0].key == "alt+u"@ && all[1].key == "alt+o"@ && all[2].key == "alt+quote"@);
    assert(all[3].key == "alt+shift+quote"@ && all[4].key == "alt+double_quote"@);
    if let Err(BeaconError::KeyAssigned { key, action }) = verdict {
        let (b, i) = choose|b: int, i: int| #[trigger]
            config.first_assigned(b, i) && key@ == owned_bindings()[b].key && action@
                == config.settings[i].0;
        assert(config.assigned(b, i));
        assert forall|c: int| 0 <= c < b implies !is_taken(
            config,
            (#[trigger] owned_bindings()[c]).key,
        ) by {
            if is_taken(config, owned_bindings()[c].key) {
                let k = choose|k: int|
                    0 <= k < config.settings.len() && (#[trigger] config.settings[k]).0
                        != "command"@ && uses_key(
                        config.settings[k].1,
                        owned_bindings()[c].key,
                    );
                assert(config.assigned(c, k));
            }
        }
        assert(is_taken(config, owned_bindings()[b].key)) by {
            assert(config.settings[i].0 != "command"@);
        }
        assert forall|j: int| 0 <= j < i && (#[trigger] config.settings[j]).0
            != "command"@ implies !uses_key(config.settings[j].1, key@) by {
            if uses_key(config.settings[j].1, key@) {
                assert(config.assigned(b, j));
            }
        }
        assert(config.settings[i].0 == action@);
    }
    if let Err(BeaconError::KeyBound(key)) = verdict {
        let b = choose|b: int| #[trigger]
            config.bound(b) && key@ == owned_bindings()[b].key && forall|b2: int| #[trigger]
                config.bound(b2) ==> b <= b2;
        assert(config.bound(b));
        assert forall|c: int| 0 <= c < all.len() implies #[trigger] config.bound(c)
            == is_claimed(config, owned_bindings()[c].key, owned_bindings()[c].command) by {
            if config.bound(c) {
                let i = choose|i: int|
                    0 <= i < config.commands.len() && #[trigger] config.bound_by(c, i);
                lemma_intrudes(config, i);
                assert(takes(config.commands[i], owned_bindings()[c].key));
            }
            if is_claimed(config, owned_bindings()[c].key, owned_bindings()[c].command) {
                let i = choose|i: int|
                    0 <= i < config.commands.len() && takes(
                        #[trigger] config.commands[i],
                        owned_bindings()[c].key,
                    ) && !says(
                        config.commands[i],
                        "command"@,
                        owned_bindings()[c].command,
                    );
                lemma_intrudes(config, i);
                assert(config.bound_by(c, i));
            }
        }
        assert(config.bound(0) == is_claimed(
            config,
            "alt+u"@,
            "shadowfax.beacon.jump-unread"@,
        ));
        assert(config.bound(1) == is_claimed(
            config,
            "alt+o"@,
            "shadowfax.beacon.jump-working"@,
        ));
        assert(config.bound(2) == is_claimed(
            config,
            "alt+quote"@,
            "shadowfax.beacon.jump-recent"@,
        ));
        assert(config.bound(3) == is_claimed(
            config,
            "alt+shift+quote"@,
            "shadowfax.beacon.jump-recent-reverse"@,
        ));
    }
}

} // verus!
