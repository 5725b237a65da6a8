//! Installing the bindings into the text of a Herdr config.

use vstd::prelude::*;
use toml_edit::{DocumentMut, Item, Table};
use crate::error::BeaconError;
use crate::herdr::HerdrClient;
use crate::keybindings::{
    bindings, owns, review, Binding, BindingView, Block, Config, ConfigView, Setting, SettingView,
};
use crate::text::same;

verus! {

/// A TOML document that keeps its formatting.
#[verifier::external_type_specification]
#[verifier::external_body]
pub struct ExDocumentMut(toml_edit::DocumentMut);

/// A table of a TOML document.
#[verifier::external_type_specification]
#[verifier::external_body]
pub struct ExTable(toml_edit::Table);

/// A value, table or array of tables of a TOML document.
#[verifier::external_type_specification]
#[verifier::external_body]
pub struct ExItem(toml_edit::Item);

/// The document that `toml_edit` reads from a text, if the text is TOML.
pub uninterp spec fn toml_document(text: Seq<char>) -> Option<DocumentMut>;

/// The text that `toml_edit` writes for a document.
pub uninterp spec fn toml_text(document: DocumentMut) -> Seq<char>;

/// What a document says of keys.
pub uninterp spec fn config_held(document: DocumentMut) -> ConfigView;

/// What a document holds under each name other than `keys`.
pub uninterp spec fn held_elsewhere(document: DocumentMut) -> Map<Seq<char>, Item>;

/// The document with an empty table under `keys`.
pub uninterp spec fn with_keys(document: DocumentMut) -> DocumentMut;

/// The document with an empty array of tables under `keys.command`.
pub uninterp spec fn with_commands(document: DocumentMut) -> DocumentMut;

/// The document without the custom commands that are Beacon's.
pub uninterp spec fn without_owned(document: DocumentMut) -> DocumentMut;

/// The document with one more custom command.
pub uninterp spec fn with_command(
    document: DocumentMut,
    block: Seq<(Seq<char>, Seq<char>)>,
) -> DocumentMut;

/// Why `toml_edit` reads no document from a text, in its words.
pub uninterp spec fn toml_fault(text: Seq<char>) -> Seq<char>;

/// `str::parse` into a `toml_edit::DocumentMut`: the text decides whether there is
/// a document, and which one, or why there is none.
#[verifier::external_body]
fn parse_document(text: &str) -> (document: Result<DocumentMut, String>)
    ensures
        match document {
            Ok(document) => toml_document(text@) == Some(document),
            Err(fault) => toml_document(text@) is None && fault@ == toml_fault(text@),
        },
{
    text.parse::<DocumentMut>().map_err(|error| error.to_string())
}

/// `toml_edit::DocumentMut::new`: an empty document. It says nothing of keys, holds
/// nothing else, and has no text.
#[verifier::external_body]
fn new_document() -> (document: DocumentMut)
    ensures
        config_held(document) == nothing(),
        held_elsewhere(document) == no_items(),
        toml_text(document) == Seq::<char>::empty(),
{
    DocumentMut::new()
}

/// `toml_edit::DocumentMut::to_string`: the document decides its text.
///
/// Nothing is said of reading the text back. Tables are written in the order of their
/// places in the source, so one that stood apart from its parent there can come out
/// under another table.
#[verifier::external_body]
fn document_text(document: &DocumentMut) -> (text: String)
    ensures
        text@ == toml_text(*document),
{
    document.to_string()
}

/// A `toml_edit::Item` as plain data.
#[verifier::external_body]
fn setting_of(item: &Item) -> Setting {
    match (item.as_str(), item.as_array()) {
        (Some(text), _) => Setting::Text(text.to_owned()),
        (None, Some(items)) => Setting::List(
            items.iter().map(|item| item.as_str().map(str::to_owned)).collect(),
        ),
        (None, None) => Setting::Other,
    }
}

/// A `toml_edit::Table` as plain data, entry by entry in its order.
#[verifier::external_body]
fn block_of(table: &Table) -> Block {
    let entries = table.iter().map(|(name, item)| (name.to_owned(), setting_of(item)));
    Block { entries: entries.collect() }
}

/// `toml_edit::Table::get`, `Item::as_table` and `Item::as_array_of_tables` on
/// `keys` and `keys.command`: the document decides what it says of keys. What is not
/// there is no table and holds nothing.
#[verifier::external_body]
fn inspect(document: &DocumentMut) -> (config: Config)
    ensures
        config@ == config_held(*document),
        config@.consistent(),
{
    let keys = document.get("keys");
    let table = keys.and_then(Item::as_table);
    let command = table.and_then(|table| table.get("command"));
    let tables = command.and_then(Item::as_array_of_tables);
    let settings = table.map(block_of).map(|block| block.entries);
    Config {
        has_keys: keys.is_some(),
        keys_are_table: table.is_some(),
        settings: Block { entries: settings.unwrap_or_default() },
        has_command: command.is_some(),
        commands_are_tables: tables.is_some(),
        commands: tables.map(|tables| tables.iter().map(block_of).collect()).unwrap_or_default(),
    }
}

/// `toml_edit::Table::insert` of an empty table under `keys`. It holds nothing, and
/// nothing outside it changes.
#[verifier::external_body]
fn insert_keys(document: &mut DocumentMut)
    requires
        !config_held(*old(document)).has_keys,
    ensures
        *final(document) == with_keys(*old(document)),
        held_elsewhere(*final(document)) == held_elsewhere(*old(document)),
        config_held(*final(document)) == (ConfigView {
            has_keys: true,
            keys_are_table: true,
            ..nothing()
        }),
{
    document.as_table_mut().insert("keys", Item::Table(Table::new()));
}

/// `toml_edit::Table::insert` of an empty array of tables under `keys.command`. The
/// other settings stay as they are, and so does what lies outside `keys`.
#[verifier::external_body]
fn insert_commands(document: &mut DocumentMut)
    requires
        config_held(*old(document)).keys_are_table,
        !config_held(*old(document)).has_command,
    ensures
        *final(document) == with_commands(*old(document)),
        held_elsewhere(*final(document)) == held_elsewhere(*old(document)),
        config_held(*final(document)).has_keys,
        config_held(*final(document)).keys_are_table,
        config_held(*final(document)).has_command,
        config_held(*final(document)).commands_are_tables,
        config_held(*final(document)).commands.len() == 0,
        config_held(*final(document)).builtins() == config_held(*old(document)).builtins(),
{
    let commands = Item::ArrayOfTables(toml_edit::ArrayOfTables::new());
    document["keys"].as_table_mut().unwrap().insert("command", commands);
}

/// `toml_edit::ArrayOfTables::retain` on `keys.command`: the tables that are
/// Beacon's go, the others stay in their order. Nothing outside `keys` changes.
#[verifier::external_body]
fn drop_owned(document: &mut DocumentMut)
    requires
        config_held(*old(document)).keys_are_table,
        config_held(*old(document)).commands_are_tables,
    ensures
        *final(document) == without_owned(*old(document)),
        held_elsewhere(*final(document)) == held_elsewhere(*old(document)),
        config_held(*final(document)).has_keys,
        config_held(*final(document)).keys_are_table,
        config_held(*final(document)).has_command,
        config_held(*final(document)).commands_are_tables,
        config_held(*final(document)).commands == config_held(*old(document)).foreign(),
        config_held(*final(document)).builtins() == config_held(*old(document)).builtins(),
{
    let commands = document["keys"]["command"].as_array_of_tables_mut().unwrap();
    commands.retain(|table| !owns(&block_of(table)));
}

/// `toml_edit::ArrayOfTables::push` on `keys.command` of a table with the given
/// texts, which comes last. The table holds its entries in their order. Nothing
/// outside `keys` changes.
#[verifier::external_body]
fn push_command(document: &mut DocumentMut, block: &Vec<(&'static str, &'static str)>)
    requires
        config_held(*old(document)).keys_are_table,
        config_held(*old(document)).commands_are_tables,
        forall|i: int, j: int|
            0 <= i < j < block@.len() ==> (#[trigger] block@[i]).0@ != (#[trigger] block@[j]).0@,
    ensures
        *final(document) == with_command(*old(document), block_texts(block@)),
        held_elsewhere(*final(document)) == held_elsewhere(*old(document)),
        config_held(*final(document)).has_keys,
        config_held(*final(document)).keys_are_table,
        config_held(*final(document)).has_command,
        config_held(*final(document)).commands_are_tables,
        config_held(*final(document)).commands == config_held(*old(document)).commands.push(
            block_texts(block@).map_values(
                |entry: (Seq<char>, Seq<char>)| (entry.0, SettingView::Text(entry.1)),
            ),
        ),
        config_held(*final(document)).builtins() == config_held(*old(document)).builtins(),
{
    let table = block.iter().map(|(name, text)| (*name, toml_edit::value(*text))).collect();
    document["keys"]["command"].as_array_of_tables_mut().unwrap().push(table);
}

/// The texts of a block.
pub open spec fn block_texts(block: Seq<(&'static str, &'static str)>) -> Seq<
    (Seq<char>, Seq<char>),
> {
    block.map_values(|entry: (&'static str, &'static str)| (entry.0@, entry.1@))
}

/// No items under any name.
pub open spec fn no_items() -> Map<Seq<char>, Item> {
    Map::empty()
}

/// A config that says nothing of keys.
pub open spec fn nothing() -> ConfigView {
    ConfigView {
        has_keys: false,
        keys_are_table: false,
        settings: Seq::empty(),
        has_command: false,
        commands_are_tables: false,
        commands: Seq::empty(),
    }
}

/// The texts of the block that a binding installs.
pub open spec fn texts_for(binding: BindingView) -> Seq<(Seq<char>, Seq<char>)> {
    seq![
        ("key"@, binding.key),
        ("type"@, "plugin_action"@),
        ("command"@, binding.command),
        ("description"@, binding.description),
    ]
}

/// The document with the blocks of the bindings as its last custom commands.
pub open spec fn with_bindings(document: DocumentMut, bindings: Seq<BindingView>) -> DocumentMut
    decreases bindings.len(),
{
    if bindings.len() == 0 {
        document
    } else {
        with_command(with_bindings(document, bindings.drop_last()), texts_for(bindings.last()))
    }
}

/// The document in which the bindings are installed.
pub open spec fn edited(document: DocumentMut) -> DocumentMut {
    let keyed = if config_held(document).has_keys {
        document
    } else {
        with_keys(document)
    };
    let commanded = if config_held(keyed).has_command {
        keyed
    } else {
        with_commands(keyed)
    };
    with_bindings(without_owned(commanded), crate::keybindings::owned_bindings())
}

/// A later config holds what an earlier one held, with Beacon's bindings installed:
/// every built-in setting and every custom command of somebody else is kept.
pub open spec fn has_installed(earlier: ConfigView, later: ConfigView) -> bool {
    &&& later.has_keys
    &&& later.keys_are_table
    &&& later.has_command
    &&& later.commands_are_tables
    &&& later.builtins() == earlier.builtins()
    &&& later.commands == earlier.extended()
}

/// Adds the block of one binding.
fn push_binding(document: &mut DocumentMut, binding: &Binding)
    requires
        config_held(*old(document)).keys_are_table,
        config_held(*old(document)).commands_are_tables,
    ensures
        *final(document) == with_command(*old(document), texts_for(binding@)),
        held_elsewhere(*final(document)) == held_elsewhere(*old(document)),
        config_held(*final(document)).has_keys,
        config_held(*final(document)).keys_are_table,
        config_held(*final(document)).has_command,
        config_held(*final(document)).commands_are_tables,
        config_held(*final(document)).commands == config_held(*old(document)).commands.push(
            crate::keybindings::block_for(binding@),
        ),
        config_held(*final(document)).builtins() == config_held(*old(document)).builtins(),
{
    let block: Vec<(&'static str, &'static str)> = vec![
        ("key", binding.key),
        ("type", "plugin_action"),
        ("command", binding.command),
        ("description", binding.description),
    ];
    proof {
        reveal_strlit("key");
        reveal_strlit("type");
        reveal_strlit("command");
        reveal_strlit("description");
        assert("key"@.len() == 3 && "type"@.len() == 4);
        assert("command"@.len() == 7 && "description"@.len() == 11);
        assert(block@[0].0@ == "key"@ && block@[1].0@ == "type"@);
        assert(block@[2].0@ == "command"@ && block@[3].0@ == "description"@);
        assert(block_texts(block@) =~= texts_for(binding@));
        assert(block_texts(block@).map_values(
            |entry: (Seq<char>, Seq<char>)| (entry.0, SettingView::Text(entry.1)),
        ) =~= crate::keybindings::block_for(binding@));
    }
    push_command(document, &block);
}

/// Installs the bindings in a document that was reviewed without objection.
fn edit(document: &mut DocumentMut, config: &Config)
    requires
        config@ == config_held(*old(document)),
        config@.consistent(),
        config@.has_keys ==> config@.keys_are_table,
        config@.has_command ==> config@.commands_are_tables,
    ensures
        *final(document) == edited(*old(document)),
        held_elsewhere(*final(document)) == held_elsewhere(*old(document)),
        has_installed(config_held(*old(document)), config_held(*final(document))),
{
    let ghost start = *document;
    let ghost earlier = config_held(start);
    if !config.has_keys {
        insert_keys(document);
        assert(earlier.builtins() =~= nothing().builtins()) by {
            reveal(Seq::filter);
            assert(earlier.settings =~= Seq::<(Seq<char>, SettingView)>::empty());
        }
        assert(config_held(*document).builtins() == nothing().builtins());
    }
    if !config.has_command {
        insert_commands(document);
    }
    let ghost commanded = *document;
    assert(config_held(commanded).commands =~= earlier.commands);
    drop_owned(document);
    let all = bindings();
    let ghost seen = crate::keybindings::bindings_seen(all@);
    let ghost foreign = config_held(*document).commands;
    let ghost base = *document;
    let ghost blocks = |binding: BindingView| crate::keybindings::block_for(binding);
    let mut b: usize = 0;
    assert(seen.take(0) =~= Seq::<BindingView>::empty());
    assert(foreign + seen.take(0).map_values(blocks) =~= foreign);
    while b < all.len()
        invariant
            b <= all.len(),
            seen == crate::keybindings::bindings_seen(all@),
            blocks == (|binding: BindingView| crate::keybindings::block_for(binding)),
            *document == with_bindings(base, seen.take(b as int)),
            held_elsewhere(*document) == held_elsewhere(start),
            config_held(*document).has_keys,
            config_held(*document).keys_are_table,
            config_held(*document).has_command,
            config_held(*document).commands_are_tables,
            config_held(*document).builtins() == earlier.builtins(),
            config_held(*document).commands == foreign + seen.take(b as int).map_values(blocks),
        decreases all.len() - b,
    {
        let ghost prefix = seen.take(b as int);
        let ghost longer = seen.take(b + 1);
        assert(longer.drop_last() =~= prefix);
        assert(longer.last() == all@[b as int]@);
        push_binding(document, &all[b]);
        assert(foreign + longer.map_values(blocks) =~= (foreign + prefix.map_values(blocks)).push(
            crate::keybindings::block_for(all@[b as int]@),
        ));
        b = b + 1;
    }
    assert(seen.take(all.len() as int) =~= seen);
}

/// What to do with a config file.
#[derive(Debug, PartialEq, Eq)]
pub enum InstallPlan {
    Unchanged,
    Write(String),
}

/// The plan for a document, given the verdict on its config. An objection is an
/// error; a config in which the bindings are installed is left alone; otherwise they
/// are installed, nothing outside `keys` is touched, and the file is written if that
/// changes its text.
pub open spec fn plans(
    document: DocumentMut,
    original: Option<Seq<char>>,
    verdict: Result<bool, BeaconError>,
    plan: Result<InstallPlan, BeaconError>,
) -> bool {
    &&& config_held(document).consistent()
    &&& crate::keybindings::reviews(config_held(document), verdict)
    &&& match verdict {
        Err(objection) => plan matches Err(error) && error == objection,
        Ok(true) => plan matches Ok(InstallPlan::Unchanged),
        Ok(false) => {
            &&& has_installed(config_held(document), config_held(edited(document)))
            &&& held_elsewhere(edited(document)) == held_elsewhere(document)
            &&& if original == Some(toml_text(edited(document))) {
                plan matches Ok(InstallPlan::Unchanged)
            } else {
                plan matches Ok(InstallPlan::Write(text)) && text@ == toml_text(edited(document))
            }
        },
    }
}

/// The plan for a document.
pub open spec fn planned(
    document: DocumentMut,
    original: Option<Seq<char>>,
    plan: Result<InstallPlan, BeaconError>,
) -> bool {
    exists|verdict: Result<bool, BeaconError>| #[trigger]
        plans(document, original, verdict, plan)
}

/// Plans the installation in a document.
fn plan_document(document: DocumentMut, original: Option<&str>) -> (plan: Result<
    InstallPlan,
    BeaconError,
>)
    ensures
        planned(document, crate::text::given(original), plan),
{
    let ghost start = document;
    let config = inspect(&document);
    let verdict = review(&config);
    let plan = match verdict {
        Err(error) => Err(error),
        Ok(true) => Ok(InstallPlan::Unchanged),
        Ok(false) => {
            let mut document = document;
            edit(&mut document, &config);
            let text = document_text(&document);
            match original {
                Some(before) => if same(before, &text) {
                    Ok(InstallPlan::Unchanged)
                } else {
                    Ok(InstallPlan::Write(text))
                },
                None => Ok(InstallPlan::Write(text)),
            }
        },
    };
    assert(plans(start, crate::text::given(original), verdict, plan));
    plan
}

/// Plans the installation of Beacon's bindings in a config file, or in a new one.
pub fn plan_install(original: Option<&str>) -> (plan: Result<InstallPlan, BeaconError>)
    ensures
        match original {
            Some(text) => match toml_document(text@) {
                Some(document) => planned(document, Some(text@), plan),
                None => plan matches Err(BeaconError::InvalidConfig(fault)) && fault@
                    == toml_fault(text@),
            },
            None => exists|document: DocumentMut|
                {
                    &&& config_held(document) == nothing()
                    &&& held_elsewhere(document) == no_items()
                    &&& toml_text(document) == Seq::<char>::empty()
                    &&& #[trigger] planned(document, None, plan)
                },
        },
{
    match original {
        Some(text) => match parse_document(text) {
            Ok(document) => plan_document(document, original),
            Err(fault) => Err(BeaconError::InvalidConfig(fault)),
        },
        None => plan_document(new_document(), None),
    }
}

/// Installing again changes nothing: where `toml_edit` reads from what was written that
/// the bindings are installed and nothing else of `keys` is lost, in whatever order its
/// settings come, the written config is left alone, byte for byte.
pub proof fn law_installing_again_changes_nothing(
    document: DocumentMut,
    original: Option<Seq<char>>,
    written: String,
    reread: DocumentMut,
    again: Result<InstallPlan, BeaconError>,
)
    requires
        planned(document, original, Ok(InstallPlan::Write(written))),
        toml_document(written@) == Some(reread),
        has_installed(config_held(document), config_held(reread)),
        planned(reread, Some(written@), again),
    ensures
        again matches Ok(InstallPlan::Unchanged),
{
    let first = choose|verdict: Result<bool, BeaconError>| #[trigger]
        plans(document, original, verdict, Ok(InstallPlan::Write(written)));
    assert(first == Ok::<bool, BeaconError>(false));
    let second = choose|verdict: Result<bool, BeaconError>| #[trigger]
        plans(reread, Some(written@), verdict, again);
    crate::keybindings::law_installed_config_is_settled(
        config_held(document),
        config_held(reread),
        second,
    );
}

/// A config file that is written for Beacon's sake keeps everything that is not
/// Beacon's: what stands outside `keys`, every setting there is besides the custom
/// commands, and every custom command whose command text is none of Beacon's actions,
/// all in their order. Beacon's five blocks come last.
pub proof fn law_written_config_keeps_the_rest(
    document: DocumentMut,
    original: Option<Seq<char>>,
    written: String,
)
    requires
        planned(document, original, Ok(InstallPlan::Write(written))),
    ensures
        exists|later: DocumentMut|
            {
                let earlier = config_held(document).commands;
                let commands = config_held(later).commands;
                &&& written@ == #[trigger] toml_text(later)
                &&& original != Some(written@)
                &&& held_elsewhere(later) == held_elsewhere(document)
                &&& config_held(later).keys_are_table
                &&& config_held(later).commands_are_tables
                &&& config_held(later).settings.filter(
                    |entry: (Seq<char>, SettingView)| entry.0 != "command"@,
                ) == config_held(document).settings.filter(
                    |entry: (Seq<char>, SettingView)| entry.0 != "command"@,
                )
                &&& commands.len() >= 5
                &&& commands.take(commands.len() - 5) == earlier.filter(
                    |block: Seq<(Seq<char>, SettingView)>|
                        !crate::keybindings::says(
                            block,
                            "command"@,
                            "shadowfax.beacon.jump-unread"@,
                        ) && !crate::keybindings::says(
                            block,
                            "command"@,
                            "shadowfax.beacon.jump-working"@,
                        ) && !crate::keybindings::says(
                            block,
                            "command"@,
                            "shadowfax.beacon.jump-recent"@,
                        ) && !crate::keybindings::says(
                            block,
                            "command"@,
                            "shadowfax.beacon.jump-recent-reverse"@,
                        ),
                )
                &&& crate::keybindings::says(
                    commands[commands.len() - 5],
                    "command"@,
                    "shadowfax.beacon.jump-unread"@,
                )
                &&& crate::keybindings::says(
                    commands[commands.len() - 4],
                    "command"@,
                    "shadowfax.beacon.jump-working"@,
                )
                &&& crate::keybindings::says(
                    commands[commands.len() - 3],
                    "command"@,
                    "shadowfax.beacon.jump-recent"@,
                )
                &&& crate::keybindings::says(
                    commands[commands.len() - 2],
                    "command"@,
                    "shadowfax.beacon.jump-recent-reverse"@,
                )
                &&& crate::keybindings::says(
                    commands[commands.len() - 1],
                    "command"@,
                    "shadowfax.beacon.jump-recent-reverse"@,
                )
            },
{
    let verdict = choose|verdict: Result<bool, BeaconError>| #[trigger]
        plans(document, original, verdict, Ok(InstallPlan::Write(written)));
    assert(verdict == Ok::<bool, BeaconError>(false));
    let later = edited(document);
    let earlier = config_held(document);
    let commands = config_held(later).commands;
    crate::keybindings::law_foreign_commands_are_kept(earlier);
    crate::keybindings::lemma_tied_commands();
    assert(commands.take(commands.len() - 5) =~= earlier.commands.filter(
        |block: Seq<(Seq<char>, SettingView)>|
            !crate::keybindings::says(
                block,
                "command"@,
                "shadowfax.beacon.jump-unread"@,
            ) && !crate::keybindings::says(
                block,
                "command"@,
                "shadowfax.beacon.jump-working"@,
            ) && !crate::keybindings::says(
                block,
                "command"@,
                "shadowfax.beacon.jump-recent"@,
            ) && !crate::keybindings::says(
                block,
                "command"@,
                "shadowfax.beacon.jump-recent-reverse"@,
            ),
    ));
    assert(written@ == toml_text(later));
}

/// What stops or spares a write: a config that was refused is not written, and neither
/// is one in which each of Beacon's blocks is already there once.
pub proof fn law_refused_or_installed_configs_are_not_written(
    document: DocumentMut,
    original: Option<Seq<char>>,
    verdict: Result<bool, BeaconError>,
    plan: Result<InstallPlan, BeaconError>,
)
    requires
        plans(document, original, verdict, plan),
    ensures
        verdict matches Err(objection) ==> (plan matches Err(error) && error == objection),
        verdict is Ok ==> plan is Ok,
        verdict is Ok && config_held(document).installed() ==> (plan matches Ok(
            InstallPlan::Unchanged,
        )),
        (plan matches Ok(InstallPlan::Write(_))) ==> verdict is Ok && !config_held(
            document,
        ).installed(),
{
}

/// A config file that does not exist yet is always written.
pub proof fn law_new_configs_are_written(
    document: DocumentMut,
    plan: Result<InstallPlan, BeaconError>,
)
    requires
        planned(document, None, plan),
        config_held(document).settings.len() == 0,
        config_held(document).commands.len() == 0,
        !config_held(document).has_keys,
        !config_held(document).has_command,
    ensures
        plan matches Ok(InstallPlan::Write(_)),
{
    let config = config_held(document);
    let verdict = choose|verdict: Result<bool, BeaconError>| #[trigger]
        plans(document, None, verdict, plan);
    crate::keybindings::law_review_refuses_exactly_conflicts(config, verdict);
    crate::keybindings::law_installed_means_each_block_once(config);
    assert(config.commands =~= Seq::<Seq<(Seq<char>, SettingView)>>::empty());
    reveal(Seq::filter);
    assert(!config.installed());
}

/// The client was asked to show a title; `told` is what it answered.
pub open spec fn titled<H: HerdrClient>(
    herdr: &H,
    title: Seq<char>,
    told: Result<(), BeaconError>,
) -> bool {
    exists|shown: &str|
        shown@ == title && #[trigger] call_ensures(H::notify, (herdr, shown, None), told)
}

/// What the user is told of an installation.
pub open spec fn install_title(updated: bool) -> Seq<char> {
    if updated {
        "Beacon shortcuts installed, including Shift-Alt-' to go back"@
    } else {
        "Beacon keybindings are already installed"@
    }
}

/// How an installation is confirmed. After an update Herdr reloads its config, and what
/// fails there is an error. That the user could not be told is none: it is handed back
/// as a remark.
pub open spec fn confirmed<H: HerdrClient>(
    herdr: &H,
    updated: bool,
    outcome: Result<Option<BeaconError>, BeaconError>,
) -> bool {
    match outcome {
        Err(error) => updated && call_ensures(
            H::reload_config,
            (herdr,),
            Err::<(), BeaconError>(error),
        ),
        Ok(remark) => {
            &&& updated ==> exists|reloaded: Result<(), BeaconError>|
                reloaded is Ok && #[trigger] call_ensures(H::reload_config, (herdr,), reloaded)
            &&& exists|told: Result<(), BeaconError>| #[trigger]
                titled(herdr, install_title(updated), told) && match told {
                    Ok(()) => remark is None,
                    Err(failure) => remark == Some(failure),
                }
        },
    }
}

/// Confirms an installation.
pub fn confirm_install<H: HerdrClient>(herdr: &H, updated: bool) -> (outcome: Result<
    Option<BeaconError>,
    BeaconError,
>)
    ensures
        confirmed(herdr, updated, outcome),
{
    let title = if updated {
        let reloaded = herdr.reload_config();
        assert(call_ensures(H::reload_config, (herdr,), reloaded));
        match reloaded {
            Ok(()) => "Beacon shortcuts installed, including Shift-Alt-' to go back",
            Err(error) => {
                return Err(error);
            },
        }
    } else {
        "Beacon keybindings are already installed"
    };
    let told = herdr.notify(title, None);
    assert(call_ensures(H::notify, (herdr, title, None), told));
    assert(titled(herdr, install_title(updated), told));
    match told {
        Ok(()) => Ok(None),
        Err(error) => Ok(Some(error)),
    }
}

/// Where the Herdr config is.
#[derive(Clone, Copy, Debug, PartialEq, Eq, Structural)]
pub enum ConfigRoot {
    /// At the path that was named for it.
    Named,
    /// Under the user's config directory.
    ConfigHome,
    /// Under the default config directory of the user's home.
    Home,
    /// There is no home to look in.
    Unknown,
}

/// Chooses where the Herdr config is.
pub fn config_root(named: bool, config_home: bool, home: bool) -> (root: ConfigRoot)
    ensures
        root == if named {
            ConfigRoot::Named
        } else if config_home {
            ConfigRoot::ConfigHome
        } else if home {
            ConfigRoot::Home
        } else {
            ConfigRoot::Unknown
        },
{
    if named {
        ConfigRoot::Named
    } else if config_home {
        ConfigRoot::ConfigHome
    } else if home {
        ConfigRoot::Home
    } else {
        ConfigRoot::Unknown
    }
}

/// What the user is told of an installation says whether anything was written, and an
/// installation that was written is confirmed only after Herdr reloaded its config.
pub proof fn law_installations_are_told_apart<H: HerdrClient>(
    herdr: &H,
    updated: bool,
    outcome: Result<Option<BeaconError>, BeaconError>,
)
    requires
        confirmed(herdr, updated, outcome),
    ensures
        outcome is Err ==> updated,
        outcome matches Err(error) ==> call_ensures(
            H::reload_config,
            (herdr,),
            Err::<(), BeaconError>(error),
        ),
        outcome is Ok && updated ==> exists|reloaded: Result<(), BeaconError>|
            reloaded is Ok && #[trigger] call_ensures(H::reload_config, (herdr,), reloaded),
        outcome matches Ok(remark) ==> exists|title: &str, told: Result<(), BeaconError>|
            {
                &&& #[trigger] call_ensures(H::notify, (herdr, title, None), told)
                &&& updated ==> title@
                    == "Beacon shortcuts installed, including Shift-Alt-' to go back"@
                &&& !updated ==> title@ == "Beacon keybindings are already installed"@
                &&& told is Ok ==> remark is None
                &&& told matches Err(failure) ==> remark == Some(failure)
            },
{
    if let Ok(remark) = outcome {
        let told = choose|told: Result<(), BeaconError>| #[trigger]
            titled(herdr, install_title(updated), told) && match told {
                Ok(()) => remark is None,
                Err(failure) => remark == Some(failure),
            };
        assert(titled(herdr, install_title(updated), told));
        let shown = choose|shown: &str|
            shown@ == install_title(updated) && #[trigger] call_ensures(
                H::notify,
                (herdr, shown, None),
                told,
            );
        assert(call_ensures(H::notify, (herdr, shown, None), told));
    }
}

/// The config is looked for at the path named for it, else under a config directory,
/// else under the home, and nowhere else.
pub proof fn law_named_path_comes_first(
    named: bool,
    config_home: bool,
    home: bool,
    root: ConfigRoot,
)
    requires
        call_ensures(config_root, (named, config_home, home), root),
    ensures
        root == ConfigRoot::Named <==> named,
        root == ConfigRoot::ConfigHome <==> !named && config_home,
        root == ConfigRoot::Home <==> !named && !config_home && home,
        root == ConfigRoot::Unknown <==> !named && !config_home && !home,
{
}

} // verus!
