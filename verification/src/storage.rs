//! The state file: how the ledger is written down and read back.

use vstd::prelude::*;
use crate::error::BeaconError;
use crate::herdr::status_in;
use crate::json::{
    flag_in, number_in, read_json, text_in, texts_in, write_json, Json, JsonView, WRITABLE_LEVELS,
};
use crate::ledger::{Held, Ledger, Mark, Pending, Place, Stamp};
use crate::model::{
    AgentStatus, BeaconState, Location, PolicyStamp, Suppression, UnreadEntry, Watermark,
    STATE_VERSION,
};
use crate::record::{has_distinct_names, is_unrepeated, read_parts, Parts, PartsView};
use crate::text::{contains_name, same};
use crate::textmap::TextMap;

verus! {

/// The state version before policies were kept.
pub const LEGACY_VERSION: u64 = 1;

/// Whether an object has no fields but the named ones.
pub open spec fn has_only(value: JsonView, names: Seq<Seq<char>>) -> bool {
    match value {
        JsonView::Object(fields) => forall|i: int|
            0 <= i < fields.len() ==> names.contains((#[trigger] fields[i]).0),
        _ => true,
    }
}

/// The wire name of a lifecycle state.
pub open spec fn status_name(status: AgentStatus) -> Seq<char> {
    match status {
        AgentStatus::Idle => "idle"@,
        AgentStatus::Working => "working"@,
        AgentStatus::Blocked => "blocked"@,
        AgentStatus::Done => "done"@,
        AgentStatus::Unknown => "unknown"@,
    }
}

/// An optional number: a missing value and `null` are none.
pub open spec fn option_at(value: Option<JsonView>) -> Option<Option<u64>> {
    match value {
        None => Some(None),
        Some(JsonView::Null) => Some(None),
        Some(JsonView::Number(number)) => Some(Some(number)),
        Some(_) => None,
    }
}

/// The JSON form of an optional number.
pub open spec fn option_json(number: Option<u64>) -> JsonView {
    match number {
        Some(number) => JsonView::Number(number),
        None => JsonView::Null,
    }
}

/// The JSON form of a list of texts.
pub open spec fn texts_json(texts: Seq<Seq<char>>) -> JsonView {
    JsonView::List(texts.map_values(|text: Seq<char>| JsonView::Text(text)))
}

/// What the state file keeps under one name.
pub trait Stored: View + Sized {
    /// The JSON form of the value.
    spec fn json(seen: Self::V) -> JsonView;

    /// The value that a JSON value describes.
    spec fn at(value: JsonView) -> Option<Self::V>;

    /// What is written is read back.
    proof fn lemma_read_back(seen: Self::V)
        ensures
            Self::at(Self::json(seen)) == Some(seen),
            Self::json(seen).fits(4),
    ;

    fn write(&self) -> (value: Json)
        ensures
            value@ == Self::json(self@),
    ;

    fn read(value: &Json) -> (stored: Option<Self>)
        ensures
            match stored {
                Some(stored) => Self::at(value@) == Some(stored@),
                None => Self::at(value@) is None,
            },
    ;
}

fn known(value: &Json, names: &Vec<&str>) -> (only: bool)
    ensures
        only == has_only(value@, names@.map_values(|name: &str| name@)),
{
    match value {
        Json::Object(fields) => {
            let ghost all = (Json::Object(*fields))@->Object_0;
            let ghost allowed = names@.map_values(|name: &str| name@);
            let mut i: usize = 0;
            while i < fields.len()
                invariant
                    i <= fields.len(),
                    value@ == JsonView::Object(all),
                    all.len() == fields@.len(),
                    all == (Json::Object(*fields))@->Object_0,
                    allowed == names@.map_values(|name: &str| name@),
                    forall|j: int| 0 <= j < i ==> allowed.contains((#[trigger] all[j]).0),
                decreases fields.len() - i,
            {
                assert(all[i as int] == (fields@[i as int].0@, fields@[i as int].1@));
                if !contains_name(names, &fields[i].0) {
                    assert(!allowed.contains(all[i as int].0));
                    return false;
                }
                i = i + 1;
            }
            true
        },
        _ => true,
    }
}

fn option_in(value: Option<&Json>) -> (number: Option<Option<u64>>)
    ensures
        number == option_at(crate::json::seen(value)),
{
    match value {
        None => Some(None),
        Some(Json::Null) => Some(None),
        Some(Json::Number(number)) => Some(Some(*number)),
        Some(_) => None,
    }
}

fn write_option(number: Option<u64>) -> (value: Json)
    ensures
        value@ == option_json(number),
{
    match number {
        Some(number) => Json::Number(number),
        None => Json::Null,
    }
}

fn write_texts(texts: &Vec<String>) -> (value: Json)
    ensures
        value@ == texts_json(crate::text::texts(texts@)),
{
    let mut items: Vec<Json> = Vec::new();
    let mut i: usize = 0;
    while i < texts.len()
        invariant
            i <= texts.len(),
            items@.len() == i,
            forall|j: int| 0 <= j < i ==> (#[trigger] items@[j])@ == JsonView::Text(texts@[j]@),
        decreases texts.len() - i,
    {
        items.push(Json::Text(texts[i].clone()));
        i = i + 1;
    }
    proof {
        crate::json::lemma_list(items);
        assert(crate::json::items_seen(items@) =~= crate::text::texts(texts@).map_values(
            |text: Seq<char>| JsonView::Text(text),
        ));
    }
    Json::List(items)
}

fn write_status(status: AgentStatus) -> (value: Json)
    ensures
        value@ == JsonView::Text(status_name(status)),
{
    Json::Text(
        match status {
            AgentStatus::Idle => "idle".to_owned(),
            AgentStatus::Working => "working".to_owned(),
            AgentStatus::Blocked => "blocked".to_owned(),
            AgentStatus::Done => "done".to_owned(),
            AgentStatus::Unknown => "unknown".to_owned(),
        },
    )
}

proof fn lemma_status_read_back(status: AgentStatus)
    ensures
        crate::herdr::status_named(status_name(status)) == Some(status),
{
    reveal_strlit("idle");
    reveal_strlit("working");
    reveal_strlit("blocked");
    reveal_strlit("done");
    reveal_strlit("unknown");
    assert("idle"@[0] == 'i' && "working"@[0] == 'w' && "blocked"@[0] == 'b');
    assert("done"@[0] == 'd' && "unknown"@[0] == 'u');
}

proof fn lemma_texts_read_back(texts: Seq<Seq<char>>)
    ensures
        texts_json(texts).texts() == Some(texts),
        texts_json(texts).fits(2),
{
    let items = texts.map_values(|text: Seq<char>| JsonView::Text(text));
    assert(items.map_values(|item: JsonView| item->Text_0) =~= texts);
    assert forall|i: int| 0 <= i < items.len() implies (#[trigger] items[i]).fits(1) by {}
}

/// The names of an object's fields.
pub open spec fn names_of(fields: Seq<(Seq<char>, JsonView)>) -> Seq<Seq<char>> {
    fields.map_values(|field: (Seq<char>, JsonView)| field.0)
}

/// An object whose names are distinct has every field under its name.
proof fn lemma_record(fields: Seq<(Seq<char>, JsonView)>, names: Seq<Seq<char>>)
    requires
        names_of(fields) == names,
        names.no_duplicates(),
    ensures
        crate::json::distinct_fields(fields),
        forall|i: int|
            0 <= i < fields.len() ==> crate::json::lookup(fields, (#[trigger] fields[i]).0) == Some(
                fields[i].1,
            ),
        fields.len() == names.len(),
        forall|i: int| 0 <= i < fields.len() ==> (#[trigger] fields[i]).0 == names[i],
        has_only(JsonView::Object(fields), names),
{
    assert forall|i: int| 0 <= i < fields.len() implies (#[trigger] fields[i]).0 == names[i] by {
        assert(names_of(fields)[i] == fields[i].0);
    }
    assert forall|i: int| 0 <= i < fields.len() implies crate::json::lookup(
        fields,
        (#[trigger] fields[i]).0,
    ) == Some(fields[i].1) by {
        crate::json::lemma_lookup(fields, i);
    }
}

/// The fields of a stored entry, in declaration order.
pub open spec fn entry_names() -> Seq<Seq<char>> {
    seq![
        "pane_id"@,
        "terminal_id"@,
        "workspace_id"@,
        "status"@,
        "state_change_seq"@,
        "ordinal"@,
    ]
}

impl Stored for UnreadEntry {
    open spec fn json(seen: Pending) -> JsonView {
        JsonView::Object(
            seq![
                ("pane_id"@, JsonView::Text(seen.pane_id)),
                ("terminal_id"@, JsonView::Text(seen.terminal_id)),
                ("workspace_id"@, JsonView::Text(seen.workspace_id)),
                ("status"@, JsonView::Text(status_name(seen.status))),
                ("state_change_seq"@, JsonView::Number(seen.state_change_seq)),
                ("ordinal"@, JsonView::Number(seen.ordinal)),
            ],
        )
    }

    open spec fn at(value: JsonView) -> Option<Pending> {
        let pane_id = crate::json::text_at(value.part(0, "pane_id"@));
        let terminal_id = crate::json::text_at(value.part(1, "terminal_id"@));
        let workspace_id = crate::json::text_at(value.part(2, "workspace_id"@));
        let status = crate::herdr::status_at(value.part(3, "status"@));
        let sequence = crate::json::number_at(value.part(4, "state_change_seq"@));
        let ordinal = crate::json::number_at(value.part(5, "ordinal"@));
        if value.is_record(6, 6) && has_only(value, entry_names()) && pane_id is Some
            && terminal_id is Some && workspace_id is Some && status is Some && sequence is Some
            && ordinal is Some {
            Some(
                Pending {
                    pane_id: pane_id->0,
                    terminal_id: terminal_id->0,
                    workspace_id: workspace_id->0,
                    status: status->0,
                    state_change_seq: sequence->0,
                    ordinal: ordinal->0,
                },
            )
        } else {
            None
        }
    }

    proof fn lemma_read_back(seen: Pending) {
        let fields = Self::json(seen)->Object_0;
        lemma_names_are_distinct();
        assert(names_of(fields) =~= entry_names());
        lemma_record(fields, entry_names());
        lemma_status_read_back(seen.status);
        assert(fields[0].0 == "pane_id"@ && fields[1].0 == "terminal_id"@);
        assert(fields[2].0 == "workspace_id"@ && fields[3].0 == "status"@);
        assert(fields[4].0 == "state_change_seq"@ && fields[5].0 == "ordinal"@);
        assert forall|i: int| 0 <= i < fields.len() implies (#[trigger] fields[i]).1.fits(3) by {}
    }

    fn write(&self) -> (value: Json) {
        let fields = vec![
            ("pane_id".to_owned(), Json::Text(self.pane_id.clone())),
            ("terminal_id".to_owned(), Json::Text(self.terminal_id.clone())),
            ("workspace_id".to_owned(), Json::Text(self.workspace_id.clone())),
            ("status".to_owned(), write_status(self.status)),
            ("state_change_seq".to_owned(), Json::Number(self.state_change_seq)),
            ("ordinal".to_owned(), Json::Number(self.ordinal)),
        ];
        proof {
            crate::json::lemma_object(fields);
            assert(crate::json::fields_seen(fields@) =~= Self::json(self@)->Object_0);
        }
        Json::Object(fields)
    }

    fn read(value: &Json) -> (stored: Option<Self>) {
        let names = vec![
            "pane_id",
            "terminal_id",
            "workspace_id",
            "status",
            "state_change_seq",
            "ordinal",
        ];
        assert(names@.map_values(|name: &str| name@) =~= entry_names());
        if !value.is_record(6, 6) || !known(value, &names) {
            return None;
        }
        let pane_id = text_in(value.part(0, "pane_id"));
        let terminal_id = text_in(value.part(1, "terminal_id"));
        let workspace_id = text_in(value.part(2, "workspace_id"));
        let status = status_in(value.part(3, "status"));
        let sequence = number_in(value.part(4, "state_change_seq"));
        let ordinal = number_in(value.part(5, "ordinal"));
        match (pane_id, terminal_id, workspace_id, status, sequence, ordinal) {
            (
                Some(pane_id),
                Some(terminal_id),
                Some(workspace_id),
                Some(status),
                Some(state_change_seq),
                Some(ordinal),
            ) => Some(
                UnreadEntry {
                    pane_id,
                    terminal_id,
                    workspace_id,
                    status,
                    state_change_seq,
                    ordinal,
                },
            ),
            _ => None,
        }
    }
}

/// The fields of a stored watermark, in declaration order.
pub open spec fn mark_names() -> Seq<Seq<char>> {
    seq!["terminal_id"@, "state_change_seq"@, "cleared_through"@]
}

impl Stored for Watermark {
    open spec fn json(seen: Mark) -> JsonView {
        JsonView::Object(
            seq![
                ("terminal_id"@, JsonView::Text(seen.terminal_id)),
                ("state_change_seq"@, JsonView::Number(seen.state_change_seq)),
                ("cleared_through"@, option_json(seen.cleared_through)),
            ],
        )
    }

    open spec fn at(value: JsonView) -> Option<Mark> {
        let terminal_id = crate::json::text_at(value.part(0, "terminal_id"@));
        let sequence = crate::json::number_at(value.part(1, "state_change_seq"@));
        let cleared = option_at(value.part(2, "cleared_through"@));
        if value.is_record(2, 3) && has_only(value, mark_names()) && terminal_id is Some
            && sequence is Some && cleared is Some {
            Some(
                Mark {
                    terminal_id: terminal_id->0,
                    state_change_seq: sequence->0,
                    cleared_through: cleared->0,
                },
            )
        } else {
            None
        }
    }

    proof fn lemma_read_back(seen: Mark) {
        let fields = Self::json(seen)->Object_0;
        lemma_names_are_distinct();
        assert(names_of(fields) =~= mark_names());
        lemma_record(fields, mark_names());
        assert(fields[0].0 == "terminal_id"@ && fields[1].0 == "state_change_seq"@);
        assert(fields[2].0 == "cleared_through"@);
        assert forall|i: int| 0 <= i < fields.len() implies (#[trigger] fields[i]).1.fits(3) by {}
    }

    fn write(&self) -> (value: Json) {
        let fields = vec![
            ("terminal_id".to_owned(), Json::Text(self.terminal_id.clone())),
            ("state_change_seq".to_owned(), Json::Number(self.state_change_seq)),
            ("cleared_through".to_owned(), write_option(self.cleared_through)),
        ];
        proof {
            crate::json::lemma_object(fields);
            assert(crate::json::fields_seen(fields@) =~= Self::json(self@)->Object_0);
        }
        Json::Object(fields)
    }

    fn read(value: &Json) -> (stored: Option<Self>) {
        let names = vec!["terminal_id", "state_change_seq", "cleared_through"];
        assert(names@.map_values(|name: &str| name@) =~= mark_names());
        if !value.is_record(2, 3) || !known(value, &names) {
            return None;
        }
        let terminal_id = text_in(value.part(0, "terminal_id"));
        let sequence = number_in(value.part(1, "state_change_seq"));
        let cleared = option_in(value.part(2, "cleared_through"));
        match (terminal_id, sequence, cleared) {
            (Some(terminal_id), Some(state_change_seq), Some(cleared_through)) => Some(
                Watermark { terminal_id, state_change_seq, cleared_through },
            ),
            _ => None,
        }
    }
}

/// The fields of a stored suppression, in declaration order.
pub open spec fn held_names() -> Seq<Seq<char>> {
    seq!["state_change_seq"@, "cleared_through"@]
}

impl Stored for Suppression {
    open spec fn json(seen: Held) -> JsonView {
        JsonView::Object(
            seq![
                ("state_change_seq"@, JsonView::Number(seen.state_change_seq)),
                ("cleared_through"@, option_json(seen.cleared_through)),
            ],
        )
    }

    open spec fn at(value: JsonView) -> Option<Held> {
        let sequence = crate::json::number_at(value.part(0, "state_change_seq"@));
        let cleared = option_at(value.part(1, "cleared_through"@));
        if value.is_record(1, 2) && has_only(value, held_names()) && sequence is Some
            && cleared is Some {
            Some(Held { state_change_seq: sequence->0, cleared_through: cleared->0 })
        } else {
            None
        }
    }

    proof fn lemma_read_back(seen: Held) {
        let fields = Self::json(seen)->Object_0;
        lemma_names_are_distinct();
        assert(names_of(fields) =~= held_names());
        lemma_record(fields, held_names());
        assert(fields[0].0 == "state_change_seq"@ && fields[1].0 == "cleared_through"@);
        assert forall|i: int| 0 <= i < fields.len() implies (#[trigger] fields[i]).1.fits(3) by {}
    }

    fn write(&self) -> (value: Json) {
        let fields = vec![
            ("state_change_seq".to_owned(), Json::Number(self.state_change_seq)),
            ("cleared_through".to_owned(), write_option(self.cleared_through)),
        ];
        proof {
            crate::json::lemma_object(fields);
            assert(crate::json::fields_seen(fields@) =~= Self::json(self@)->Object_0);
        }
        Json::Object(fields)
    }

    fn read(value: &Json) -> (stored: Option<Self>) {
        let names = vec!["state_change_seq", "cleared_through"];
        assert(names@.map_values(|name: &str| name@) =~= held_names());
        if !value.is_record(1, 2) || !known(value, &names) {
            return None;
        }
        let sequence = number_in(value.part(0, "state_change_seq"));
        let cleared = option_in(value.part(1, "cleared_through"));
        match (sequence, cleared) {
            (Some(state_change_seq), Some(cleared_through)) => Some(
                Suppression { state_change_seq, cleared_through },
            ),
            _ => None,
        }
    }
}

/// The fields of a stored policy stamp, in declaration order.
pub open spec fn stamp_names() -> Seq<Seq<char>> {
    seq!["session"@, "labels"@, "excluded"@]
}

impl Stored for PolicyStamp {
    open spec fn json(seen: Stamp) -> JsonView {
        JsonView::Object(
            seq![
                ("session"@, JsonView::Text(seen.session)),
                ("labels"@, texts_json(seen.labels)),
                ("excluded"@, texts_json(seen.excluded)),
            ],
        )
    }

    open spec fn at(value: JsonView) -> Option<Stamp> {
        let session = crate::json::text_at(value.part(0, "session"@));
        let labels = crate::json::texts_at(value.part(1, "labels"@));
        let excluded = crate::json::texts_at(value.part(2, "excluded"@));
        if value.is_record(3, 3) && has_only(value, stamp_names()) && session is Some
            && labels is Some && excluded is Some {
            Some(Stamp { session: session->0, labels: labels->0, excluded: excluded->0 })
        } else {
            None
        }
    }

    proof fn lemma_read_back(seen: Stamp) {
        let fields = Self::json(seen)->Object_0;
        lemma_names_are_distinct();
        assert(names_of(fields) =~= stamp_names());
        lemma_record(fields, stamp_names());
        lemma_texts_read_back(seen.labels);
        lemma_texts_read_back(seen.excluded);
        lemma_fits_deeper(texts_json(seen.labels), 2, 3);
        lemma_fits_deeper(texts_json(seen.excluded), 2, 3);
        assert(fields[0].0 == "session"@ && fields[1].0 == "labels"@);
        assert(fields[2].0 == "excluded"@);
        assert forall|i: int| 0 <= i < fields.len() implies (#[trigger] fields[i]).1.fits(3) by {}
    }

    fn write(&self) -> (value: Json) {
        let fields = vec![
            ("session".to_owned(), Json::Text(self.session.clone())),
            ("labels".to_owned(), write_texts(&self.labels)),
            ("excluded".to_owned(), write_texts(&self.excluded)),
        ];
        proof {
            crate::json::lemma_object(fields);
            assert(crate::json::fields_seen(fields@) =~= Self::json(self@)->Object_0);
        }
        Json::Object(fields)
    }

    fn read(value: &Json) -> (stored: Option<Self>) {
        let names = vec!["session", "labels", "excluded"];
        assert(names@.map_values(|name: &str| name@) =~= stamp_names());
        if !value.is_record(3, 3) || !known(value, &names) {
            return None;
        }
        let session = text_in(value.part(0, "session"));
        let labels = texts_in(value.part(1, "labels"));
        let excluded = texts_in(value.part(2, "excluded"));
        match (session, labels, excluded) {
            (Some(session), Some(labels), Some(excluded)) => Some(
                PolicyStamp { session, labels, excluded },
            ),
            _ => None,
        }
    }
}

/// The fields of a stored location, in declaration order.
pub open spec fn place_names() -> Seq<Seq<char>> {
    seq!["terminal_id"@, "pane_id"@, "workspace_id"@]
}

impl Stored for Location {
    open spec fn json(seen: Place) -> JsonView {
        JsonView::Object(
            seq![
                ("terminal_id"@, JsonView::Text(seen.terminal_id)),
                ("pane_id"@, JsonView::Text(seen.pane_id)),
                ("workspace_id"@, JsonView::Text(seen.workspace_id)),
            ],
        )
    }

    open spec fn at(value: JsonView) -> Option<Place> {
        let terminal_id = crate::json::text_at(value.part(0, "terminal_id"@));
        let pane_id = crate::json::text_at(value.part(1, "pane_id"@));
        let workspace_id = crate::json::text_at(value.part(2, "workspace_id"@));
        if value.is_record(3, 3) && has_only(value, place_names()) && terminal_id is Some
            && pane_id is Some && workspace_id is Some {
            Some(
                Place {
                    terminal_id: terminal_id->0,
                    pane_id: pane_id->0,
                    workspace_id: workspace_id->0,
                },
            )
        } else {
            None
        }
    }

    proof fn lemma_read_back(seen: Place) {
        let fields = Self::json(seen)->Object_0;
        lemma_names_are_distinct();
        assert(names_of(fields) =~= place_names());
        lemma_record(fields, place_names());
        assert(fields[0].0 == "terminal_id"@ && fields[1].0 == "pane_id"@);
        assert(fields[2].0 == "workspace_id"@);
        assert forall|i: int| 0 <= i < fields.len() implies (#[trigger] fields[i]).1.fits(3) by {}
    }

    fn write(&self) -> (value: Json) {
        let fields = vec![
            ("terminal_id".to_owned(), Json::Text(self.terminal_id.clone())),
            ("pane_id".to_owned(), Json::Text(self.pane_id.clone())),
            ("workspace_id".to_owned(), Json::Text(self.workspace_id.clone())),
        ];
        proof {
            crate::json::lemma_object(fields);
            assert(crate::json::fields_seen(fields@) =~= Self::json(self@)->Object_0);
        }
        Json::Object(fields)
    }

    fn read(value: &Json) -> (stored: Option<Self>) {
        let names = vec!["terminal_id", "pane_id", "workspace_id"];
        assert(names@.map_values(|name: &str| name@) =~= place_names());
        if !value.is_record(3, 3) || !known(value, &names) {
            return None;
        }
        let terminal_id = text_in(value.part(0, "terminal_id"));
        let pane_id = text_in(value.part(1, "pane_id"));
        let workspace_id = text_in(value.part(2, "workspace_id"));
        match (terminal_id, pane_id, workspace_id) {
            (Some(terminal_id), Some(pane_id), Some(workspace_id)) => Some(
                Location { terminal_id, pane_id, workspace_id },
            ),
            _ => None,
        }
    }
}

/// A value that is not nested deep is not nested deeper either.
proof fn lemma_fits_deeper(value: JsonView, levels: nat, more: nat)
    requires
        value.fits(levels),
        levels <= more,
    ensures
        value.fits(more),
    decreases levels,
{
    match value {
        JsonView::List(items) => {
            assert forall|i: int| 0 <= i < items.len() implies (#[trigger] items[i]).fits(
                (more - 1) as nat,
            ) by {
                lemma_fits_deeper(items[i], (levels - 1) as nat, (more - 1) as nat);
            }
        },
        JsonView::Object(fields) => {
            assert forall|i: int| 0 <= i < fields.len() implies (#[trigger] fields[i]).1.fits(
                (more - 1) as nat,
            ) by {
                lemma_fits_deeper(fields[i].1, (levels - 1) as nat, (more - 1) as nat);
            }
        },
        _ => {},
    }
}

/// The map that the fields of an object describe. A repeated name has its last
/// value.
pub open spec fn map_at<V: Stored>(fields: Seq<(Seq<char>, JsonView)>) -> Option<
    Map<Seq<char>, V::V>,
>
    decreases fields.len(),
{
    if fields.len() == 0 {
        Some(Map::empty())
    } else {
        match (map_at::<V>(fields.drop_last()), V::at(fields.last().1)) {
            (Some(map), Some(value)) => Some(map.insert(fields.last().0, value)),
            _ => None,
        }
    }
}

/// The map in an optional value.
pub open spec fn map_in<V: Stored>(value: Option<JsonView>) -> Option<Map<Seq<char>, V::V>> {
    match value {
        Some(JsonView::Object(fields)) => map_at::<V>(fields),
        _ => None,
    }
}

/// Once one value cannot be read, the map cannot.
proof fn lemma_map_fails<V: Stored>(fields: Seq<(Seq<char>, JsonView)>, k: int)
    requires
        0 <= k <= fields.len(),
        map_at::<V>(fields.take(k)) is None,
    ensures
        map_at::<V>(fields) is None,
    decreases fields.len(),
{
    if k == fields.len() {
        assert(fields.take(k) =~= fields);
    } else {
        assert(fields.drop_last().take(k) =~= fields.take(k));
        lemma_map_fails::<V>(fields.drop_last(), k);
    }
}

fn read_map<V: Stored>(value: Option<&Json>) -> (map: Option<TextMap<V>>)
    ensures
        match map {
            Some(map) => map.wf() && map_in::<V>(crate::json::seen(value)) == Some(map@),
            None => map_in::<V>(crate::json::seen(value)) is None,
        },
{
    match value {
        Some(Json::Object(fields)) => {
            let ghost all = (Json::Object(*fields))@->Object_0;
            let mut map: TextMap<V> = TextMap::new();
            let mut i: usize = 0;
            assert(all.take(0) =~= Seq::<(Seq<char>, JsonView)>::empty());
            while i < fields.len()
                invariant
                    i <= fields.len(),
                    map.wf(),
                    all == (Json::Object(*fields))@->Object_0,
                    all.len() == fields@.len(),
                    crate::json::seen(value) == Some(JsonView::Object(all)),
                    map_at::<V>(all.take(i as int)) == Some(map@),
                decreases fields.len() - i,
            {
                assert(all[i as int] == (fields@[i as int].0@, fields@[i as int].1@));
                assert(all.take(i + 1).drop_last() =~= all.take(i as int));
                match V::read(&fields[i].1) {
                    Some(stored) => {
                        map.insert(fields[i].0.clone(), stored);
                    },
                    None => {
                        proof {
                            lemma_map_fails::<V>(all, i + 1);
                        }
                        return None;
                    },
                }
                i = i + 1;
            }
            assert(all.take(fields.len() as int) =~= all);
            Some(map)
        },
        _ => None,
    }
}

/// The JSON form of a map whose keys and values stand in the given order.
pub open spec fn map_json<V: Stored>(keys: Seq<Seq<char>>, values: Seq<V::V>) -> Seq<
    (Seq<char>, JsonView),
> {
    Seq::new(keys.len(), |i: int| (keys[i], V::json(values[i])))
}

fn write_map<V: Stored>(map: &TextMap<V>) -> (value: Json)
    requires
        map.wf(),
    ensures
        value@ == JsonView::Object(map_json::<V>(map.order(), map.contents())),
{
    let mut fields: Vec<(String, Json)> = Vec::new();
    let mut i: usize = 0;
    while i < map.len()
        invariant
            map.wf(),
            i <= map.order().len(),
            fields@.len() == i,
            forall|j: int|
                0 <= j < i ==> (#[trigger] fields@[j]).0@ == map.order()[j] && fields@[j].1@
                    == V::json(map.contents()[j]),
        decreases map.order().len() - i,
    {
        fields.push((map.key_at(i).clone(), map.value_at(i).write()));
        i = i + 1;
    }
    proof {
        crate::json::lemma_object(fields);
        assert(crate::json::fields_seen(fields@) =~= map_json::<V>(map.order(), map.contents()));
    }
    Json::Object(fields)
}

/// The first so many keys of a map.
proof fn lemma_map_prefix<V: Stored>(map: &TextMap<V>, k: int)
    requires
        map.wf(),
        0 <= k <= map.order().len(),
    ensures
        map_at::<V>(map_json::<V>(map.order(), map.contents()).take(k)) matches Some(read) && {
            &&& forall|key: Seq<char>| #[trigger]
                read.contains_key(key) ==> map@.contains_key(key) && read[key] == map@[key]
            &&& forall|i: int| 0 <= i < k ==> read.contains_key(#[trigger] map.order()[i])
        },
    decreases k,
{
    let fields = map_json::<V>(map.order(), map.contents());
    if k == 0 {
        assert(fields.take(0) =~= Seq::<(Seq<char>, JsonView)>::empty());
    } else {
        lemma_map_prefix(map, k - 1);
        assert(fields.take(k).drop_last() =~= fields.take(k - 1));
        map.lemma_position(k - 1);
        V::lemma_read_back(map.contents()[k - 1]);
        assert(fields.take(k).last() == (map.order()[k - 1], V::json(map.contents()[k - 1])));
    }
}

/// A map is read back as it was written.
proof fn lemma_map_read_back<V: Stored>(map: &TextMap<V>)
    requires
        map.wf(),
    ensures
        map_at::<V>(map_json::<V>(map.order(), map.contents())) == Some(map@),
        JsonView::Object(map_json::<V>(map.order(), map.contents())).fits(5),
{
    let fields = map_json::<V>(map.order(), map.contents());
    let count = map.order().len() as int;
    lemma_map_prefix(map, count);
    assert(fields.take(count) =~= fields);
    let read = map_at::<V>(fields)->0;
    assert(read =~= map@) by {
        assert forall|key: Seq<char>| #[trigger] map@.contains_key(key) implies read.contains_key(
            key,
        ) by {
            let i = map.lemma_key(key);
            assert(read.contains_key(map.order()[i]));
        }
    }
    assert forall|i: int| 0 <= i < fields.len() implies (#[trigger] fields[i]).1.fits(4) by {
        V::lemma_read_back(map.contents()[i]);
    }
    assert forall|i: int, j: int| 0 <= i < j < fields.len() implies (#[trigger] fields[i]).0 != (
    #[trigger] fields[j]).0 by {
        assert(crate::text::precedes(map.order()[i], map.order()[j]));
        crate::text::lemma_precedes_asymmetric(map.order()[i], map.order()[j]);
    }
}

/// No stored record has two fields of the same name.
proof fn lemma_names_are_distinct()
    ensures
        entry_names().no_duplicates(),
        mark_names().no_duplicates(),
        held_names().no_duplicates(),
        stamp_names().no_duplicates(),
        place_names().no_duplicates(),
{
    reveal_strlit("pane_id");
    reveal_strlit("terminal_id");
    reveal_strlit("workspace_id");
    reveal_strlit("status");
    reveal_strlit("state_change_seq");
    reveal_strlit("ordinal");
    reveal_strlit("cleared_through");
    reveal_strlit("session");
    reveal_strlit("labels");
    reveal_strlit("excluded");
    assert("pane_id"@[0] == 'p' && "ordinal"@[0] == 'o');
    assert("pane_id"@.len() == 7 && "terminal_id"@.len() == 11 && "workspace_id"@.len() == 12);
    assert("status"@.len() == 6 && "state_change_seq"@.len() == 16 && "ordinal"@.len() == 7);
    assert("cleared_through"@.len() == 15 && "session"@.len() == 7 && "labels"@.len() == 6);
    assert("excluded"@.len() == 8);
    let entry = entry_names();
    assert(entry[0] == "pane_id"@ && entry[1] == "terminal_id"@ && entry[2] == "workspace_id"@);
    assert(entry[3] == "status"@ && entry[4] == "state_change_seq"@ && entry[5] == "ordinal"@);
    let mark = mark_names();
    assert(mark[0] == "terminal_id"@ && mark[1] == "state_change_seq"@);
    assert(mark[2] == "cleared_through"@);
    let held = held_names();
    assert(held[0] == "state_change_seq"@ && held[1] == "cleared_through"@);
    let stamp = stamp_names();
    assert(stamp[0] == "session"@ && stamp[1] == "labels"@ && stamp[2] == "excluded"@);
    let place = place_names();
    assert(place[0] == "terminal_id"@ && place[1] == "pane_id"@ && place[2] == "workspace_id"@);
}

/// A state has no two fields of the same name.
proof fn lemma_state_names_are_distinct()
    ensures
        state_names().no_duplicates(),
{
    reveal_strlit("version");
    reveal_strlit("next_ordinal");
    reveal_strlit("entries");
    reveal_strlit("watermarks");
    reveal_strlit("policy");
    reveal_strlit("suppressed");
    reveal_strlit("locations");
    reveal_strlit("recovery_needed");
    assert("version"@.len() == 7 && "next_ordinal"@.len() == 12 && "entries"@.len() == 7);
    assert("watermarks"@.len() == 10 && "policy"@.len() == 6 && "suppressed"@.len() == 10);
    assert("locations"@.len() == 9 && "recovery_needed"@.len() == 15);
    assert("version"@[0] == 'v' && "entries"@[0] == 'e');
    assert("watermarks"@[0] == 'w' && "suppressed"@[0] == 's');
    let names = state_names();
    assert(names[0] == "version"@ && names[1] == "next_ordinal"@ && names[2] == "entries"@);
    assert(names[3] == "watermarks"@ && names[4] == "policy"@ && names[5] == "suppressed"@);
    assert(names[6] == "locations"@ && names[7] == "recovery_needed"@);
}

/// The places that a list of JSON values describes, if each describes one.
pub open spec fn places_at(value: Option<JsonView>) -> Option<Seq<Place>> {
    match value {
        Some(JsonView::List(items)) => if forall|i: int|
            0 <= i < items.len() ==> Location::at(#[trigger] items[i]) is Some {
            Some(items.map_values(|item: JsonView| Location::at(item)->0))
        } else {
            None
        },
        _ => None,
    }
}

fn read_places(value: Option<&Json>) -> (locations: Option<Vec<Location>>)
    ensures
        match locations {
            Some(locations) => places_at(crate::json::seen(value)) == Some(
                crate::model::places_seen(locations@),
            ),
            None => places_at(crate::json::seen(value)) is None,
        },
{
    match value {
        Some(Json::List(items)) => {
            let ghost all = (Json::List(*items))@->List_0;
            let mut locations: Vec<Location> = Vec::new();
            let mut i: usize = 0;
            while i < items.len()
                invariant
                    i <= items.len(),
                    locations@.len() == i,
                    all == (Json::List(*items))@->List_0,
                    all.len() == items@.len(),
                    crate::json::seen(value) == Some(JsonView::List(all)),
                    forall|j: int|
                        0 <= j < i ==> Location::at(#[trigger] all[j]) == Some(locations@[j]@),
                decreases items.len() - i,
            {
                assert(all[i as int] == items@[i as int]@);
                match Location::read(&items[i]) {
                    Some(location) => {
                        locations.push(location);
                    },
                    None => {
                        return None;
                    },
                }
                i = i + 1;
            }
            assert(crate::model::places_seen(locations@) =~= all.map_values(
                |item: JsonView| Location::at(item)->0,
            ));
            Some(locations)
        },
        _ => None,
    }
}

/// The JSON form of a list of places.
pub open spec fn places_json(places: Seq<Place>) -> JsonView {
    JsonView::List(places.map_values(|place: Place| Location::json(place)))
}

fn write_places(locations: &Vec<Location>) -> (value: Json)
    ensures
        value@ == places_json(crate::model::places_seen(locations@)),
{
    let mut items: Vec<Json> = Vec::new();
    let mut i: usize = 0;
    while i < locations.len()
        invariant
            i <= locations.len(),
            items@.len() == i,
            forall|j: int|
                0 <= j < i ==> (#[trigger] items@[j])@ == Location::json(locations@[j]@),
        decreases locations.len() - i,
    {
        items.push(locations[i].write());
        i = i + 1;
    }
    proof {
        crate::json::lemma_list(items);
        assert(crate::json::items_seen(items@) =~= crate::model::places_seen(
            locations@,
        ).map_values(|place: Place| Location::json(place)));
    }
    Json::List(items)
}

proof fn lemma_places_read_back(places: Seq<Place>)
    ensures
        places_at(Some(places_json(places))) == Some(places),
        places_json(places).fits(5),
{
    let items = places.map_values(|place: Place| Location::json(place));
    assert forall|i: int| 0 <= i < items.len() implies Location::at(#[trigger] items[i]) == Some(
        places[i],
    ) && items[i].fits(4) by {
        Location::lemma_read_back(places[i]);
    }
    assert(items.map_values(|item: JsonView| Location::at(item)->0) =~= places);
}

/// The optional policy stamp in an optional value. The value must be there.
pub open spec fn policy_at(value: Option<JsonView>) -> Option<Option<Stamp>> {
    match value {
        None => None,
        Some(JsonView::Null) => Some(None),
        Some(value) => match PolicyStamp::at(value) {
            Some(stamp) => Some(Some(stamp)),
            None => None,
        },
    }
}

fn read_policy(value: Option<&Json>) -> (policy: Option<Option<PolicyStamp>>)
    ensures
        match policy {
            Some(policy) => policy_at(crate::json::seen(value)) == Some(
                crate::model::stamp_seen(policy),
            ),
            None => policy_at(crate::json::seen(value)) is None,
        },
{
    match value {
        None => None,
        Some(Json::Null) => Some(None),
        Some(value) => match PolicyStamp::read(value) {
            Some(stamp) => Some(Some(stamp)),
            None => None,
        },
    }
}

/// The JSON form of an optional policy stamp.
pub open spec fn policy_json(policy: Option<Stamp>) -> JsonView {
    match policy {
        Some(stamp) => PolicyStamp::json(stamp),
        None => JsonView::Null,
    }
}

fn write_policy(policy: &Option<PolicyStamp>) -> (value: Json)
    ensures
        value@ == policy_json(crate::model::stamp_seen(*policy)),
{
    match policy {
        Some(stamp) => stamp.write(),
        None => Json::Null,
    }
}

/// The version of a stored state.
pub open spec fn version_at(value: JsonView) -> Option<u64> {
    match crate::json::number_at(value.part(0, "version"@)) {
        Some(version) => if version <= u32::MAX {
            Some(version)
        } else {
            None
        },
        None => None,
    }
}

/// The fields of a state without a policy, in declaration order.
pub open spec fn legacy_names() -> Seq<Seq<char>> {
    seq!["version"@, "next_ordinal"@, "entries"@, "watermarks"@]
}

/// The fields of a state, in declaration order.
pub open spec fn state_names() -> Seq<Seq<char>> {
    seq![
        "version"@,
        "next_ordinal"@,
        "entries"@,
        "watermarks"@,
        "policy"@,
        "suppressed"@,
        "locations"@,
        "recovery_needed"@,
    ]
}

/// The ledger of a state that was stored before policies were kept: its entries and
/// clearing evidence, under no policy yet.
pub open spec fn legacy_at(value: JsonView) -> Option<Ledger> {
    let next_ordinal = crate::json::number_at(value.part(1, "next_ordinal"@));
    let entries = map_in::<UnreadEntry>(value.part(2, "entries"@));
    let watermarks = map_in::<Watermark>(value.part(3, "watermarks"@));
    if value.is_record(4, 4) && has_only(value, legacy_names()) && next_ordinal is Some
        && entries is Some && watermarks is Some {
        Some(
            Ledger {
                next_ordinal: next_ordinal->0,
                entries: entries->0,
                watermarks: watermarks->0,
                ..Ledger::empty()
            },
        )
    } else {
        None
    }
}

/// The ledger of a stored state. Every field must be there, and no other.
pub open spec fn current_at(value: JsonView) -> Option<Ledger> {
    let next_ordinal = crate::json::number_at(value.part(1, "next_ordinal"@));
    let entries = map_in::<UnreadEntry>(value.part(2, "entries"@));
    let watermarks = map_in::<Watermark>(value.part(3, "watermarks"@));
    let policy = policy_at(value.part(4, "policy"@));
    let suppressed = map_in::<Suppression>(value.part(5, "suppressed"@));
    let locations = places_at(value.part(6, "locations"@));
    let recovery_needed = crate::json::flag_at(value.part(7, "recovery_needed"@));
    if value.is_record(8, 8) && has_only(value, state_names()) && next_ordinal is Some
        && entries is Some && watermarks is Some && policy is Some && suppressed is Some
        && locations is Some && recovery_needed is Some {
        Some(
            Ledger {
                version: STATE_VERSION,
                next_ordinal: next_ordinal->0,
                entries: entries->0,
                watermarks: watermarks->0,
                policy: policy->0,
                suppressed: suppressed->0,
                locations: locations->0,
                recovery_needed: recovery_needed->0,
            },
        )
    } else {
        None
    }
}

/// The ledger that a stored state of the given version describes.
pub open spec fn ledger_at(version: u64, value: JsonView) -> Option<Ledger> {
    if version == LEGACY_VERSION {
        legacy_at(value)
    } else {
        current_at(value)
    }
}

/// How reading a stored state ends. An older state is brought to the current
/// version; one that is incomplete, has unknown fields or does not hold together is
/// refused.
pub open spec fn restores(value: JsonView, outcome: Result<BeaconState, BeaconError>) -> bool {
    match version_at(value) {
        None => outcome matches Err(error) && error is InvalidState,
        Some(version) => if version != LEGACY_VERSION && version != STATE_VERSION {
            outcome matches Err(BeaconError::UnsupportedVersion(found)) && found == version
        } else {
            match ledger_at(version, value) {
                None => outcome matches Err(error) && error is InvalidState,
                Some(ledger) => exists|verdict: Result<(), BeaconError>| #[trigger]
                    crate::model::validates(ledger, verdict) && match verdict {
                        Ok(()) => outcome matches Ok(state) && state.wf() && state@ == ledger,
                        Err(objection) => outcome matches Err(error) && error == objection,
                    },
            }
        },
    }
}

fn read_legacy(value: &Json) -> (state: Option<BeaconState>)
    ensures
        match state {
            Some(state) => state.wf() && legacy_at(value@) == Some(state@),
            None => legacy_at(value@) is None,
        },
{
    let names = vec!["version", "next_ordinal", "entries", "watermarks"];
    assert(names@.map_values(|name: &str| name@) =~= legacy_names());
    if !value.is_record(4, 4) || !known(value, &names) {
        return None;
    }
    let next_ordinal = number_in(value.part(1, "next_ordinal"));
    let entries = read_map::<UnreadEntry>(value.part(2, "entries"));
    let watermarks = read_map::<Watermark>(value.part(3, "watermarks"));
    match (next_ordinal, entries, watermarks) {
        (Some(next_ordinal), Some(entries), Some(watermarks)) => {
            let locations: Vec<Location> = Vec::new();
            assert(crate::model::places_seen(locations@) =~= Seq::<Place>::empty());
            Some(
                BeaconState::assemble(
                    STATE_VERSION,
                    next_ordinal,
                    entries,
                    watermarks,
                    None,
                    TextMap::new(),
                    locations,
                    false,
                ),
            )
        },
        _ => None,
    }
}

fn read_current(value: &Json) -> (state: Option<BeaconState>)
    ensures
        match state {
            Some(state) => state.wf() && current_at(value@) == Some(state@),
            None => current_at(value@) is None,
        },
{
    let names = vec![
        "version",
        "next_ordinal",
        "entries",
        "watermarks",
        "policy",
        "suppressed",
        "locations",
        "recovery_needed",
    ];
    assert(names@.map_values(|name: &str| name@) =~= state_names());
    if !value.is_record(8, 8) || !known(value, &names) {
        return None;
    }
    let next_ordinal = number_in(value.part(1, "next_ordinal"));
    let entries = read_map::<UnreadEntry>(value.part(2, "entries"));
    let watermarks = read_map::<Watermark>(value.part(3, "watermarks"));
    let policy = read_policy(value.part(4, "policy"));
    let suppressed = read_map::<Suppression>(value.part(5, "suppressed"));
    let locations = read_places(value.part(6, "locations"));
    let recovery_needed = flag_in(value.part(7, "recovery_needed"));
    match (next_ordinal, entries, watermarks, policy, suppressed, locations, recovery_needed) {
        (
            Some(next_ordinal),
            Some(entries),
            Some(watermarks),
            Some(policy),
            Some(suppressed),
            Some(locations),
            Some(recovery_needed),
        ) => Some(
            BeaconState::assemble(
                STATE_VERSION,
                next_ordinal,
                entries,
                watermarks,
                policy,
                suppressed,
                locations,
                recovery_needed,
            ),
        ),
        _ => None,
    }
}

/// Reads a stored state from its JSON document.
pub fn read_state(value: &Json) -> (outcome: Result<BeaconState, BeaconError>)
    ensures
        restores(value@, outcome),
{
    let version: u64 = match number_in(value.part(0, "version")) {
        Some(version) => version,
        None => {
            return Err(BeaconError::InvalidState);
        },
    };
    if version > u32::MAX as u64 {
        return Err(BeaconError::InvalidState);
    }
    let state = if version == LEGACY_VERSION {
        read_legacy(value)
    } else if version == STATE_VERSION as u64 {
        read_current(value)
    } else {
        return Err(BeaconError::UnsupportedVersion(version as u32));
    };
    match state {
        None => Err(BeaconError::InvalidState),
        Some(state) => {
            let verdict = state.validate();
            assert(crate::model::validates(state@, verdict));
            match verdict {
                Ok(()) => Ok(state),
                Err(error) => Err(error),
            }
        },
    }
}

/// A map of records as it should be written: each record can be read, also one that a
/// later record under the same key replaces, and none has a field twice.
pub open spec fn map_kept<V: Stored>(text: Seq<u8>) -> bool {
    &&& crate::record::parts(text) matches Some(PartsView::Fields(fields))
    &&& forall|i: int|
        0 <= i < fields.len() ==> record_kept::<V>((#[trigger] fields[i]).1)
}

/// A record as it should be written.
pub open spec fn record_kept<V: Stored>(text: Seq<u8>) -> bool {
    &&& crate::record::unrepeated(text)
    &&& crate::json::json_document(text) matches Some(value)
    &&& V::at(value) is Some
}

/// A part of a state as it should be written.
pub open spec fn part_kept(name: Seq<char>, text: Seq<u8>) -> bool {
    if name == "entries"@ {
        map_kept::<UnreadEntry>(text)
    } else if name == "watermarks"@ {
        map_kept::<Watermark>(text)
    } else if name == "suppressed"@ {
        map_kept::<Suppression>(text)
    } else {
        crate::record::unrepeated(text)
    }
}

/// A state as it should be written: no record has a field twice, and every entry,
/// watermark and suppression can be read.
pub open spec fn state_kept(text: Seq<u8>) -> bool {
    match crate::record::parts(text) {
        Some(PartsView::Fields(fields)) => {
            &&& crate::record::distinct_names(fields)
            &&& forall|i: int|
                0 <= i < fields.len() ==> part_kept((#[trigger] fields[i]).0, fields[i].1)
        },
        Some(PartsView::Items(items)) => forall|i: int|
            0 <= i < items.len() && i < state_names().len() ==> part_kept(
                state_names()[i],
                #[trigger] items[i],
            ),
        None => false,
    }
}

fn keeps_record<V: Stored>(text: &[u8]) -> (kept: bool)
    ensures
        kept == record_kept::<V>(text@),
{
    if !is_unrepeated(text) {
        return false;
    }
    match read_json(text) {
        Ok(value) => V::read(&value).is_some(),
        Err(_) => false,
    }
}

fn keeps_map<V: Stored>(text: &[u8]) -> (kept: bool)
    ensures
        kept == map_kept::<V>(text@),
{
    match read_parts(text) {
        Some(Parts::Fields(fields)) => {
            let ghost all = crate::record::fields_seen(fields@);
            let mut i: usize = 0;
            while i < fields.len()
                invariant
                    i <= fields.len(),
                    all == crate::record::fields_seen(fields@),
                    crate::record::parts(text@) == Some(PartsView::Fields(all)),
                    forall|j: int| 0 <= j < i ==> record_kept::<V>((#[trigger] all[j]).1),
                decreases fields.len() - i,
            {
                assert(all[i as int].1 == fields@[i as int].1@);
                if !keeps_record::<V>(fields[i].1.as_slice()) {
                    assert(!record_kept::<V>(
                        crate::record::parts(text@)->0->Fields_0[i as int].1,
                    ));
                    return false;
                }
                i = i + 1;
            }
            true
        },
        _ => false,
    }
}

fn keeps_part(name: &str, text: &[u8]) -> (kept: bool)
    ensures
        kept == part_kept(name@, text@),
{
    if same(name, "entries") {
        keeps_map::<UnreadEntry>(text)
    } else if same(name, "watermarks") {
        keeps_map::<Watermark>(text)
    } else if same(name, "suppressed") {
        keeps_map::<Suppression>(text)
    } else {
        is_unrepeated(text)
    }
}

fn keeps_state(text: &[u8]) -> (kept: bool)
    ensures
        kept == state_kept(text@),
{
    match read_parts(text) {
        Some(Parts::Fields(fields)) => {
            let ghost all = crate::record::fields_seen(fields@);
            if !has_distinct_names(&fields) {
                return false;
            }
            let mut i: usize = 0;
            while i < fields.len()
                invariant
                    i <= fields.len(),
                    all == crate::record::fields_seen(fields@),
                    crate::record::parts(text@) == Some(PartsView::Fields(all)),
                    forall|j: int| 0 <= j < i ==> part_kept((#[trigger] all[j]).0, all[j].1),
                decreases fields.len() - i,
            {
                assert(all[i as int] == (fields@[i as int].0@, fields@[i as int].1@));
                if !keeps_part(&fields[i].0, fields[i].1.as_slice()) {
                    proof {
                        let field = crate::record::parts(text@)->0->Fields_0[i as int];
                        assert(!part_kept(field.0, field.1));
                    }
                    return false;
                }
                i = i + 1;
            }
            true
        },
        Some(Parts::Items(items)) => {
            let ghost all = crate::record::items_seen(items@);
            let names = vec![
                "version",
                "next_ordinal",
                "entries",
                "watermarks",
                "policy",
                "suppressed",
                "locations",
                "recovery_needed",
            ];
            let ghost expected = names@.map_values(|name: &str| name@);
            assert(expected =~= state_names());
            let mut i: usize = 0;
            while i < items.len() && i < names.len()
                invariant
                    i <= items.len(),
                    i <= names.len(),
                    names@.len() == state_names().len(),
                    expected == names@.map_values(|name: &str| name@),
                    expected == state_names(),
                    all == crate::record::items_seen(items@),
                    crate::record::parts(text@) == Some(PartsView::Items(all)),
                    forall|j: int| 0 <= j < i ==> part_kept(state_names()[j], #[trigger] all[j]),
                decreases items.len() - i,
            {
                assert(all[i as int] == items@[i as int]@);
                assert(expected[i as int] == names@[i as int]@);
                if !keeps_part(names[i], items[i].as_slice()) {
                    assert(!part_kept(
                        state_names()[i as int],
                        crate::record::parts(text@)->0->Items_0[i as int],
                    ));
                    return false;
                }
                i = i + 1;
            }
            true
        },
        None => false,
    }
}

/// Reads a stored state.
pub fn decode_state(bytes: &[u8]) -> (outcome: Result<BeaconState, BeaconError>)
    ensures
        decodes(bytes@, outcome),
{
    // A file that is no JSON, or that is nested too deep, is not taken apart.
    match read_json(bytes) {
        Err(_) => Err(BeaconError::InvalidState),
        Ok(value) => if keeps_state(bytes) {
            read_state(&value)
        } else {
            Err(BeaconError::InvalidState)
        },
    }
}

/// How reading a state file ends.
pub open spec fn decodes(bytes: Seq<u8>, outcome: Result<BeaconState, BeaconError>) -> bool {
    match crate::json::json_document(bytes) {
        Some(value) => if state_kept(bytes) {
            restores(value, outcome)
        } else {
            outcome matches Err(error) && error is InvalidState
        },
        None => outcome matches Err(error) && error is InvalidState,
    }
}

/// A map of records is written as it should be.
proof fn lemma_map_kept<V: Stored>(text: Seq<u8>, keys: Seq<Seq<char>>, values: Seq<V::V>)
    requires
        crate::record::spells(text, JsonView::Object(map_json::<V>(keys, values))),
        JsonView::Object(map_json::<V>(keys, values)).fits(5),
    ensures
        map_kept::<V>(text),
{
    let fields = map_json::<V>(keys, values);
    let written = crate::record::parts(text)->0->Fields_0;
    assert forall|i: int| 0 <= i < written.len() implies record_kept::<V>(
        (#[trigger] written[i]).1,
    ) by {
        assert(fields[i] == (keys[i], V::json(values[i])));
        V::lemma_read_back(values[i]);
        assert(crate::record::spells(written[i].1, fields[i].1));
        crate::record::lemma_spelled_once(written[i].1, fields[i].1, 4);
    }
}

/// A JSON value that describes the ledger, and nothing else.
pub open spec fn describes(value: JsonView, ledger: Ledger) -> bool {
    version_at(value) == Some(ledger.version as u64) && current_at(value) == Some(
        Ledger { version: STATE_VERSION, ..ledger },
    )
}

/// A JSON object with the values of a map, its keys in ascending order.
pub open spec fn lists<V: Stored>(value: JsonView, map: Map<Seq<char>, V::V>) -> bool {
    &&& value matches JsonView::Object(fields)
    &&& forall|i: int, j: int|
        0 <= i < j < fields.len() ==> crate::text::precedes(
            (#[trigger] fields[i]).0,
            (#[trigger] fields[j]).0,
        )
    &&& forall|i: int|
        0 <= i < fields.len() ==> map.contains_key((#[trigger] fields[i]).0) && fields[i].1
            == V::json(map[fields[i].0])
    &&& forall|key: Seq<char>| #[trigger] map.contains_key(key) ==> names_of(fields).contains(key)
}

/// How a ledger is laid out: every field in the order of its declaration.
pub open spec fn is_laid_out(value: JsonView, ledger: Ledger) -> bool {
    &&& value matches JsonView::Object(fields)
    &&& names_of(fields) == state_names()
    &&& fields[0].1 == JsonView::Number(ledger.version as u64)
    &&& fields[1].1 == JsonView::Number(ledger.next_ordinal)
    &&& lists::<UnreadEntry>(fields[2].1, ledger.entries)
    &&& lists::<Watermark>(fields[3].1, ledger.watermarks)
    &&& fields[4].1 == policy_json(ledger.policy)
    &&& lists::<Suppression>(fields[5].1, ledger.suppressed)
    &&& fields[6].1 == places_json(ledger.locations)
    &&& fields[7].1 == JsonView::Bool(ledger.recovery_needed)
}

proof fn lemma_map_listed<V: Stored>(map: &TextMap<V>)
    requires
        map.wf(),
    ensures
        lists::<V>(JsonView::Object(map_json::<V>(map.order(), map.contents())), map@),
{
    let fields = map_json::<V>(map.order(), map.contents());
    assert forall|i: int, j: int| 0 <= i < j < fields.len() implies crate::text::precedes(
        (#[trigger] fields[i]).0,
        (#[trigger] fields[j]).0,
    ) by {
        assert(crate::text::precedes(map.order()[i], map.order()[j]));
    }
    assert forall|i: int| 0 <= i < fields.len() implies map@.contains_key(
        (#[trigger] fields[i]).0,
    ) && fields[i].1 == V::json(map@[fields[i].0]) by {
        map.lemma_position(i);
    }
    assert forall|key: Seq<char>| #[trigger] map@.contains_key(key) implies names_of(
        fields,
    ).contains(key) by {
        let i = map.lemma_key(key);
        assert(names_of(fields)[i] == key);
    }
}

/// How writing a state ends: what is written describes the ledger.
pub open spec fn encodes(ledger: Ledger, outcome: Result<Vec<u8>, BeaconError>) -> bool {
    match outcome {
        Ok(bytes) => {
            &&& crate::json::json_document(bytes@) matches Some(value)
            &&& describes(value, ledger)
            &&& is_laid_out(value, ledger)
            &&& state_kept(bytes@)
        },
        Err(error) => error is StateEncoding && exists|value: JsonView| #[trigger]
            describes(value, ledger) && crate::json::json_bytes(value) is None,
    }
}

/// The names of the maps in a state are told apart from the other names.
proof fn lemma_state_part_names(name: Seq<char>)
    ensures
        "entries"@ != "watermarks"@,
        "entries"@ != "suppressed"@,
        "watermarks"@ != "suppressed"@,
        name == "locations"@ || name == "next_ordinal"@ || name == "policy"@ || name
            == "recovery_needed"@ || name == "version"@ ==> name != "entries"@ && name
            != "watermarks"@ && name != "suppressed"@,
{
    reveal_strlit("entries");
    reveal_strlit("locations");
    reveal_strlit("next_ordinal");
    reveal_strlit("policy");
    reveal_strlit("recovery_needed");
    reveal_strlit("suppressed");
    reveal_strlit("version");
    reveal_strlit("watermarks");
    assert("entries"@[0] == 'e' && "watermarks"@[0] == 'w' && "suppressed"@[0] == 's');
    assert("locations"@[0] == 'l' && "next_ordinal"@[0] == 'n' && "policy"@[0] == 'p');
    assert("recovery_needed"@[0] == 'r' && "version"@[0] == 'v');
}

/// An object with the eight fields of a state describes the ledger that they hold.
proof fn lemma_state_described(fields: Seq<(Seq<char>, JsonView)>, ledger: Ledger)
    requires
        names_of(fields) == state_names(),
        fields.len() == 8,
        fields[0].1 == JsonView::Number(ledger.version as u64),
        fields[1].1 == JsonView::Number(ledger.next_ordinal),
        map_in::<UnreadEntry>(Some(fields[2].1)) == Some(ledger.entries),
        fields[2].1.fits(5),
        map_in::<Watermark>(Some(fields[3].1)) == Some(ledger.watermarks),
        fields[3].1.fits(5),
        fields[4].1 == policy_json(ledger.policy),
        map_in::<Suppression>(Some(fields[5].1)) == Some(ledger.suppressed),
        fields[5].1.fits(5),
        fields[6].1 == places_json(ledger.locations),
        fields[7].1 == JsonView::Bool(ledger.recovery_needed),
    ensures
        describes(JsonView::Object(fields), ledger),
        JsonView::Object(fields).fits(WRITABLE_LEVELS as nat),
{
    lemma_state_names_are_distinct();
    lemma_record(fields, state_names());
    lemma_places_read_back(ledger.locations);
    if let Some(stamp) = ledger.policy {
        PolicyStamp::lemma_read_back(stamp);
        lemma_fits_deeper(PolicyStamp::json(stamp), 4, 5);
    }
    assert(fields[0].0 == "version"@ && fields[1].0 == "next_ordinal"@);
    assert(fields[2].0 == "entries"@ && fields[3].0 == "watermarks"@);
    assert(fields[4].0 == "policy"@ && fields[5].0 == "suppressed"@);
    assert(fields[6].0 == "locations"@ && fields[7].0 == "recovery_needed"@);
    assert forall|i: int| 0 <= i < fields.len() implies (#[trigger] fields[i]).1.fits(5) by {}
    assert(JsonView::Object(fields).fits(6));
    lemma_fits_deeper(JsonView::Object(fields), 6, WRITABLE_LEVELS as nat);
}

/// Writes a state down.
pub fn encode_state(state: &BeaconState) -> (outcome: Result<Vec<u8>, BeaconError>)
    requires
        state.wf(),
    ensures
        encodes(state@, outcome),
{
    let entries = state.entries();
    let suppressed = state.suppressed();
    let watermarks = state.watermarks();
    let fields = vec![
        ("version".to_owned(), Json::Number(state.version() as u64)),
        ("next_ordinal".to_owned(), Json::Number(state.next_ordinal())),
        ("entries".to_owned(), write_map(entries)),
        ("watermarks".to_owned(), write_map(watermarks)),
        ("policy".to_owned(), write_policy(state.policy())),
        ("suppressed".to_owned(), write_map(suppressed)),
        ("locations".to_owned(), write_places(state.locations())),
        ("recovery_needed".to_owned(), Json::Bool(state.recovery_needed())),
    ];
    let ghost seen = crate::json::fields_seen(fields@);
    proof {
        crate::json::lemma_object(fields);
        lemma_map_read_back(entries);
        lemma_map_read_back(suppressed);
        lemma_map_read_back(watermarks);
        assert(names_of(seen) =~= state_names());
        lemma_state_described(seen, state@);
        lemma_map_listed(entries);
        lemma_map_listed(suppressed);
        lemma_map_listed(watermarks);
        assert(is_laid_out(JsonView::Object(seen), state@));
    }
    let value = Json::Object(fields);
    match write_json(&value) {
        Some(bytes) => {
            proof {
                let written = crate::record::parts(bytes@)->0->Fields_0;
                assert(written.len() == seen.len());
                crate::record::lemma_spelled_once(bytes@, value@, WRITABLE_LEVELS as nat);
                assert(seen[2].0 == "entries"@ && seen[3].0 == "watermarks"@);
                assert(seen[5].0 == "suppressed"@);
                assert(crate::record::spells(written[2].1, seen[2].1));
                assert(crate::record::spells(written[3].1, seen[3].1));
                assert(crate::record::spells(written[5].1, seen[5].1));
                lemma_map_kept::<UnreadEntry>(
                    written[2].1,
                    entries.order(),
                    entries.contents(),
                );
                lemma_map_kept::<Watermark>(
                    written[3].1,
                    watermarks.order(),
                    watermarks.contents(),
                );
                lemma_map_kept::<Suppression>(
                    written[5].1,
                    suppressed.order(),
                    suppressed.contents(),
                );
                assert forall|i: int| 0 <= i < written.len() implies part_kept(
                    (#[trigger] written[i]).0,
                    written[i].1,
                ) by {
                    lemma_state_part_names(seen[i].0);
                    assert(written[i].0 == seen[i].0);
                    assert(names_of(seen)[i] == seen[i].0);
                }
            }
            Ok(bytes)
        },
        None => {
            assert(describes(value@, state@));
            Err(BeaconError::StateEncoding)
        },
    }
}

/// What is saved is restored: the bytes that a valid state is written as are read
/// back as a state with the same ledger.
pub proof fn law_saved_state_is_restored(
    ledger: Ledger,
    written: Result<Vec<u8>, BeaconError>,
    bytes: Vec<u8>,
    read: Result<BeaconState, BeaconError>,
)
    requires
        ledger.valid(),
        written == Ok::<Vec<u8>, BeaconError>(bytes),
        encodes(ledger, written),
        decodes(bytes@, read),
    ensures
        read matches Ok(state) && state.wf() && state@ == ledger,
{
    let value = crate::json::json_document(bytes@)->0;
    assert(describes(value, ledger));
    assert(ledger_at(STATE_VERSION as u64, value) == Some(ledger));
}

/// An older state keeps its entries and its confirmed clearing evidence when it is
/// brought to the current version; nothing is suppressed and no recovery is asked
/// for.
pub proof fn law_migration_keeps_the_queue(value: JsonView)
    requires
        legacy_at(value) is Some,
    ensures
        ({
            let ledger = legacy_at(value)->0;
            &&& ledger.version == STATE_VERSION
            &&& Some(ledger.entries) == map_in::<UnreadEntry>(value.part(2, "entries"@))
            &&& Some(ledger.watermarks) == map_in::<Watermark>(value.part(3, "watermarks"@))
            &&& ledger.suppressed == Map::<Seq<char>, Held>::empty()
            &&& ledger.policy is None
            &&& !ledger.recovery_needed
        }),
{
}

/// The value is an object with no other names than these.
pub open spec fn names_only(value: JsonView, names: Seq<Seq<char>>) -> bool {
    value matches JsonView::Object(fields) && forall|i: int|
        0 <= i < fields.len() ==> names.contains((#[trigger] fields[i]).0)
}

/// The value gives an optional number: the number, or `null` or nothing for none.
pub open spec fn gives_option(value: JsonView, name: Seq<char>, number: Option<u64>) -> bool {
    match number {
        Some(number) => crate::json::has(value, name, JsonView::Number(number)),
        None => crate::json::lacks(value, name) || crate::json::has(value, name, JsonView::Null),
    }
}

/// The value gives a list of texts.
pub open spec fn gives_texts(value: JsonView, name: Seq<char>, texts: Seq<Seq<char>>) -> bool {
    exists|list: Seq<JsonView>|
        {
            &&& #[trigger] crate::json::has(value, name, JsonView::List(list))
            &&& list.len() == texts.len()
            &&& forall|i: int|
                0 <= i < list.len() ==> #[trigger] list[i] == JsonView::Text(texts[i])
        }
}

/// A stored object gives an entry under the names of its fields.
pub open spec fn gives_entry(value: JsonView, entry: Pending) -> bool {
    &&& crate::json::has(value, "pane_id"@, JsonView::Text(entry.pane_id))
    &&& crate::json::has(value, "terminal_id"@, JsonView::Text(entry.terminal_id))
    &&& crate::json::has(value, "workspace_id"@, JsonView::Text(entry.workspace_id))
    &&& exists|status: JsonView|
        {
            &&& #[trigger] crate::json::has(value, "status"@, status)
            &&& crate::herdr::gives_status(status, entry.status)
        }
    &&& crate::json::has(value, "state_change_seq"@, JsonView::Number(entry.state_change_seq))
    &&& crate::json::has(value, "ordinal"@, JsonView::Number(entry.ordinal))
    &&& names_only(
        value,
        seq![
            "pane_id"@,
            "terminal_id"@,
            "workspace_id"@,
            "status"@,
            "state_change_seq"@,
            "ordinal"@,
        ],
    )
}

/// A stored object gives a watermark under the names of its fields.
pub open spec fn gives_mark(value: JsonView, mark: Mark) -> bool {
    &&& crate::json::has(value, "terminal_id"@, JsonView::Text(mark.terminal_id))
    &&& crate::json::has(value, "state_change_seq"@, JsonView::Number(mark.state_change_seq))
    &&& gives_option(value, "cleared_through"@, mark.cleared_through)
    &&& names_only(value, seq!["terminal_id"@, "state_change_seq"@, "cleared_through"@])
}

/// A stored object gives a suppression under the names of its fields.
pub open spec fn gives_held(value: JsonView, held: Held) -> bool {
    &&& crate::json::has(value, "state_change_seq"@, JsonView::Number(held.state_change_seq))
    &&& gives_option(value, "cleared_through"@, held.cleared_through)
    &&& names_only(value, seq!["state_change_seq"@, "cleared_through"@])
}

/// A stored object gives a policy stamp under the names of its fields.
pub open spec fn gives_stamp(value: JsonView, stamp: Stamp) -> bool {
    &&& crate::json::has(value, "session"@, JsonView::Text(stamp.session))
    &&& gives_texts(value, "labels"@, stamp.labels)
    &&& gives_texts(value, "excluded"@, stamp.excluded)
    &&& names_only(value, seq!["session"@, "labels"@, "excluded"@])
}

/// A stored object gives a location under the names of its fields.
pub open spec fn gives_place(value: JsonView, place: Place) -> bool {
    &&& crate::json::has(value, "terminal_id"@, JsonView::Text(place.terminal_id))
    &&& crate::json::has(value, "pane_id"@, JsonView::Text(place.pane_id))
    &&& crate::json::has(value, "workspace_id"@, JsonView::Text(place.workspace_id))
    &&& names_only(value, seq!["terminal_id"@, "pane_id"@, "workspace_id"@])
}

proof fn lemma_gives_option(value: JsonView, name: Seq<char>, number: Option<u64>)
    requires
        value is Object,
    ensures
        gives_option(value, name, number) <==> option_at(value.field(name)) == Some(number),
{
    crate::json::law_field_is_the_first_of_its_name(value, name, JsonView::Null);
    if let Some(number) = number {
        crate::json::law_field_is_the_first_of_its_name(value, name, JsonView::Number(number));
    }
}

/// A list of texts is given under a name exactly if it is read from there.
pub proof fn lemma_gives_texts(value: JsonView, name: Seq<char>, texts: Seq<Seq<char>>)
    requires
        value is Object,
    ensures
        gives_texts(value, name, texts) <==> crate::json::texts_at(value.field(name)) == Some(
            texts,
        ),
{
    let found = value.field(name);
    if found is Some {
        crate::json::law_field_is_the_first_of_its_name(value, name, found->0);
        crate::json::law_text_lists_hold_texts_alone(found->0, texts);
        if let JsonView::List(list) = found->0 {
            assert(crate::json::has(value, name, JsonView::List(list)));
        }
    }
    assert forall|list: Seq<JsonView>| #[trigger]
        crate::json::has(value, name, JsonView::List(list)) implies found == Some(
        JsonView::List(list),
    ) by {
        crate::json::law_field_is_the_first_of_its_name(value, name, JsonView::List(list));
    }
}

/// An entry is read exactly by what stands under the names of its fields, its status by
/// the status's wire name, and with nothing else beside them.
pub proof fn law_entries_are_read_by_name(value: JsonView, entry: Pending)
    requires
        value is Object,
    ensures
        UnreadEntry::at(value) == Some(entry) <==> gives_entry(value, entry),
{
    crate::json::law_field_is_the_first_of_its_name(
        value,
        "pane_id"@,
        JsonView::Text(entry.pane_id),
    );
    crate::json::law_field_is_the_first_of_its_name(
        value,
        "terminal_id"@,
        JsonView::Text(entry.terminal_id),
    );
    crate::json::law_field_is_the_first_of_its_name(
        value,
        "workspace_id"@,
        JsonView::Text(entry.workspace_id),
    );
    crate::json::law_field_is_the_first_of_its_name(
        value,
        "state_change_seq"@,
        JsonView::Number(entry.state_change_seq),
    );
    crate::json::law_field_is_the_first_of_its_name(
        value,
        "ordinal"@,
        JsonView::Number(entry.ordinal),
    );
    let found = value.field("status"@);
    crate::json::law_field_is_the_first_of_its_name(value, "status"@, found->0);
    assert forall|status: JsonView| #[trigger]
        crate::json::has(value, "status"@, status) implies found == Some(status) by {
        crate::json::law_field_is_the_first_of_its_name(value, "status"@, status);
    }
    if found is Some {
        assert(crate::json::has(value, "status"@, found->0));
        crate::herdr::law_statuses_have_their_wire_names(found->0, entry.status);
    }
    assert(entry_names() =~= seq![
        "pane_id"@,
        "terminal_id"@,
        "workspace_id"@,
        "status"@,
        "state_change_seq"@,
        "ordinal"@,
    ]);
}

/// A watermark, a suppression, a policy stamp and a location are read exactly by what
/// stands under the names of their fields, and with nothing else beside them.
pub proof fn law_records_are_read_by_name(
    value: JsonView,
    mark: Mark,
    held: Held,
    stamp: Stamp,
    place: Place,
)
    requires
        value is Object,
    ensures
        Watermark::at(value) == Some(mark) <==> gives_mark(value, mark),
        Suppression::at(value) == Some(held) <==> gives_held(value, held),
        PolicyStamp::at(value) == Some(stamp) <==> gives_stamp(value, stamp),
        Location::at(value) == Some(place) <==> gives_place(value, place),
{
    crate::json::law_field_is_the_first_of_its_name(
        value,
        "terminal_id"@,
        JsonView::Text(mark.terminal_id),
    );
    crate::json::law_field_is_the_first_of_its_name(
        value,
        "state_change_seq"@,
        JsonView::Number(mark.state_change_seq),
    );
    lemma_gives_option(value, "cleared_through"@, mark.cleared_through);
    assert(Watermark::at(value) == Some(mark) <==> gives_mark(value, mark));
    crate::json::law_field_is_the_first_of_its_name(
        value,
        "state_change_seq"@,
        JsonView::Number(held.state_change_seq),
    );
    lemma_gives_option(value, "cleared_through"@, held.cleared_through);
    assert(Suppression::at(value) == Some(held) <==> gives_held(value, held));
    crate::json::law_field_is_the_first_of_its_name(
        value,
        "session"@,
        JsonView::Text(stamp.session),
    );
    lemma_gives_texts(value, "labels"@, stamp.labels);
    lemma_gives_texts(value, "excluded"@, stamp.excluded);
    assert(PolicyStamp::at(value) == Some(stamp) <==> gives_stamp(value, stamp));
    crate::json::law_field_is_the_first_of_its_name(
        value,
        "terminal_id"@,
        JsonView::Text(place.terminal_id),
    );
    crate::json::law_field_is_the_first_of_its_name(
        value,
        "pane_id"@,
        JsonView::Text(place.pane_id),
    );
    crate::json::law_field_is_the_first_of_its_name(
        value,
        "workspace_id"@,
        JsonView::Text(place.workspace_id),
    );
}

/// What is written of a record gives that record.
pub proof fn law_records_are_written_by_name(
    entry: Pending,
    mark: Mark,
    held: Held,
    stamp: Stamp,
    place: Place,
)
    ensures
        gives_entry(UnreadEntry::json(entry), entry),
        gives_mark(Watermark::json(mark), mark),
        gives_held(Suppression::json(held), held),
        gives_stamp(PolicyStamp::json(stamp), stamp),
        gives_place(Location::json(place), place),
{
    UnreadEntry::lemma_read_back(entry);
    law_entries_are_read_by_name(UnreadEntry::json(entry), entry);
    Watermark::lemma_read_back(mark);
    law_records_are_read_by_name(Watermark::json(mark), mark, held, stamp, place);
    Suppression::lemma_read_back(held);
    law_records_are_read_by_name(Suppression::json(held), mark, held, stamp, place);
    PolicyStamp::lemma_read_back(stamp);
    law_records_are_read_by_name(PolicyStamp::json(stamp), mark, held, stamp, place);
    Location::lemma_read_back(place);
    law_records_are_read_by_name(Location::json(place), mark, held, stamp, place);
}

/// A stored map has a key for every name of the object, and for no other; a name that
/// is repeated has its last value.
pub proof fn law_maps_take_the_last_of_a_name<V: Stored>(
    fields: Seq<(Seq<char>, JsonView)>,
    map: Map<Seq<char>, V::V>,
)
    requires
        map_at::<V>(fields) == Some(map),
    ensures
        forall|key: Seq<char>| #[trigger]
            map.dom().contains(key) <==> exists|i: int|
                0 <= i < fields.len() && (#[trigger] fields[i]).0 == key,
        forall|i: int|
            0 <= i < fields.len() && (forall|j: int|
                i < j < fields.len() ==> (#[trigger] fields[j]).0 != fields[i].0) ==> V::at(
                (#[trigger] fields[i]).1,
            ) == Some(map[fields[i].0]),
    decreases fields.len(),
{
    if fields.len() > 0 {
        let rest = fields.drop_last();
        let last = fields.len() - 1;
        let earlier = map_at::<V>(rest)->0;
        law_maps_take_the_last_of_a_name::<V>(rest, earlier);
        assert forall|key: Seq<char>| #[trigger] map.dom().contains(key) implies exists|i: int|
            0 <= i < fields.len() && (#[trigger] fields[i]).0 == key by {
            if key == fields[last].0 {
                assert(fields[last].0 == key);
            } else {
                assert(earlier.dom().contains(key));
                let i = choose|i: int| 0 <= i < rest.len() && (#[trigger] rest[i]).0 == key;
                assert(fields[i].0 == key);
            }
        }
        assert forall|key: Seq<char>|
            (exists|i: int| 0 <= i < fields.len() && (#[trigger] fields[i]).0 == key) implies
            #[trigger] map.dom().contains(key) by {
            let i = choose|i: int| 0 <= i < fields.len() && (#[trigger] fields[i]).0 == key;
            if i < last {
                assert(rest[i].0 == key);
                assert(earlier.dom().contains(key));
            }
        }
        assert forall|i: int|
            0 <= i < fields.len() && (forall|j: int|
                i < j < fields.len() ==> (#[trigger] fields[j]).0 != fields[i].0) implies V::at(
            (#[trigger] fields[i]).1,
        ) == Some(map[fields[i].0]) by {
            if i < last {
                assert(fields[last].0 != fields[i].0);
                assert(rest[i] == fields[i]);
                assert forall|j: int| i < j < rest.len() implies (#[trigger] rest[j]).0
                    != rest[i].0 by {
                    assert(fields[j].0 != fields[i].0);
                }
            }
        }
    }
}

/// A state file is laid out under the names of its parts, in order, and every pending
/// entry, watermark and suppression stands in it under its key.
pub proof fn law_saved_state_has_its_names(
    ledger: Ledger,
    bytes: Vec<u8>,
    key: Seq<char>,
)
    requires
        encodes(ledger, Ok(bytes)),
    ensures
        ({
            &&& crate::json::json_document(bytes@) matches Some(JsonView::Object(fields))
            &&& fields.len() == 8
            &&& fields[0] == ("version"@, JsonView::Number(ledger.version as u64))
            &&& fields[1] == ("next_ordinal"@, JsonView::Number(ledger.next_ordinal))
            &&& fields[2].0 == "entries"@
            &&& fields[3].0 == "watermarks"@
            &&& fields[4].0 == "policy"@
            &&& fields[5].0 == "suppressed"@
            &&& fields[6].0 == "locations"@
            &&& fields[7] == ("recovery_needed"@, JsonView::Bool(ledger.recovery_needed))
            &&& match ledger.policy {
                Some(stamp) => gives_stamp(fields[4].1, stamp),
                None => fields[4].1 == JsonView::Null,
            }
            &&& ledger.entries.dom().contains(key) ==> holds_entry(
                fields[2].1,
                key,
                ledger.entries[key],
            )
            &&& ledger.watermarks.dom().contains(key) ==> holds_mark(
                fields[3].1,
                key,
                ledger.watermarks[key],
            )
            &&& ledger.suppressed.dom().contains(key) ==> holds_held(
                fields[5].1,
                key,
                ledger.suppressed[key],
            )
            &&& fields[6].1 matches JsonView::List(places)
            &&& places.len() == ledger.locations.len()
            &&& forall|i: int|
                0 <= i < places.len() ==> gives_place(
                    #[trigger] places[i],
                    ledger.locations[i],
                )
        }),
{
    let value = crate::json::json_document(bytes@)->0;
    let fields = value->Object_0;
    let names = names_of(fields);
    assert(names == state_names());
    assert(names.len() == fields.len());
    assert(names[0] == fields[0].0 && names[1] == fields[1].0 && names[2] == fields[2].0);
    assert(names[3] == fields[3].0 && names[4] == fields[4].0 && names[5] == fields[5].0);
    assert(names[6] == fields[6].0 && names[7] == fields[7].0);
    let entry = ledger.entries[key];
    let mark = ledger.watermarks[key];
    let held = ledger.suppressed[key];
    let stamp = ledger.policy->0;
    let places = places_json(ledger.locations)->List_0;
    assert forall|i: int| 0 <= i < places.len() implies gives_place(
        #[trigger] places[i],
        ledger.locations[i],
    ) by {
        law_records_are_written_by_name(entry, mark, held, stamp, ledger.locations[i]);
    }
    law_records_are_written_by_name(entry, mark, held, stamp, ledger.locations[0]);
    if ledger.entries.dom().contains(key) {
        lemma_listed::<UnreadEntry>(fields[2].1, ledger.entries, key);
        assert(holds_entry(fields[2].1, key, entry));
    }
    if ledger.watermarks.dom().contains(key) {
        lemma_listed::<Watermark>(fields[3].1, ledger.watermarks, key);
        assert(holds_mark(fields[3].1, key, mark));
    }
    if ledger.suppressed.dom().contains(key) {
        lemma_listed::<Suppression>(fields[5].1, ledger.suppressed, key);
        assert(holds_held(fields[5].1, key, held));
    }
    assert(value == JsonView::Object(fields));
}

/// An object has an entry under a key.
pub open spec fn holds_entry(value: JsonView, key: Seq<char>, entry: Pending) -> bool {
    exists|part: JsonView| #[trigger]
        crate::json::has(value, key, part) && gives_entry(part, entry)
}

/// An object has a watermark under a key.
pub open spec fn holds_mark(value: JsonView, key: Seq<char>, mark: Mark) -> bool {
    exists|part: JsonView| #[trigger]
        crate::json::has(value, key, part) && gives_mark(part, mark)
}

/// An object has a suppression under a key.
pub open spec fn holds_held(value: JsonView, key: Seq<char>, held: Held) -> bool {
    exists|part: JsonView| #[trigger]
        crate::json::has(value, key, part) && gives_held(part, held)
}

proof fn lemma_listed<V: Stored>(value: JsonView, map: Map<Seq<char>, V::V>, key: Seq<char>)
    requires
        lists::<V>(value, map),
        map.contains_key(key),
    ensures
        crate::json::has(value, key, V::json(map[key])),
{
    let fields = value->Object_0;
    assert(names_of(fields).contains(key));
    let i = choose|i: int| 0 <= i < names_of(fields).len() && names_of(fields)[i] == key;
    assert(fields[i].0 == key);
    assert(fields[i] == (key, V::json(map[key])));
    assert forall|j: int| 0 <= j < i implies (#[trigger] fields[j]).0 != key by {
        crate::text::lemma_precedes_asymmetric(fields[j].0, key);
    }
}

/// A stored state is judged by the number under `version`: 2 is read as it is, 1 is
/// brought up to 2, any other version is refused as unsupported, and without one there
/// is no state to read.
pub proof fn law_versions_are_told_apart(
    value: JsonView,
    outcome: Result<BeaconState, BeaconError>,
    version: u64,
)
    requires
        value is Object,
        restores(value, outcome),
    ensures
        crate::json::has(value, "version"@, JsonView::Number(version)) && version != 1 && version
            != 2 && version <= u32::MAX ==> (outcome matches Err(BeaconError::UnsupportedVersion(
            found,
        )) && found == version),
        outcome is Ok ==> crate::json::has(value, "version"@, JsonView::Number(1))
            || crate::json::has(value, "version"@, JsonView::Number(2)),
        outcome matches Ok(state) ==> state@.version == 2 && crate::json::has(
            value,
            "next_ordinal"@,
            JsonView::Number(state@.next_ordinal),
        ),
        crate::json::has(value, "version"@, JsonView::Number(2)) ==> (outcome matches Ok(state)
            ==> crate::json::has(
            value,
            "recovery_needed"@,
            JsonView::Bool(state@.recovery_needed),
        )),
        crate::json::has(value, "version"@, JsonView::Number(1)) ==> (outcome matches Ok(state)
            ==> !state@.recovery_needed && state@.policy is None && state@.suppressed == Map::<
            Seq<char>,
            Held,
        >::empty() && state@.locations == Seq::<Place>::empty()),
        crate::json::lacks(value, "version"@) ==> (outcome matches Err(
            BeaconError::InvalidState,
        )),
{
    crate::json::law_field_is_the_first_of_its_name(
        value,
        "version"@,
        JsonView::Number(version),
    );
    crate::json::law_field_is_the_first_of_its_name(value, "version"@, JsonView::Number(1));
    crate::json::law_field_is_the_first_of_its_name(value, "version"@, JsonView::Number(2));
    if let Ok(state) = outcome {
        crate::json::law_field_is_the_first_of_its_name(
            value,
            "next_ordinal"@,
            JsonView::Number(state@.next_ordinal),
        );
        crate::json::law_field_is_the_first_of_its_name(
            value,
            "recovery_needed"@,
            JsonView::Bool(state@.recovery_needed),
        );
    }
}

/// The last field of the name holds the part.
pub open spec fn has_last(value: JsonView, name: Seq<char>, part: JsonView) -> bool {
    &&& value matches JsonView::Object(fields)
    &&& exists|i: int|
        0 <= i < fields.len() && #[trigger] fields[i] == (name, part) && forall|j: int|
            i < j < fields.len() ==> (#[trigger] fields[j]).0 != name
}

proof fn lemma_map_read<V: Stored>(
    value: JsonView,
    name: Seq<char>,
    map: Map<Seq<char>, V::V>,
    key: Seq<char>,
)
    requires
        value is Object,
        map_in::<V>(value.field(name)) == Some(map),
    ensures
        exists|records: JsonView|
            {
                &&& #[trigger] crate::json::has(value, name, records)
                &&& records is Object
                &&& map.dom().contains(key) <==> !crate::json::lacks(records, key)
                &&& forall|part: JsonView| #[trigger]
                    has_last(records, key, part) ==> V::at(part) == Some(map[key])
            },
{
    let records = value.field(name)->0;
    let fields = records->Object_0;
    crate::json::law_field_is_the_first_of_its_name(value, name, records);
    law_maps_take_the_last_of_a_name::<V>(fields, map);
    assert(crate::json::has(value, name, records));
    assert forall|part: JsonView| #[trigger] has_last(records, key, part) implies V::at(part)
        == Some(map[key]) by {
        let i = choose|i: int|
            0 <= i < fields.len() && #[trigger] fields[i] == (key, part) && forall|j: int|
                i < j < fields.len() ==> (#[trigger] fields[j]).0 != key;
        assert(V::at(fields[i].1) == Some(map[fields[i].0]));
    }
    assert(map.dom().contains(key) <==> !crate::json::lacks(records, key));
}

/// A state that was read holds an entry, a watermark or a suppression for a key exactly
/// if the file has one under that key, and it holds what the last one there gives.
pub proof fn law_restored_records_are_the_stored_ones(
    value: JsonView,
    state: BeaconState,
    key: Seq<char>,
)
    requires
        value is Object,
        restores(value, Ok(state)),
    ensures
        exists|records: JsonView|
            {
                &&& #[trigger] crate::json::has(value, "entries"@, records)
                &&& records is Object
                &&& state@.entries.dom().contains(key) <==> !crate::json::lacks(records, key)
                &&& forall|part: JsonView| #[trigger]
                    has_last(records, key, part) ==> UnreadEntry::at(part) == Some(
                        state@.entries[key],
                    )
            },
        exists|records: JsonView|
            {
                &&& #[trigger] crate::json::has(value, "watermarks"@, records)
                &&& records is Object
                &&& state@.watermarks.dom().contains(key) <==> !crate::json::lacks(records, key)
                &&& forall|part: JsonView| #[trigger]
                    has_last(records, key, part) ==> Watermark::at(part) == Some(
                        state@.watermarks[key],
                    )
            },
        crate::json::has(value, "version"@, JsonView::Number(2)) ==> exists|records: JsonView|
            {
                &&& #[trigger] crate::json::has(value, "suppressed"@, records)
                &&& records is Object
                &&& state@.suppressed.dom().contains(key) <==> !crate::json::lacks(records, key)
                &&& forall|part: JsonView| #[trigger]
                    has_last(records, key, part) ==> Suppression::at(part) == Some(
                        state@.suppressed[key],
                    )
            },
        crate::json::has(value, "version"@, JsonView::Number(2)) ==> exists|stamp: JsonView|
            {
                &&& #[trigger] crate::json::has(value, "policy"@, stamp)
                &&& match state@.policy {
                    Some(given) => PolicyStamp::at(stamp) == Some(given),
                    None => stamp == JsonView::Null,
                }
            },
{
    crate::json::law_field_is_the_first_of_its_name(value, "version"@, JsonView::Number(1));
    crate::json::law_field_is_the_first_of_its_name(value, "version"@, JsonView::Number(2));
    lemma_map_read::<UnreadEntry>(value, "entries"@, state@.entries, key);
    lemma_map_read::<Watermark>(value, "watermarks"@, state@.watermarks, key);
    if crate::json::has(value, "version"@, JsonView::Number(2)) {
        lemma_map_read::<Suppression>(value, "suppressed"@, state@.suppressed, key);
        let stamp = value.field("policy"@)->0;
        crate::json::law_field_is_the_first_of_its_name(value, "policy"@, stamp);
        assert(crate::json::has(value, "policy"@, stamp));
    }
}

/// The status of a stored entry is told by the text under `status`: what is written for
/// each status is its name, and what is read from each name is that status.
pub proof fn law_stored_statuses_are_told_by_their_names(
    entry: Pending,
    value: JsonView,
    name: Seq<char>,
)
    requires
        UnreadEntry::at(value) == Some(entry),
        crate::json::has(value, "status"@, JsonView::Text(name)),
    ensures
        name == "idle"@ <==> entry.status == AgentStatus::Idle,
        name == "working"@ <==> entry.status == AgentStatus::Working,
        name == "blocked"@ <==> entry.status == AgentStatus::Blocked,
        name == "done"@ <==> entry.status == AgentStatus::Done,
        name == "unknown"@ <==> entry.status == AgentStatus::Unknown,
        crate::json::has(
            UnreadEntry::json(entry),
            "status"@,
            JsonView::Text(
                match entry.status {
                    AgentStatus::Idle => "idle"@,
                    AgentStatus::Working => "working"@,
                    AgentStatus::Blocked => "blocked"@,
                    AgentStatus::Done => "done"@,
                    AgentStatus::Unknown => "unknown"@,
                },
            ),
        ),
{
    crate::json::law_field_is_the_first_of_its_name(value, "status"@, JsonView::Text(name));
    lemma_status_read_back(entry.status);
    reveal_strlit("idle");
    reveal_strlit("working");
    reveal_strlit("blocked");
    reveal_strlit("done");
    reveal_strlit("unknown");
    assert("idle"@[0] == 'i' && "working"@[0] == 'w' && "blocked"@[0] == 'b');
    assert("done"@[0] == 'd' && "unknown"@[0] == 'u');
    let written = UnreadEntry::json(entry);
    let fields = written->Object_0;
    lemma_names_are_distinct();
    assert(names_of(fields) =~= entry_names());
    lemma_record(fields, entry_names());
    assert(fields[3] == ("status"@, JsonView::Text(status_name(entry.status))));
    crate::json::law_field_is_the_first_of_its_name(
        written,
        "status"@,
        JsonView::Text(status_name(entry.status)),
    );
}

/// A value gives an optional number in a list: the number, or `null` for none.
pub open spec fn is_option(value: JsonView, number: Option<u64>) -> bool {
    match number {
        Some(number) => value == JsonView::Number(number),
        None => value == JsonView::Null,
    }
}

/// Records can also be given as lists of their fields, in the order of declaration. How
/// far something has been read may be left out.
pub proof fn law_listed_records_go_by_place(
    items: Seq<JsonView>,
    entry: Pending,
    mark: Mark,
    held: Held,
    stamp: Stamp,
    place: Place,
)
    ensures
        UnreadEntry::at(JsonView::List(items)) == Some(entry) <==> {
            &&& items.len() == 6
            &&& items[0] == JsonView::Text(entry.pane_id)
            &&& items[1] == JsonView::Text(entry.terminal_id)
            &&& items[2] == JsonView::Text(entry.workspace_id)
            &&& crate::herdr::gives_status(items[3], entry.status)
            &&& items[4] == JsonView::Number(entry.state_change_seq)
            &&& items[5] == JsonView::Number(entry.ordinal)
        },
        Watermark::at(JsonView::List(items)) == Some(mark) <==> {
            &&& items.len() == 2 || items.len() == 3
            &&& items[0] == JsonView::Text(mark.terminal_id)
            &&& items[1] == JsonView::Number(mark.state_change_seq)
            &&& if items.len() == 3 {
                is_option(items[2], mark.cleared_through)
            } else {
                mark.cleared_through is None
            }
        },
        Suppression::at(JsonView::List(items)) == Some(held) <==> {
            &&& items.len() == 1 || items.len() == 2
            &&& items[0] == JsonView::Number(held.state_change_seq)
            &&& if items.len() == 2 {
                is_option(items[1], held.cleared_through)
            } else {
                held.cleared_through is None
            }
        },
        PolicyStamp::at(JsonView::List(items)) == Some(stamp) <==> {
            &&& items.len() == 3
            &&& items[0] == JsonView::Text(stamp.session)
            &&& crate::json::texts_at(Some(items[1])) == Some(stamp.labels)
            &&& crate::json::texts_at(Some(items[2])) == Some(stamp.excluded)
        },
        Location::at(JsonView::List(items)) == Some(place) <==> {
            &&& items.len() == 3
            &&& items[0] == JsonView::Text(place.terminal_id)
            &&& items[1] == JsonView::Text(place.pane_id)
            &&& items[2] == JsonView::Text(place.workspace_id)
        },
{
    crate::herdr::law_statuses_have_their_wire_names(items[3], entry.status);
}

/// A record that is neither an object nor a list is none.
pub proof fn law_plain_values_are_no_records(value: JsonView)
    requires
        !(value is Object),
        !(value is List),
    ensures
        UnreadEntry::at(value) is None,
        Watermark::at(value) is None,
        Suppression::at(value) is None,
        PolicyStamp::at(value) is None,
        Location::at(value) is None,
        legacy_at(value) is None,
        current_at(value) is None,
{
}

/// The stored places are those that a list under `locations` gives, one by one.
pub open spec fn gives_places(value: JsonView, places: Seq<Place>) -> bool {
    exists|list: Seq<JsonView>|
        {
            &&& #[trigger] crate::json::has(value, "locations"@, JsonView::List(list))
            &&& list.len() == places.len()
            &&& forall|i: int|
                0 <= i < list.len() ==> Location::at(#[trigger] list[i]) == Some(places[i])
        }
}

/// The stored stamp is the one under `policy`, or none if `null` stands there.
pub open spec fn gives_policy(value: JsonView, policy: Option<Stamp>) -> bool {
    exists|stamp: JsonView|
        {
            &&& #[trigger] crate::json::has(value, "policy"@, stamp)
            &&& match policy {
                Some(given) => stamp != JsonView::Null && PolicyStamp::at(stamp) == Some(given),
                None => stamp == JsonView::Null,
            }
        }
}

/// The maps of a stored object are those of the objects under their names.
pub open spec fn gives_map<V: Stored>(
    value: JsonView,
    name: Seq<char>,
    map: Map<Seq<char>, V::V>,
) -> bool {
    exists|fields: Seq<(Seq<char>, JsonView)>|
        {
            &&& #[trigger] crate::json::has(value, name, JsonView::Object(fields))
            &&& map_at::<V>(fields) == Some(map)
        }
}

proof fn lemma_gives_map<V: Stored>(value: JsonView, name: Seq<char>, map: Map<Seq<char>, V::V>)
    requires
        value is Object,
    ensures
        gives_map::<V>(value, name, map) <==> map_in::<V>(value.field(name)) == Some(map),
{
    let found = value.field(name);
    if found is Some {
        crate::json::law_field_is_the_first_of_its_name(value, name, found->0);
        if let JsonView::Object(fields) = found->0 {
            assert(crate::json::has(value, name, JsonView::Object(fields)));
        }
    }
    assert forall|fields: Seq<(Seq<char>, JsonView)>| #[trigger]
        crate::json::has(value, name, JsonView::Object(fields)) implies found == Some(
        JsonView::Object(fields),
    ) by {
        crate::json::law_field_is_the_first_of_its_name(value, name, JsonView::Object(fields));
    }
}

proof fn lemma_gives_places(value: JsonView, places: Seq<Place>)
    requires
        value is Object,
    ensures
        gives_places(value, places) <==> places_at(value.field("locations"@)) == Some(places),
{
    let found = value.field("locations"@);
    if found is Some {
        crate::json::law_field_is_the_first_of_its_name(value, "locations"@, found->0);
        if let JsonView::List(list) = found->0 {
            assert(crate::json::has(value, "locations"@, JsonView::List(list)));
            if places_at(found) == Some(places) {
                assert forall|i: int| 0 <= i < list.len() implies Location::at(#[trigger] list[i])
                    == Some(places[i]) by {
                    assert(places[i] == Location::at(list[i])->0);
                }
            }
        }
    }
    assert forall|list: Seq<JsonView>| #[trigger]
        crate::json::has(value, "locations"@, JsonView::List(list)) implies found == Some(
        JsonView::List(list),
    ) by {
        crate::json::law_field_is_the_first_of_its_name(
            value,
            "locations"@,
            JsonView::List(list),
        );
    }
    if gives_places(value, places) {
        let list = choose|list: Seq<JsonView>|
            {
                &&& #[trigger] crate::json::has(value, "locations"@, JsonView::List(list))
                &&& list.len() == places.len()
                &&& forall|i: int|
                    0 <= i < list.len() ==> Location::at(#[trigger] list[i]) == Some(places[i])
            };
        assert(found == Some(JsonView::List(list)));
        assert(list.map_values(|item: JsonView| Location::at(item)->0) =~= places);
    }
}

proof fn lemma_gives_policy(value: JsonView, policy: Option<Stamp>)
    requires
        value is Object,
    ensures
        gives_policy(value, policy) <==> policy_at(value.field("policy"@)) == Some(policy),
{
    let found = value.field("policy"@);
    if found is Some {
        crate::json::law_field_is_the_first_of_its_name(value, "policy"@, found->0);
        assert(crate::json::has(value, "policy"@, found->0));
    }
    assert forall|stamp: JsonView| #[trigger] crate::json::has(value, "policy"@, stamp) implies found
        == Some(stamp) by {
        crate::json::law_field_is_the_first_of_its_name(value, "policy"@, stamp);
    }
}

/// A stored object is a current state exactly if it has the eight fields of one, each in
/// its form, and no other.
pub proof fn law_states_are_read_by_name(value: JsonView, ledger: Ledger)
    requires
        value is Object,
    ensures
        current_at(value) == Some(ledger) <==> {
            &&& ledger.version == 2
            &&& crate::json::has(
                value,
                "next_ordinal"@,
                JsonView::Number(ledger.next_ordinal),
            )
            &&& gives_map::<UnreadEntry>(value, "entries"@, ledger.entries)
            &&& gives_map::<Watermark>(value, "watermarks"@, ledger.watermarks)
            &&& gives_policy(value, ledger.policy)
            &&& gives_map::<Suppression>(value, "suppressed"@, ledger.suppressed)
            &&& gives_places(value, ledger.locations)
            &&& crate::json::has(
                value,
                "recovery_needed"@,
                JsonView::Bool(ledger.recovery_needed),
            )
            &&& names_only(
                value,
                seq![
                    "version"@,
                    "next_ordinal"@,
                    "entries"@,
                    "watermarks"@,
                    "policy"@,
                    "suppressed"@,
                    "locations"@,
                    "recovery_needed"@,
                ],
            )
        },
{
    crate::json::law_field_is_the_first_of_its_name(
        value,
        "next_ordinal"@,
        JsonView::Number(ledger.next_ordinal),
    );
    crate::json::law_field_is_the_first_of_its_name(
        value,
        "recovery_needed"@,
        JsonView::Bool(ledger.recovery_needed),
    );
    lemma_gives_map::<UnreadEntry>(value, "entries"@, ledger.entries);
    lemma_gives_map::<Watermark>(value, "watermarks"@, ledger.watermarks);
    lemma_gives_map::<Suppression>(value, "suppressed"@, ledger.suppressed);
    lemma_gives_policy(value, ledger.policy);
    lemma_gives_places(value, ledger.locations);
}

/// A stored object is a state of the first version exactly if it has the four fields of
/// one and no other; it is brought up to the current version with nothing more in it.
pub proof fn law_first_states_are_read_by_name(value: JsonView, ledger: Ledger)
    requires
        value is Object,
    ensures
        legacy_at(value) == Some(ledger) <==> {
            &&& ledger.version == 2
            &&& crate::json::has(
                value,
                "next_ordinal"@,
                JsonView::Number(ledger.next_ordinal),
            )
            &&& gives_map::<UnreadEntry>(value, "entries"@, ledger.entries)
            &&& gives_map::<Watermark>(value, "watermarks"@, ledger.watermarks)
            &&& ledger.policy is None
            &&& ledger.suppressed == Map::<Seq<char>, Held>::empty()
            &&& ledger.locations == Seq::<Place>::empty()
            &&& !ledger.recovery_needed
            &&& names_only(
                value,
                seq!["version"@, "next_ordinal"@, "entries"@, "watermarks"@],
            )
        },
{
    crate::json::law_field_is_the_first_of_its_name(
        value,
        "next_ordinal"@,
        JsonView::Number(ledger.next_ordinal),
    );
    lemma_gives_map::<UnreadEntry>(value, "entries"@, ledger.entries);
    lemma_gives_map::<Watermark>(value, "watermarks"@, ledger.watermarks);
}

/// A state that can be read is refused only if it does not hold together, and one that
/// cannot be read is no state.
pub proof fn law_readable_states_are_restored(
    value: JsonView,
    ledger: Ledger,
    outcome: Result<BeaconState, BeaconError>,
)
    requires
        value is Object,
        restores(value, outcome),
    ensures
        crate::json::has(value, "version"@, JsonView::Number(2)) && current_at(value) == Some(
            ledger,
        ) ==> (ledger.valid() <==> outcome is Ok) && (outcome matches Ok(state) ==> state@
            == ledger),
        crate::json::has(value, "version"@, JsonView::Number(1)) && legacy_at(value) == Some(
            ledger,
        ) ==> (ledger.valid() <==> outcome is Ok) && (outcome matches Ok(state) ==> state@
            == ledger),
        crate::json::has(value, "version"@, JsonView::Number(2)) && current_at(value) is None ==> (
        outcome matches Err(BeaconError::InvalidState)),
        crate::json::has(value, "version"@, JsonView::Number(1)) && legacy_at(value) is None ==> (
        outcome matches Err(BeaconError::InvalidState)),
{
    crate::json::law_field_is_the_first_of_its_name(value, "version"@, JsonView::Number(1));
    crate::json::law_field_is_the_first_of_its_name(value, "version"@, JsonView::Number(2));
}

/// A text in which a record names a field twice is no state: at the top, or in one of
/// the records under `entries`, `watermarks` and `suppressed`. Neither is one in which
/// such a record cannot be read, also where another under the same key comes later.
pub proof fn law_repeated_fields_are_refused(
    bytes: Seq<u8>,
    fields: Seq<(Seq<char>, Seq<u8>)>,
    i: int,
    j: int,
    outcome: Result<BeaconState, BeaconError>,
)
    requires
        decodes(bytes, outcome),
        crate::record::parts(bytes) == Some(PartsView::Fields(fields)),
        0 <= i < fields.len(),
        0 <= j < fields.len(),
    ensures
        i != j && fields[i].0 == fields[j].0 ==> (outcome matches Err(
            BeaconError::InvalidState,
        )),
        fields[i].0 == "entries"@ || fields[i].0 == "watermarks"@ || fields[i].0
            == "suppressed"@ ==> {
            &&& !(crate::record::parts(fields[i].1) matches Some(PartsView::Fields(_))) ==> (
            outcome matches Err(BeaconError::InvalidState))
            &&& crate::record::parts(fields[i].1) matches Some(PartsView::Fields(inner)) ==> ((
            exists|k: int|
                0 <= k < inner.len() && (repeats_a_name((#[trigger] inner[k]).1)
                    || crate::json::json_document(inner[k].1) is None)) ==> (outcome matches Err(
                BeaconError::InvalidState,
            )))
        },
        fields[i].0 == "policy"@ || fields[i].0 == "locations"@ ==> (repeats_a_name(fields[i].1)
            ==> (outcome matches Err(BeaconError::InvalidState))),
{
    lemma_state_part_names(fields[i].0);
    if state_kept(bytes) {
        assert(part_kept(fields[i].0, fields[i].1));
        if i < j {
            assert(fields[i].0 != fields[j].0);
        }
        if j < i {
            assert(fields[j].0 != fields[i].0);
        }
    }
}

/// A text is an object that names a field twice.
pub open spec fn repeats_a_name(text: Seq<u8>) -> bool {
    &&& crate::record::parts(text) matches Some(PartsView::Fields(fields))
    &&& exists|a: int, b: int|
        0 <= a < b < fields.len() && (#[trigger] fields[a]).0 == (#[trigger] fields[b]).0
}

/// The keys of the maps in a state file ascend in text order.
pub proof fn law_saved_keys_ascend(ledger: Ledger, bytes: Vec<u8>, k: int, i: int, j: int)
    requires
        encodes(ledger, Ok(bytes)),
        k == 2 || k == 3 || k == 5,
    ensures
        ({
            &&& crate::json::json_document(bytes@) matches Some(JsonView::Object(fields))
            &&& fields[k].1 matches JsonView::Object(inner)
            &&& 0 <= i < j < inner.len() ==> crate::text::precedes(inner[i].0, inner[j].0)
        }),
{
    let fields = crate::json::json_document(bytes@)->0->Object_0;
    let inner = fields[k].1->Object_0;
    if 0 <= i < j < inner.len() {
        assert(crate::text::precedes(inner[i].0, inner[j].0));
    }
}

/// A version beyond 32 bits is no version.
pub proof fn law_oversized_versions_are_no_state(
    value: JsonView,
    version: u64,
    outcome: Result<BeaconState, BeaconError>,
)
    requires
        restores(value, outcome),
        crate::json::has(value, "version"@, JsonView::Number(version)),
        version >= 0x1_0000_0000,
    ensures
        outcome matches Err(BeaconError::InvalidState),
{
    crate::json::law_field_is_the_first_of_its_name(
        value,
        "version"@,
        JsonView::Number(version),
    );
}

/// A text with fields can be taken as a state exactly if no field is named twice, every
/// record under `entries`, `watermarks` and `suppressed` can be read and names no field
/// twice at any depth, and neither does any other part. Keys may come twice.
pub proof fn law_texts_are_kept_by_their_fields(
    bytes: Seq<u8>,
    fields: Seq<(Seq<char>, Seq<u8>)>,
)
    requires
        crate::record::parts(bytes) == Some(PartsView::Fields(fields)),
    ensures
        state_kept(bytes) <==> {
            &&& forall|i: int, j: int|
                0 <= i < j < fields.len() ==> (#[trigger] fields[i]).0 != (#[trigger] fields[j]).0
            &&& forall|i: int|
                0 <= i < fields.len() ==> {
                    let name = (#[trigger] fields[i]).0;
                    let text = fields[i].1;
                    &&& name == "entries"@ ==> all_kept::<UnreadEntry>(text)
                    &&& name == "watermarks"@ ==> all_kept::<Watermark>(text)
                    &&& name == "suppressed"@ ==> all_kept::<Suppression>(text)
                    &&& name != "entries"@ && name != "watermarks"@ && name != "suppressed"@
                        ==> crate::record::unrepeated(text)
                }
        },
{
    lemma_state_part_names("entries"@);
    if state_kept(bytes) {
        assert forall|i: int| 0 <= i < fields.len() implies {
            let name = (#[trigger] fields[i]).0;
            let text = fields[i].1;
            &&& name == "entries"@ ==> all_kept::<UnreadEntry>(text)
            &&& name == "watermarks"@ ==> all_kept::<Watermark>(text)
            &&& name == "suppressed"@ ==> all_kept::<Suppression>(text)
            &&& name != "entries"@ && name != "watermarks"@ && name != "suppressed"@
                ==> crate::record::unrepeated(text)
        } by {
            assert(part_kept(fields[i].0, fields[i].1));
        }
    }
}

/// A text is an object, and each of its values can be read as a record that names no
/// field twice at any depth.
pub open spec fn all_kept<V: Stored>(text: Seq<u8>) -> bool {
    &&& crate::record::parts(text) matches Some(PartsView::Fields(records))
    &&& forall|k: int|
        0 <= k < records.len() ==> {
            &&& crate::record::unrepeated((#[trigger] records[k]).1)
            &&& crate::json::json_document(records[k].1) matches Some(value)
            &&& V::at(value) is Some
        }
}

} // verus!
