//! Records as they are written: which fields a JSON text has, and how often.
//!
//! A record names each of its fields once, and what it does not know it skips unread.
//! A parsed value cannot tell: it has one value for each name, and it is there only if
//! everything in it could be read. So the fields of a record are taken from its text.
//! Names and values are read by `serde_json`; only the marks between them are found
//! here.

use vstd::prelude::*;
use vstd::slice::{slice_subrange, slice_to_vec};
use crate::json::{read_json, text_in, value_extent, Json, JsonView};
use crate::text::same;

verus! {

/// A blank between the parts of a text.
pub open spec fn is_gap(byte: u8) -> bool {
    byte == 32 || byte == 10 || byte == 13 || byte == 9
}

/// The first place from `at` on that is no blank.
pub open spec fn after_gap(bytes: Seq<u8>, at: int) -> int
    decreases bytes.len() - at,
{
    if 0 <= at < bytes.len() && is_gap(bytes[at]) {
        after_gap(bytes, at + 1)
    } else {
        at
    }
}

/// Whether a mark stands at a place.
pub open spec fn stands(bytes: Seq<u8>, at: int, mark: u8) -> bool {
    0 <= at < bytes.len() && bytes[at] == mark
}

/// Where the value that starts at a place ends.
pub open spec fn value_end(bytes: Seq<u8>, at: int) -> Option<int> {
    if 0 <= at < bytes.len() {
        match crate::json::json_extent(bytes.skip(at)) {
            Some(extent) => if 0 < extent <= bytes.len() - at {
                Some(at + extent)
            } else {
                None
            },
            None => None,
        }
    } else {
        None
    }
}

/// The name of a field that a text spells.
pub open spec fn name_spelled(text: Seq<u8>) -> Option<Seq<char>> {
    crate::json::text_at(crate::json::json_document(text))
}

/// The field of an object that comes after a place: its name, the text of its value,
/// and the place behind it.
pub open spec fn field_after(bytes: Seq<u8>, at: int) -> Option<(Seq<char>, Seq<u8>, int)> {
    let start = after_gap(bytes, at);
    match (stands(bytes, start, 34), value_end(bytes, start)) {
        (true, Some(named)) => {
            let colon = after_gap(bytes, named);
            let from = after_gap(bytes, colon + 1);
            match (
                name_spelled(bytes.subrange(start, named)),
                stands(bytes, colon, 58),
                value_end(bytes, from),
            ) {
                (Some(name), true, Some(to)) => Some(
                    (name, bytes.subrange(from, to), after_gap(bytes, to)),
                ),
                _ => None,
            }
        },
        _ => None,
    }
}

/// The fields of an object from a place on, and the place behind its end.
pub open spec fn fields_after(bytes: Seq<u8>, at: int) -> Option<
    (Seq<(Seq<char>, Seq<u8>)>, int),
>
    decreases bytes.len() - at,
{
    match field_after(bytes, at) {
        Some((name, text, next)) => if stands(bytes, next, 125) {
            Some((seq![(name, text)], next + 1))
        } else if stands(bytes, next, 44) && at <= next {
            match fields_after(bytes, next + 1) {
                Some((rest, end)) => Some((seq![(name, text)] + rest, end)),
                None => None,
            }
        } else {
            None
        },
        None => None,
    }
}

/// The item of a list that comes after a place: its text, and the place behind it.
pub open spec fn item_after(bytes: Seq<u8>, at: int) -> Option<(Seq<u8>, int)> {
    let from = after_gap(bytes, at);
    match value_end(bytes, from) {
        Some(to) => Some((bytes.subrange(from, to), after_gap(bytes, to))),
        None => None,
    }
}

/// The items of a list from a place on, and the place behind its end.
pub open spec fn items_after(bytes: Seq<u8>, at: int) -> Option<(Seq<Seq<u8>>, int)>
    decreases bytes.len() - at,
{
    match item_after(bytes, at) {
        Some((text, next)) => if stands(bytes, next, 93) {
            Some((seq![text], next + 1))
        } else if stands(bytes, next, 44) && at <= next {
            match items_after(bytes, next + 1) {
                Some((rest, end)) => Some((seq![text] + rest, end)),
                None => None,
            }
        } else {
            None
        },
        None => None,
    }
}

/// The parts of a text that is an object or a list.
pub enum PartsView {
    /// The fields of an object, with the texts of their values.
    Fields(Seq<(Seq<char>, Seq<u8>)>),
    /// The texts of the items of a list.
    Items(Seq<Seq<u8>>),
}

/// The parts of a text, if it is an object or a list and nothing else.
pub open spec fn parts(bytes: Seq<u8>) -> Option<PartsView> {
    let open = after_gap(bytes, 0);
    let first = after_gap(bytes, open + 1);
    if stands(bytes, open, 123) {
        let fields = if stands(bytes, first, 125) {
            Some((Seq::empty(), first + 1))
        } else {
            fields_after(bytes, open + 1)
        };
        match fields {
            Some((fields, end)) => if after_gap(bytes, end) == bytes.len() {
                Some(PartsView::Fields(fields))
            } else {
                None
            },
            None => None,
        }
    } else if stands(bytes, open, 91) {
        let items = if stands(bytes, first, 93) {
            Some((Seq::empty(), first + 1))
        } else {
            items_after(bytes, open + 1)
        };
        match items {
            Some((items, end)) => if after_gap(bytes, end) == bytes.len() {
                Some(PartsView::Items(items))
            } else {
                None
            },
            None => None,
        }
    } else {
        None
    }
}

/// The value of a part of a record: what is read from its text inside a list.
pub open spec fn part_value(text: Seq<u8>) -> Option<JsonView> {
    match crate::json::json_document(seq![91u8] + text + seq![93u8]) {
        Some(JsonView::List(items)) => if items.len() == 1 {
            Some(items[0])
        } else {
            None
        },
        _ => None,
    }
}

/// The parts of a text.
pub enum Parts {
    Fields(Vec<(String, Vec<u8>)>),
    Items(Vec<Vec<u8>>),
}

/// The names and texts of fields.
pub open spec fn fields_seen(fields: Seq<(String, Vec<u8>)>) -> Seq<(Seq<char>, Seq<u8>)> {
    fields.map_values(|field: (String, Vec<u8>)| (field.0@, field.1@))
}

/// The texts of items.
pub open spec fn items_seen(items: Seq<Vec<u8>>) -> Seq<Seq<u8>> {
    items.map_values(|item: Vec<u8>| item@)
}

impl View for Parts {
    type V = PartsView;

    open spec fn view(&self) -> PartsView {
        match self {
            Parts::Fields(fields) => PartsView::Fields(fields_seen(fields@)),
            Parts::Items(items) => PartsView::Items(items_seen(items@)),
        }
    }
}

fn skip_gap(bytes: &[u8], at: usize) -> (place: usize)
    requires
        at <= bytes@.len(),
    ensures
        place == after_gap(bytes@, at as int),
        at <= place <= bytes@.len(),
{
    let mut place: usize = at;
    while place < bytes.len() && (bytes[place] == 32 || bytes[place] == 10 || bytes[place] == 13
        || bytes[place] == 9)
        invariant
            at <= place <= bytes@.len(),
            bytes@.len() == bytes.len(),
            after_gap(bytes@, at as int) == after_gap(bytes@, place as int),
        decreases bytes@.len() - place,
    {
        place = place + 1;
    }
    place
}

fn marked(bytes: &[u8], at: usize, mark: u8) -> (found: bool)
    ensures
        found == stands(bytes@, at as int, mark),
        found ==> at < usize::MAX,
{
    at < bytes.len() && bytes[at] == mark
}

fn find_end(bytes: &[u8], at: usize) -> (end: Option<usize>)
    ensures
        match end {
            Some(end) => value_end(bytes@, at as int) == Some(end as int) && at < end
                <= bytes@.len(),
            None => value_end(bytes@, at as int) is None,
        },
{
    if at >= bytes.len() {
        return None;
    }
    let rest = slice_subrange(bytes, at, bytes.len());
    assert(rest@ =~= bytes@.skip(at as int));
    match value_extent(rest) {
        Some(extent) => Some(at + extent),
        None => None,
    }
}

/// Reads the field that comes after a place.
fn read_field(bytes: &[u8], at: usize) -> (field: Option<(String, Vec<u8>, usize)>)
    requires
        at <= bytes@.len(),
    ensures
        match field {
            Some((name, text, next)) => field_after(bytes@, at as int) == Some(
                (name@, text@, next as int),
            ) && at <= next <= bytes@.len(),
            None => field_after(bytes@, at as int) is None,
        },
{
    let start = skip_gap(bytes, at);
    if !marked(bytes, start, 34) {
        return None;
    }
    match find_end(bytes, start) {
        None => None,
        Some(named) => {
            let colon = skip_gap(bytes, named);
            if !marked(bytes, colon, 58) {
                return None;
            }
            let name = match read_json(slice_subrange(bytes, start, named)) {
                Ok(value) => text_in(Some(&value)),
                Err(_) => None,
            };
            let from = skip_gap(bytes, colon + 1);
            match (name, find_end(bytes, from)) {
                (Some(name), Some(to)) => {
                    let text = slice_to_vec(slice_subrange(bytes, from, to));
                    Some((name, text, skip_gap(bytes, to)))
                },
                _ => None,
            }
        },
    }
}

/// Reads the fields of an object from a place on.
fn read_fields(bytes: &[u8], at: usize) -> (fields: Option<(Vec<(String, Vec<u8>)>, usize)>)
    requires
        at <= bytes@.len(),
    ensures
        match fields {
            Some((fields, end)) => fields_after(bytes@, at as int) == Some(
                (fields_seen(fields@), end as int),
            ) && end <= bytes@.len(),
            None => fields_after(bytes@, at as int) is None,
        },
{
    let mut fields: Vec<(String, Vec<u8>)> = Vec::new();
    let mut place: usize = at;
    let ghost whole = fields_after(bytes@, at as int);
    proof {
        if let Some((rest, end)) = whole {
            assert(fields_seen(fields@) + rest =~= rest);
        }
    }
    loop
        invariant
            place <= bytes@.len(),
            whole == fields_after(bytes@, at as int),
            match fields_after(bytes@, place as int) {
                Some((rest, end)) => whole == Some((fields_seen(fields@) + rest, end)),
                None => whole is None,
            },
        decreases bytes@.len() - place,
    {
        let ghost so_far = fields_seen(fields@);
        match read_field(bytes, place) {
            None => {
                return None;
            },
            Some((name, text, next)) => {
                let ghost field = (name@, text@);
                fields.push((name, text));
                assert(fields_seen(fields@) =~= so_far.push(field));
                if marked(bytes, next, 125) {
                    assert(so_far + seq![field] =~= so_far.push(field));
                    return Some((fields, next + 1));
                }
                if !marked(bytes, next, 44) {
                    return None;
                }
                proof {
                    if let Some((rest, end)) = fields_after(bytes@, next + 1) {
                        assert(so_far + (seq![field] + rest) =~= so_far.push(field) + rest);
                    }
                }
                place = next + 1;
            },
        }
    }
}

/// Reads the items of a list from a place on.
fn read_items(bytes: &[u8], at: usize) -> (items: Option<(Vec<Vec<u8>>, usize)>)
    requires
        at <= bytes@.len(),
    ensures
        match items {
            Some((items, end)) => items_after(bytes@, at as int) == Some(
                (items_seen(items@), end as int),
            ) && end <= bytes@.len(),
            None => items_after(bytes@, at as int) is None,
        },
{
    let mut items: Vec<Vec<u8>> = Vec::new();
    let mut place: usize = at;
    let ghost whole = items_after(bytes@, at as int);
    proof {
        if let Some((rest, end)) = whole {
            assert(items_seen(items@) + rest =~= rest);
        }
    }
    loop
        invariant
            place <= bytes@.len(),
            whole == items_after(bytes@, at as int),
            match items_after(bytes@, place as int) {
                Some((rest, end)) => whole == Some((items_seen(items@) + rest, end)),
                None => whole is None,
            },
        decreases bytes@.len() - place,
    {
        let ghost so_far = items_seen(items@);
        let from = skip_gap(bytes, place);
        match find_end(bytes, from) {
            None => {
                return None;
            },
            Some(to) => {
                let text = slice_to_vec(slice_subrange(bytes, from, to));
                let next = skip_gap(bytes, to);
                let ghost item = text@;
                items.push(text);
                assert(items_seen(items@) =~= so_far.push(item));
                if marked(bytes, next, 93) {
                    assert(so_far + seq![item] =~= so_far.push(item));
                    return Some((items, next + 1));
                }
                if !marked(bytes, next, 44) {
                    return None;
                }
                proof {
                    if let Some((rest, end)) = items_after(bytes@, next + 1) {
                        assert(so_far + (seq![item] + rest) =~= so_far.push(item) + rest);
                    }
                }
                place = next + 1;
            },
        }
    }
}

/// Takes a text apart, if it is an object or a list and nothing else.
pub fn read_parts(bytes: &[u8]) -> (read: Option<Parts>)
    ensures
        match read {
            Some(read) => parts(bytes@) == Some(read@),
            None => parts(bytes@) is None,
        },
{
    let open = skip_gap(bytes, 0);
    if marked(bytes, open, 123) {
        let first = skip_gap(bytes, open + 1);
        let fields = if marked(bytes, first, 125) {
            let none: Vec<(String, Vec<u8>)> = Vec::new();
            assert(fields_seen(none@) =~= Seq::empty());
            Some((none, first + 1))
        } else {
            read_fields(bytes, open + 1)
        };
        match fields {
            Some((fields, end)) => if skip_gap(bytes, end) == bytes.len() {
                Some(Parts::Fields(fields))
            } else {
                None
            },
            None => None,
        }
    } else if marked(bytes, open, 91) {
        let first = skip_gap(bytes, open + 1);
        let items = if marked(bytes, first, 93) {
            let none: Vec<Vec<u8>> = Vec::new();
            assert(items_seen(none@) =~= Seq::empty());
            Some((none, first + 1))
        } else {
            read_items(bytes, open + 1)
        };
        match items {
            Some((items, end)) => if skip_gap(bytes, end) == bytes.len() {
                Some(Parts::Items(items))
            } else {
                None
            },
            None => None,
        }
    } else {
        None
    }
}

/// Reads the value of a part of a record.
pub fn read_part(text: &[u8]) -> (value: Option<Json>)
    ensures
        match value {
            Some(value) => part_value(text@) == Some(value@),
            None => part_value(text@) is None,
        },
{
    let mut list: Vec<u8> = vec![91];
    let mut i: usize = 0;
    assert(list@ =~= seq![91u8] + text@.take(0));
    while i < text.len()
        invariant
            i <= text@.len(),
            text@.len() == text.len(),
            list@ == seq![91u8] + text@.take(i as int),
        decreases text@.len() - i,
    {
        list.push(text[i]);
        assert(list@ =~= seq![91u8] + text@.take(i + 1));
        i = i + 1;
    }
    list.push(93);
    assert(list@ =~= seq![91u8] + text@ + seq![93u8]);
    match read_json(list.as_slice()) {
        Ok(Json::List(mut items)) => {
            let ghost all = items@;
            proof {
                crate::json::lemma_list(items);
            }
            if items.len() == 1 {
                assert(crate::json::items_seen(all)[0] == all[0]@);
                items.pop()
            } else {
                None
            }
        },
        _ => None,
    }
}

/// How often a name is used.
pub open spec fn uses(fields: Seq<(Seq<char>, Seq<u8>)>, name: Seq<char>) -> nat
    decreases fields.len(),
{
    if fields.len() == 0 {
        0
    } else {
        uses(fields.drop_last(), name) + if fields.last().0 == name {
            1nat
        } else {
            0
        }
    }
}

/// The text of the last field with a name.
pub open spec fn text_under(fields: Seq<(Seq<char>, Seq<u8>)>, name: Seq<char>) -> Option<Seq<u8>>
    decreases fields.len(),
{
    if fields.len() == 0 {
        None
    } else if fields.last().0 == name {
        Some(fields.last().1)
    } else {
        text_under(fields.drop_last(), name)
    }
}

/// How often a record has a named field, and the text of the last one.
pub fn find_field<'a>(fields: &'a Vec<(String, Vec<u8>)>, name: &str) -> (found: (
    usize,
    Option<&'a Vec<u8>>,
))
    ensures
        found.0 == uses(fields_seen(fields@), name@),
        match found.1 {
            Some(text) => text_under(fields_seen(fields@), name@) == Some(text@),
            None => text_under(fields_seen(fields@), name@) is None,
        },
{
    let ghost all = fields_seen(fields@);
    let mut count: usize = 0;
    let mut text: Option<&'a Vec<u8>> = None;
    let mut i: usize = 0;
    assert(all.take(0) =~= Seq::<(Seq<char>, Seq<u8>)>::empty());
    while i < fields.len()
        invariant
            i <= fields.len(),
            count <= i,
            all == fields_seen(fields@),
            count == uses(all.take(i as int), name@),
            match text {
                Some(text) => text_under(all.take(i as int), name@) == Some(text@),
                None => text_under(all.take(i as int), name@) is None,
            },
        decreases fields.len() - i,
    {
        assert(all.take(i + 1).drop_last() =~= all.take(i as int));
        assert(all.take(i + 1).last() == (fields@[i as int].0@, fields@[i as int].1@));
        if same(&fields[i].0, name) {
            count = count + 1;
            text = Some(&fields[i].1);
        }
        i = i + 1;
    }
    assert(all.take(fields.len() as int) =~= all);
    (count, text)
}

proof fn lemma_gap(bytes: Seq<u8>, at: int)
    ensures
        after_gap(bytes, at) >= at,
    decreases bytes.len() - at,
{
    if 0 <= at < bytes.len() && is_gap(bytes[at]) {
        lemma_gap(bytes, at + 1);
    }
}

proof fn lemma_fields_are_shorter(bytes: Seq<u8>, at: int)
    requires
        0 < at,
    ensures
        fields_after(bytes, at) matches Some((fields, _)) ==> forall|i: int|
            0 <= i < fields.len() ==> (#[trigger] fields[i]).1.len() < bytes.len(),
    decreases bytes.len() - at,
{
    if let Some((name, text, next)) = field_after(bytes, at) {
        let start = after_gap(bytes, at);
        let named = value_end(bytes, start)->0;
        let colon = after_gap(bytes, named);
        lemma_gap(bytes, at);
        lemma_gap(bytes, named);
        lemma_gap(bytes, colon + 1);
        if stands(bytes, next, 44) && at <= next {
            lemma_fields_are_shorter(bytes, next + 1);
        }
    }
}

proof fn lemma_items_are_shorter(bytes: Seq<u8>, at: int)
    requires
        0 < at,
    ensures
        items_after(bytes, at) matches Some((items, _)) ==> forall|i: int|
            0 <= i < items.len() ==> (#[trigger] items[i]).len() < bytes.len(),
    decreases bytes.len() - at,
{
    if let Some((text, next)) = item_after(bytes, at) {
        lemma_gap(bytes, at);
        if stands(bytes, next, 44) && at <= next {
            lemma_items_are_shorter(bytes, next + 1);
        }
    }
}

/// The parts of a text are shorter than the text.
pub proof fn lemma_parts_are_shorter(bytes: Seq<u8>)
    ensures
        parts(bytes) matches Some(PartsView::Fields(fields)) ==> forall|i: int|
            0 <= i < fields.len() ==> (#[trigger] fields[i]).1.len() < bytes.len(),
        parts(bytes) matches Some(PartsView::Items(items)) ==> forall|i: int|
            0 <= i < items.len() ==> (#[trigger] items[i]).len() < bytes.len(),
{
    let open = after_gap(bytes, 0);
    lemma_gap(bytes, 0);
    lemma_fields_are_shorter(bytes, open + 1);
    lemma_items_are_shorter(bytes, open + 1);
}

/// No two fields have the same name.
pub open spec fn distinct_names(fields: Seq<(Seq<char>, Seq<u8>)>) -> bool {
    forall|i: int, j: int|
        0 <= i < j < fields.len() ==> (#[trigger] fields[i]).0 != (#[trigger] fields[j]).0
}

/// No object in a text repeats a name.
pub open spec fn unrepeated(text: Seq<u8>) -> bool
    decreases text.len(),
{
    proof {
        lemma_parts_are_shorter(text);
    }
    match parts(text) {
        Some(PartsView::Fields(fields)) => {
            &&& distinct_names(fields)
            &&& forall|i: int| 0 <= i < fields.len() ==> unrepeated((#[trigger] fields[i]).1)
        },
        Some(PartsView::Items(items)) => forall|i: int|
            0 <= i < items.len() ==> unrepeated(#[trigger] items[i]),
        None => true,
    }
}

/// Whether no two fields have the same name.
pub fn has_distinct_names(fields: &Vec<(String, Vec<u8>)>) -> (distinct: bool)
    ensures
        distinct == distinct_names(fields_seen(fields@)),
{
    let ghost all = fields_seen(fields@);
    let mut j: usize = 0;
    while j < fields.len()
        invariant
            j <= fields.len(),
            all == fields_seen(fields@),
            forall|a: int, b: int|
                0 <= a < b < j ==> (#[trigger] all[a]).0 != (#[trigger] all[b]).0,
        decreases fields.len() - j,
    {
        let mut i: usize = 0;
        while i < j
            invariant
                i <= j < fields.len(),
                all == fields_seen(fields@),
                forall|a: int| 0 <= a < i ==> (#[trigger] all[a]).0 != all[j as int].0,
            decreases j - i,
        {
            assert(all[i as int].0 == fields@[i as int].0@);
            assert(all[j as int].0 == fields@[j as int].0@);
            if same(&fields[i].0, &fields[j].0) {
                return false;
            }
            i = i + 1;
        }
        j = j + 1;
    }
    true
}

/// Whether no object in a text repeats a name.
pub fn is_unrepeated(text: &[u8]) -> (unique: bool)
    ensures
        unique == unrepeated(text@),
    decreases text@.len(),
{
    match read_parts(text) {
        Some(Parts::Fields(fields)) => {
            let ghost all = fields_seen(fields@);
            assert(parts(text@) == Some(PartsView::Fields(all)));
            assert forall|j: int| 0 <= j < all.len() implies (#[trigger] all[j]).1.len()
                < text@.len() by {
                lemma_parts_are_shorter(text@);
                assert(parts(text@)->0->Fields_0[j].1.len() < text@.len());
            }
            if !has_distinct_names(&fields) {
                return false;
            }
            let mut i: usize = 0;
            while i < fields.len()
                invariant
                    i <= fields.len(),
                    all == fields_seen(fields@),
                    parts(text@) == Some(PartsView::Fields(all)),
                    forall|j: int|
                        0 <= j < all.len() ==> (#[trigger] all[j]).1.len() < text@.len(),
                    forall|j: int| 0 <= j < i ==> unrepeated((#[trigger] all[j]).1),
                decreases fields.len() - i,
            {
                assert(all[i as int].1 == fields@[i as int].1@);
                if !is_unrepeated(fields[i].1.as_slice()) {
                    assert(!unrepeated(parts(text@)->0->Fields_0[i as int].1));
                    return false;
                }
                i = i + 1;
            }
            true
        },
        Some(Parts::Items(items)) => {
            let ghost all = items_seen(items@);
            assert(parts(text@) == Some(PartsView::Items(all)));
            assert forall|j: int| 0 <= j < all.len() implies (#[trigger] all[j]).len()
                < text@.len() by {
                lemma_parts_are_shorter(text@);
                assert(parts(text@)->0->Items_0[j].len() < text@.len());
            }
            let mut i: usize = 0;
            while i < items.len()
                invariant
                    i <= items.len(),
                    all == items_seen(items@),
                    parts(text@) == Some(PartsView::Items(all)),
                    forall|j: int| 0 <= j < all.len() ==> (#[trigger] all[j]).len() < text@.len(),
                    forall|j: int| 0 <= j < i ==> unrepeated(#[trigger] all[j]),
                decreases items.len() - i,
            {
                assert(all[i as int] == items@[i as int]@);
                if !is_unrepeated(items[i].as_slice()) {
                    assert(!unrepeated(parts(text@)->0->Items_0[i as int]));
                    return false;
                }
                i = i + 1;
            }
            true
        },
        None => true,
    }
}

/// A text from which a value is read back, and the parts of the value from its parts.
pub open spec fn spells(text: Seq<u8>, value: JsonView) -> bool
    decreases value,
{
    &&& crate::json::json_document(text) == Some(value)
    &&& match value {
        JsonView::Object(fields) => {
            &&& parts(text) matches Some(PartsView::Fields(written))
            &&& written.len() == fields.len()
            &&& forall|i: int|
                0 <= i < fields.len() ==> (#[trigger] written[i]).0 == fields[i].0 && spells(
                    written[i].1,
                    fields[i].1,
                )
        },
        JsonView::List(items) => {
            &&& parts(text) matches Some(PartsView::Items(written))
            &&& written.len() == items.len()
            &&& forall|i: int|
                0 <= i < items.len() ==> spells(#[trigger] written[i], items[i])
        },
        _ => parts(text) is None,
    }
}

/// A value whose objects have no name twice is spelled without repeating one.
pub proof fn lemma_spelled_once(text: Seq<u8>, value: JsonView, levels: nat)
    requires
        spells(text, value),
        value.fits(levels),
    ensures
        unrepeated(text),
    decreases levels,
{
    match value {
        JsonView::Object(fields) => {
            let written = parts(text)->0->Fields_0;
            assert forall|i: int, j: int| 0 <= i < j < written.len() implies (
            #[trigger] written[i]).0 != (#[trigger] written[j]).0 by {
                assert(fields[i].0 != fields[j].0);
            }
            assert forall|i: int| 0 <= i < written.len() implies unrepeated(
                (#[trigger] written[i]).1,
            ) by {
                assert(fields[i].1.fits((levels - 1) as nat));
                lemma_spelled_once(written[i].1, fields[i].1, (levels - 1) as nat);
            }
        },
        JsonView::List(items) => {
            let written = parts(text)->0->Items_0;
            assert forall|i: int| 0 <= i < written.len() implies unrepeated(
                #[trigger] written[i],
            ) by {
                assert(items[i].fits((levels - 1) as nat));
                lemma_spelled_once(written[i], items[i], (levels - 1) as nat);
            }
        },
        _ => {},
    }
}

/// One field has the name, and the text is that of its value.
pub open spec fn has_once(
    fields: Seq<(Seq<char>, Seq<u8>)>,
    name: Seq<char>,
    text: Seq<u8>,
) -> bool {
    exists|i: int|
        0 <= i < fields.len() && #[trigger] fields[i] == (name, text) && forall|j: int|
            0 <= j < fields.len() && j != i ==> (#[trigger] fields[j]).0 != name
}

proof fn lemma_unused(fields: Seq<(Seq<char>, Seq<u8>)>, name: Seq<char>)
    ensures
        uses(fields, name) == 0 <==> forall|j: int|
            0 <= j < fields.len() ==> (#[trigger] fields[j]).0 != name,
    decreases fields.len(),
{
    if fields.len() > 0 {
        let rest = fields.drop_last();
        let end = fields.len() - 1;
        lemma_unused(rest, name);
        if uses(fields, name) == 0 {
            assert forall|j: int| 0 <= j < fields.len() implies (#[trigger] fields[j]).0 != name by {
                if j < end {
                    assert(rest[j] == fields[j]);
                }
            }
        }
        if forall|j: int| 0 <= j < fields.len() ==> (#[trigger] fields[j]).0 != name {
            assert forall|j: int| 0 <= j < rest.len() implies (#[trigger] rest[j]).0 != name by {
                assert(rest[j] == fields[j]);
            }
            assert(fields[end].0 != name);
        }
    }
}

/// A name is used once exactly if one field has it, and the text found under it is then
/// that field's.
pub proof fn law_single_fields_are_found(
    fields: Seq<(Seq<char>, Seq<u8>)>,
    name: Seq<char>,
    text: Seq<u8>,
)
    ensures
        uses(fields, name) == 1 && text_under(fields, name) == Some(text) <==> has_once(
            fields,
            name,
            text,
        ),
    decreases fields.len(),
{
    if fields.len() > 0 {
        let rest = fields.drop_last();
        let end = fields.len() - 1;
        law_single_fields_are_found(rest, name, text);
        lemma_unused(rest, name);
        assert forall|j: int| 0 <= j < rest.len() implies #[trigger] rest[j] == fields[j] by {}
        if uses(fields, name) == 1 && text_under(fields, name) == Some(text) {
            if fields[end].0 == name {
                assert(fields[end] == (name, text));
                assert forall|j: int| 0 <= j < fields.len() && j != end implies (
                #[trigger] fields[j]).0 != name by {
                    assert(rest[j].0 != name);
                }
            } else {
                let i = choose|i: int|
                    0 <= i < rest.len() && #[trigger] rest[i] == (name, text) && forall|j: int|
                        0 <= j < rest.len() && j != i ==> (#[trigger] rest[j]).0 != name;
                assert(fields[i] == (name, text));
                assert forall|j: int| 0 <= j < fields.len() && j != i implies (
                #[trigger] fields[j]).0 != name by {
                    if j < end {
                        assert(rest[j].0 != name);
                    }
                }
            }
        }
        if has_once(fields, name, text) {
            let i = choose|i: int|
                0 <= i < fields.len() && #[trigger] fields[i] == (name, text) && forall|j: int|
                    0 <= j < fields.len() && j != i ==> (#[trigger] fields[j]).0 != name;
            if i == end {
                assert forall|j: int| 0 <= j < rest.len() implies (#[trigger] rest[j]).0
                    != name by {
                    assert(fields[j].0 != name);
                }
            } else {
                assert(fields[end].0 != name);
                assert(rest[i] == (name, text));
                assert forall|j: int| 0 <= j < rest.len() && j != i implies (#[trigger] rest[j]).0
                    != name by {
                    assert(fields[j].0 != name);
                }
            }
        }
    }
}

/// Nothing but spaces, tabs and line ends stands between two places.
pub open spec fn is_clear(bytes: Seq<u8>, from: int, to: int) -> bool {
    &&& from <= to
    &&& forall|i: int|
        from <= i < to ==> #[trigger] bytes[i] == 32 || bytes[i] == 9 || bytes[i] == 10 || bytes[i]
            == 13
}

/// What is skipped is blanks and nothing else, and all of them.
pub proof fn law_blanks_are_skipped(bytes: Seq<u8>, at: int)
    requires
        0 <= at <= bytes.len(),
    ensures
        at <= after_gap(bytes, at) <= bytes.len(),
        is_clear(bytes, at, after_gap(bytes, at)),
        after_gap(bytes, at) < bytes.len() ==> !is_clear(
            bytes,
            after_gap(bytes, at),
            after_gap(bytes, at) + 1,
        ),
    decreases bytes.len() - at,
{
    if at < bytes.len() && is_gap(bytes[at]) {
        law_blanks_are_skipped(bytes, at + 1);
    } else if at < bytes.len() {
        assert(bytes[at] == bytes[at]);
    }
}

/// A field stands in its text as a quoted name, a colon and a value, with nothing but
/// blanks between them: the name is what the quoted text spells, the value's text is
/// taken as it stands, and what comes next is no blank.
pub proof fn law_fields_are_name_colon_value(bytes: Seq<u8>, at: int)
    requires
        0 <= at <= bytes.len(),
    ensures
        field_after(bytes, at) matches Some((name, text, next)) ==> exists|
            start: int,
            named: int,
            colon: int,
            from: int,
            to: int,
        |
            {
                &&& is_clear(bytes, at, start)
                &&& bytes[start] == 34
                &&& start < named <= bytes.len()
                &&& crate::json::json_document(#[trigger] bytes.subrange(start, named)) == Some(
                    JsonView::Text(name),
                )
                &&& is_clear(bytes, named, colon)
                &&& #[trigger] bytes[colon] == 58
                &&& is_clear(bytes, colon + 1, from)
                &&& from < to <= bytes.len()
                &&& text == #[trigger] bytes.subrange(from, to)
                &&& is_clear(bytes, to, next)
                &&& next <= bytes.len()
            },
{
    if let Some((name, text, next)) = field_after(bytes, at) {
        let start = after_gap(bytes, at);
        law_blanks_are_skipped(bytes, at);
        let named = value_end(bytes, start)->0;
        law_blanks_are_skipped(bytes, named);
        let colon = after_gap(bytes, named);
        law_blanks_are_skipped(bytes, colon + 1);
        let from = after_gap(bytes, colon + 1);
        let to = value_end(bytes, from)->0;
        law_blanks_are_skipped(bytes, to);
        assert(bytes[colon] == 58);
        assert(crate::json::json_document(bytes.subrange(start, named)) == Some(
            JsonView::Text(name),
        ));
        assert(text == bytes.subrange(from, to));
    }
}

/// Fields are parted by commas and ended by a brace: one field stands before a closing
/// brace, and each field before it stands before a comma.
pub proof fn law_commas_part_the_fields(bytes: Seq<u8>, at: int)
    requires
        0 <= at <= bytes.len(),
    ensures
        fields_after(bytes, at) matches Some((fields, end)) ==> {
            &&& fields.len() > 0
            &&& field_after(bytes, at) matches Some((name, text, next))
            &&& fields[0] == (name, text)
            &&& fields.len() == 1 ==> bytes[next] == 125 && end == next + 1
            &&& fields.len() > 1 ==> bytes[next] == 44 && fields_after(bytes, next + 1) == Some(
                (fields.drop_first(), end),
            )
            &&& end <= bytes.len()
            &&& bytes[end - 1] == 125
        },
    decreases bytes.len() - at,
{
    if let Some((fields, end)) = fields_after(bytes, at) {
        let (name, text, next) = field_after(bytes, at)->0;
        if !stands(bytes, next, 125) {
            law_commas_part_the_fields(bytes, next + 1);
            let rest = (fields_after(bytes, next + 1)->0).0;
            assert((seq![(name, text)] + rest).drop_first() =~= rest);
        }
    }
}

/// Items are parted by commas and ended by a bracket, and each is taken as it stands.
pub proof fn law_commas_part_the_items(bytes: Seq<u8>, at: int)
    requires
        0 <= at <= bytes.len(),
    ensures
        items_after(bytes, at) matches Some((items, end)) ==> {
            &&& items.len() > 0
            &&& exists|from: int, to: int|
                {
                    &&& is_clear(bytes, at, from)
                    &&& from < to <= bytes.len()
                    &&& items[0] == #[trigger] bytes.subrange(from, to)
                }
            &&& item_after(bytes, at) matches Some((_, next))
            &&& items.len() == 1 ==> bytes[next] == 93 && end == next + 1
            &&& items.len() > 1 ==> bytes[next] == 44 && items_after(bytes, next + 1) == Some(
                (items.drop_first(), end),
            )
            &&& end <= bytes.len()
            &&& bytes[end - 1] == 93
        },
    decreases bytes.len() - at,
{
    if let Some((items, end)) = items_after(bytes, at) {
        let (text, next) = item_after(bytes, at)->0;
        law_blanks_are_skipped(bytes, at);
        let from = after_gap(bytes, at);
        let to = value_end(bytes, from)->0;
        assert(items[0] == bytes.subrange(from, to));
        if !stands(bytes, next, 93) {
            law_commas_part_the_items(bytes, next + 1);
            let rest = (items_after(bytes, next + 1)->0).0;
            assert((seq![text] + rest).drop_first() =~= rest);
        }
    }
}

/// A text with fields starts with an opening brace and ends with a closing one, a text
/// with items with brackets; nothing but blanks stands outside them.
pub proof fn law_braces_enclose_fields_and_brackets_items(bytes: Seq<u8>)
    ensures
        parts(bytes) matches Some(found) ==> exists|open: int, close: int|
            {
                &&& is_clear(bytes, 0, open)
                &&& open < close < bytes.len()
                &&& is_clear(bytes, close + 1, bytes.len() as int)
                &&& (#[trigger] bytes[open], #[trigger] bytes[close]) == if found is Fields {
                    (123u8, 125u8)
                } else {
                    (91u8, 93u8)
                }
            },
{
    if let Some(found) = parts(bytes) {
        let open = after_gap(bytes, 0);
        law_blanks_are_skipped(bytes, 0);
        law_blanks_are_skipped(bytes, open + 1);
        let first = after_gap(bytes, open + 1);
        let end = if stands(bytes, open, 123) {
            if stands(bytes, first, 125) {
                first + 1
            } else {
                (fields_after(bytes, open + 1)->0).1
            }
        } else if stands(bytes, first, 93) {
            first + 1
        } else {
            (items_after(bytes, open + 1)->0).1
        };
        law_commas_part_the_fields(bytes, open + 1);
        law_commas_part_the_items(bytes, open + 1);
        lemma_end_is_later(bytes, open + 1);
        law_blanks_are_skipped(bytes, end);
        assert((bytes[open], bytes[end - 1]) == if found is Fields {
            (123u8, 125u8)
        } else {
            (91u8, 93u8)
        });
    }
}

/// Fields and items end behind where they start.
proof fn lemma_end_is_later(bytes: Seq<u8>, at: int)
    requires
        0 <= at <= bytes.len(),
    ensures
        fields_after(bytes, at) matches Some((_, end)) ==> end > at,
        items_after(bytes, at) matches Some((_, end)) ==> end > at,
    decreases bytes.len() - at,
{
    if let Some((name, text, next)) = field_after(bytes, at) {
        law_fields_are_name_colon_value(bytes, at);
        if stands(bytes, next, 44) && at <= next {
            lemma_end_is_later(bytes, next + 1);
        }
    }
    if let Some((text, next)) = item_after(bytes, at) {
        law_blanks_are_skipped(bytes, at);
        law_blanks_are_skipped(bytes, value_end(bytes, after_gap(bytes, at))->0);
        if stands(bytes, next, 44) && at <= next {
            lemma_end_is_later(bytes, next + 1);
        }
    }
}

/// No object in a text repeats a name exactly if the text itself does not and none of
/// its parts does; a text without parts has nothing to repeat.
pub proof fn law_repetition_is_found_at_any_depth(text: Seq<u8>)
    ensures
        parts(text) is None ==> unrepeated(text),
        parts(text) matches Some(PartsView::Fields(fields)) ==> (unrepeated(text) <==> (forall|
            i: int,
            j: int,
        |
            0 <= i < j < fields.len() ==> (#[trigger] fields[i]).0 != (#[trigger] fields[j]).0) && (
        forall|i: int| 0 <= i < fields.len() ==> unrepeated((#[trigger] fields[i]).1))),
        parts(text) matches Some(PartsView::Items(items)) ==> (unrepeated(text) <==> forall|i: int|
            0 <= i < items.len() ==> unrepeated(#[trigger] items[i])),
{
}

/// What is found under a name is the text of the last field that has it.
pub proof fn law_last_field_of_a_name_is_found(
    fields: Seq<(Seq<char>, Seq<u8>)>,
    name: Seq<char>,
    i: int,
)
    requires
        0 <= i < fields.len(),
        fields[i].0 == name,
        forall|j: int| i < j < fields.len() ==> (#[trigger] fields[j]).0 != name,
    ensures
        text_under(fields, name) == Some(fields[i].1),
    decreases fields.len(),
{
    let end = fields.len() - 1;
    if i < end {
        let rest = fields.drop_last();
        assert(fields[end].0 != name);
        assert forall|j: int| i < j < rest.len() implies (#[trigger] rest[j]).0 != name by {
            assert(rest[j] == fields[j]);
        }
        law_last_field_of_a_name_is_found(rest, name, i);
    }
}

/// The value of a part is what the text gives as the only item of a list.
pub proof fn law_parts_are_read_inside_a_list(text: Seq<u8>, value: JsonView)
    ensures
        part_value(text) == Some(value) <==> crate::json::json_document(
            seq![91u8] + text + seq![93u8],
        ) == Some(JsonView::List(seq![value])),
{
    if part_value(text) == Some(value) {
        let items = crate::json::json_document(seq![91u8] + text + seq![93u8])->0->List_0;
        assert(items =~= seq![value]);
    }
}

} // verus!
