//! JSON values as plain data, and how records are read from them.

use serde::de::IgnoredAny;
use vstd::prelude::*;
use crate::text::same;

verus! {

/// A JSON value. Numbers are told apart by whether they are unsigned integers; any
/// other number is kept as its text.
#[derive(Debug, PartialEq, Eq)]
pub enum Json {
    Null,
    Bool(bool),
    Number(u64),
    OtherNumber(String),
    Text(String),
    List(Vec<Json>),
    Object(Vec<(String, Json)>),
}

/// The meaning of a JSON value.
pub enum JsonView {
    Null,
    Bool(bool),
    Number(u64),
    OtherNumber(Seq<char>),
    Text(Seq<char>),
    List(Seq<JsonView>),
    Object(Seq<(Seq<char>, JsonView)>),
}

impl View for Json {
    type V = JsonView;

    open spec fn view(&self) -> JsonView {
        meaning(*self)
    }
}

/// What a JSON value holds, all the way down.
pub open spec fn meaning(value: Json) -> JsonView
    decreases value,
{
    match value {
        Json::Null => JsonView::Null,
        Json::Bool(flag) => JsonView::Bool(flag),
        Json::Number(number) => JsonView::Number(number),
        Json::OtherNumber(number) => JsonView::OtherNumber(number@),
        Json::Text(text) => JsonView::Text(text@),
        Json::List(items) => JsonView::List(
            Seq::new(
                items@.len(),
                |i: int|
                    if 0 <= i < items@.len() {
                        meaning(items@[i])
                    } else {
                        JsonView::Null
                    },
            ),
        ),
        Json::Object(fields) => JsonView::Object(
            Seq::new(
                fields@.len(),
                |i: int|
                    if 0 <= i < fields@.len() {
                        (fields@[i].0@, meaning(fields@[i].1))
                    } else {
                        (Seq::empty(), JsonView::Null)
                    },
            ),
        ),
    }
}

/// The value of the first field with the given name.
pub open spec fn lookup(fields: Seq<(Seq<char>, JsonView)>, name: Seq<char>) -> Option<JsonView>
    decreases fields.len(),
{
    if fields.len() == 0 {
        None
    } else if fields[0].0 == name {
        Some(fields[0].1)
    } else {
        lookup(fields.drop_first(), name)
    }
}

impl JsonView {
    /// The named field of an object.
    pub open spec fn field(self, name: Seq<char>) -> Option<JsonView> {
        match self {
            JsonView::Object(fields) => lookup(fields, name),
            _ => None,
        }
    }

    pub open spec fn text(self) -> Option<Seq<char>> {
        match self {
            JsonView::Text(text) => Some(text),
            _ => None,
        }
    }

    pub open spec fn flag(self) -> Option<bool> {
        match self {
            JsonView::Bool(flag) => Some(flag),
            _ => None,
        }
    }

    pub open spec fn number(self) -> Option<u64> {
        match self {
            JsonView::Number(number) => Some(number),
            _ => None,
        }
    }

    /// The texts of a list that holds nothing but texts.
    pub open spec fn texts(self) -> Option<Seq<Seq<char>>> {
        match self {
            JsonView::List(items) => if forall|i: int|
                0 <= i < items.len() ==> (#[trigger] items[i]) is Text {
                Some(items.map_values(|item: JsonView| item->Text_0))
            } else {
                None
            },
            _ => None,
        }
    }

    /// A record is an object, or the list of its fields in order. The fields from
    /// `required` on may be left out of a list.
    pub open spec fn is_record(self, required: int, fields: int) -> bool {
        match self {
            JsonView::Object(_) => true,
            JsonView::List(items) => required <= items.len() <= fields,
            _ => false,
        }
    }

    /// The field of a record with the given place and name.
    pub open spec fn part(self, place: int, name: Seq<char>) -> Option<JsonView> {
        match self {
            JsonView::Object(fields) => lookup(fields, name),
            JsonView::List(items) => if 0 <= place < items.len() {
                Some(items[place])
            } else {
                None
            },
            _ => None,
        }
    }
}

/// No two fields of an object have the same name.
pub open spec fn distinct_fields(fields: Seq<(Seq<char>, JsonView)>) -> bool {
    forall|i: int, j: int|
        0 <= i < j < fields.len() ==> (#[trigger] fields[i]).0 != (#[trigger] fields[j]).0
}

/// Where names are distinct, every field is found under its name.
pub proof fn lemma_lookup(fields: Seq<(Seq<char>, JsonView)>, k: int)
    requires
        0 <= k < fields.len(),
        distinct_fields(fields),
    ensures
        lookup(fields, fields[k].0) == Some(fields[k].1),
    decreases k,
{
    if k > 0 {
        assert(fields[0].0 != fields[k].0);
        let rest = fields.drop_first();
        assert forall|i: int, j: int| 0 <= i < j < rest.len() implies (#[trigger] rest[i]).0 != (
        #[trigger] rest[j]).0 by {
            assert(fields[i + 1].0 != fields[j + 1].0);
        }
        assert(rest[k - 1] == fields[k]);
        lemma_lookup(rest, k - 1);
    }
}

/// The names and values of an object's fields.
pub open spec fn fields_seen(fields: Seq<(String, Json)>) -> Seq<(Seq<char>, JsonView)> {
    fields.map_values(|field: (String, Json)| (field.0@, field.1@))
}

/// What an object means.
pub proof fn lemma_object(fields: Vec<(String, Json)>)
    ensures
        (Json::Object(fields))@ == JsonView::Object(fields_seen(fields@)),
{
    assert((Json::Object(fields))@->Object_0 =~= fields_seen(fields@));
}

/// The meanings of a list's items.
pub open spec fn items_seen(items: Seq<Json>) -> Seq<JsonView> {
    items.map_values(|item: Json| item@)
}

/// What a list means.
pub proof fn lemma_list(items: Vec<Json>)
    ensures
        (Json::List(items))@ == JsonView::List(items_seen(items@)),
{
    assert((Json::List(items))@->List_0 =~= items_seen(items@));
}

impl JsonView {
    /// A value that is written and read back unchanged: its numbers are unsigned
    /// integers, no object has a name twice, and it is not nested too deep.
    pub open spec fn fits(self, levels: nat) -> bool
        decreases levels,
    {
        levels > 0 && match self {
            JsonView::OtherNumber(_) => false,
            JsonView::List(items) => forall|i: int|
                0 <= i < items.len() ==> (#[trigger] items[i]).fits((levels - 1) as nat),
            JsonView::Object(fields) => {
                &&& distinct_fields(fields)
                &&& forall|i: int|
                    0 <= i < fields.len() ==> (#[trigger] fields[i]).1.fits((levels - 1) as nat)
            },
            _ => true,
        }
    }
}

/// How deep a value that is written can be nested.
pub const WRITABLE_LEVELS: u32 = 100;

/// The named text field of an optional value.
pub open spec fn text_at(value: Option<JsonView>) -> Option<Seq<char>> {
    match value {
        Some(value) => value.text(),
        None => None,
    }
}

/// The flag in an optional value.
pub open spec fn flag_at(value: Option<JsonView>) -> Option<bool> {
    match value {
        Some(value) => value.flag(),
        None => None,
    }
}

/// The number in an optional value.
pub open spec fn number_at(value: Option<JsonView>) -> Option<u64> {
    match value {
        Some(value) => value.number(),
        None => None,
    }
}

/// The texts of the list in an optional value.
pub open spec fn texts_at(value: Option<JsonView>) -> Option<Seq<Seq<char>>> {
    match value {
        Some(value) => value.texts(),
        None => None,
    }
}

/// The named field of an optional value.
pub open spec fn field_at(value: Option<JsonView>, name: Seq<char>) -> Option<JsonView> {
    match value {
        Some(value) => value.field(name),
        None => None,
    }
}

/// A parsed `serde_json` value, on its way to plain data.
#[verifier::external_type_specification]
#[verifier::external_body]
pub struct ExValue(serde_json::Value);

/// The value that `serde_json` reads from the bytes, if they are a JSON document.
pub uninterp spec fn json_document(bytes: Seq<u8>) -> Option<JsonView>;

/// Why `serde_json` reads no value from the bytes, in its words.
pub uninterp spec fn json_fault(bytes: Seq<u8>) -> Seq<char>;

/// `serde_json::from_slice` into a `serde_json::Value`: the bytes decide whether
/// there is a value, and which one, or why there is none. The fields of an object come
/// in the order of their names' first use; one that repeats a name has its last value.
#[verifier::external_body]
pub(crate) fn read_json(bytes: &[u8]) -> (document: Result<Json, String>)
    ensures
        match document {
            Ok(value) => json_document(bytes@) == Some(value@),
            Err(fault) => json_document(bytes@) is None && fault@ == json_fault(bytes@),
        },
{
    serde_json::from_slice::<serde_json::Value>(bytes).map(plain).map_err(|error| error.to_string())
}

/// How many bytes the first JSON value takes, with the blanks before it, if
/// `serde_json` finds one when it skips it unread.
pub uninterp spec fn json_extent(bytes: Seq<u8>) -> Option<nat>;

/// `serde_json::Deserializer::into_iter` over `serde::de::IgnoredAny`, and
/// `StreamDeserializer::byte_offset` behind the first value: the bytes decide whether
/// there is a value that can be skipped, and where it ends.
#[verifier::external_body]
pub(crate) fn value_extent(bytes: &[u8]) -> (extent: Option<usize>)
    ensures
        match extent {
            Some(extent) => json_extent(bytes@) == Some(extent as nat) && 0 < extent
                <= bytes@.len(),
            None => json_extent(bytes@) is None,
        },
{
    let mut values = serde_json::Deserializer::from_slice(bytes).into_iter::<IgnoredAny>();
    match values.next() {
        Some(Ok(_)) => Some(values.byte_offset()),
        _ => None,
    }
}

/// A `serde_json::Value` as plain data, variant by variant.
#[verifier::external_body]
fn plain(value: serde_json::Value) -> Json {
    match value {
        serde_json::Value::Null => Json::Null,
        serde_json::Value::Bool(flag) => Json::Bool(flag),
        serde_json::Value::Number(number) => match number.as_u64() {
            Some(number) => Json::Number(number),
            None => Json::OtherNumber(number.to_string()),
        },
        serde_json::Value::String(text) => Json::Text(text),
        serde_json::Value::Array(items) => Json::List(items.into_iter().map(plain).collect()),
        serde_json::Value::Object(fields) => Json::Object(
            fields.into_iter().map(|(name, value)| (name, plain(value))).collect(),
        ),
    }
}

/// The bytes that `serde_json` writes for a value, indented.
pub uninterp spec fn json_bytes(value: JsonView) -> Option<Seq<u8>>;

/// `serde_json::to_vec_pretty` of a `serde_json::Value`: the value decides whether
/// it is written, and how. What is written is read back as the same value, and each
/// part of the value from its part of the text.
#[verifier::external_body]
pub(crate) fn write_json(value: &Json) -> (bytes: Option<Vec<u8>>)
    requires
        value@.fits(WRITABLE_LEVELS as nat),
    ensures
        match bytes {
            Some(bytes) => json_bytes(value@) == Some(bytes@) && crate::record::spells(
                bytes@,
                value@,
            ),
            None => json_bytes(value@) is None,
        },
{
    serde_json::to_vec_pretty(&outside(value)).ok()
}

/// The text that `serde_json` displays a value as, without blanks.
pub uninterp spec fn json_text(value: JsonView) -> Seq<char>;

/// `serde_json::Value::to_string`: the value decides its text. A value that fits is
/// read back from it.
#[verifier::external_body]
pub(crate) fn show_json(value: &Json) -> (text: String)
    ensures
        text@ == json_text(value@),
        value@.fits(WRITABLE_LEVELS as nat) ==> json_document(vstd::utf8::encode_utf8(text@))
            == Some(value@),
{
    outside(value).to_string()
}

/// The text that `serde_json` displays a value as once the names of its objects ascend.
pub uninterp spec fn json_sorted_text(value: JsonView) -> Seq<char>;

/// `serde_json::Value::sort_all_objects`, and `to_string` of the value with its names
/// in order: the value decides its text.
#[verifier::external_body]
fn show_sorted(value: &Json) -> (text: String)
    ensures
        text@ == json_sorted_text(value@),
{
    let mut value = outside(value);
    value.sort_all_objects();
    value.to_string()
}

/// How the value of a field is displayed; a missing one is displayed as `null` is.
pub open spec fn displayed(value: Option<JsonView>) -> Seq<char> {
    match value {
        Some(value) => json_sorted_text(value),
        None => json_sorted_text(JsonView::Null),
    }
}

/// How the value of a field is displayed.
pub fn display(value: Option<&Json>) -> (text: String)
    ensures
        text@ == displayed(seen(value)),
{
    match value {
        Some(value) => show_sorted(value),
        None => show_sorted(&Json::Null),
    }
}

/// Plain data as a `serde_json::Value`, variant by variant.
#[verifier::external_body]
fn outside(value: &Json) -> serde_json::Value {
    match value {
        Json::Null => serde_json::Value::Null,
        Json::Bool(flag) => serde_json::Value::Bool(*flag),
        Json::Number(number) => serde_json::Value::Number((*number).into()),
        Json::OtherNumber(number) => number.parse().map_or(
            serde_json::Value::Null,
            serde_json::Value::Number,
        ),
        Json::Text(text) => serde_json::Value::String(text.clone()),
        Json::List(items) => serde_json::Value::Array(items.iter().map(outside).collect()),
        Json::Object(fields) => serde_json::Value::Object(
            fields.iter().map(|(name, value)| (name.clone(), outside(value))).collect(),
        ),
    }
}

impl Json {
    /// The first field with the given name.
    fn find<'a>(fields: &'a Vec<(String, Json)>, name: &str) -> (value: Option<&'a Json>)
        ensures
            match value {
                Some(value) => lookup((Json::Object(*fields))@->Object_0, name@) == Some(value@),
                None => lookup((Json::Object(*fields))@->Object_0, name@) is None,
            },
    {
        let ghost all = (Json::Object(*fields))@->Object_0;
        let mut i: usize = 0;
        assert(all.skip(0) =~= all);
        while i < fields.len()
            invariant
                i <= fields.len(),
                all == (Json::Object(*fields))@->Object_0,
                lookup(all, name@) == lookup(all.skip(i as int), name@),
            decreases fields.len() - i,
        {
            assert(all.skip(i as int)[0] == (fields@[i as int].0@, fields@[i as int].1@));
            assert(all.skip(i as int).drop_first() =~= all.skip(i + 1));
            if same(&fields[i].0, name) {
                return Some(&fields[i].1);
            }
            i = i + 1;
        }
        None
    }

    /// The named field of an object.
    pub fn field(&self, name: &str) -> (value: Option<&Json>)
        ensures
            match value {
                Some(value) => self@.field(name@) == Some(value@),
                None => self@.field(name@) is None,
            },
    {
        match self {
            Json::Object(fields) => Json::find(fields, name),
            _ => None,
        }
    }

    /// The field of a record with the given place and name.
    pub fn part(&self, place: usize, name: &str) -> (value: Option<&Json>)
        ensures
            match value {
                Some(value) => self@.part(place as int, name@) == Some(value@),
                None => self@.part(place as int, name@) is None,
            },
    {
        match self {
            Json::Object(fields) => Json::find(fields, name),
            Json::List(items) => if place < items.len() {
                Some(&items[place])
            } else {
                None
            },
            _ => None,
        }
    }

    /// Whether the value can be a record with so many fields.
    pub fn is_record(&self, required: usize, fields: usize) -> (record: bool)
        ensures
            record == self@.is_record(required as int, fields as int),
    {
        match self {
            Json::Object(_) => true,
            Json::List(items) => required <= items.len() && items.len() <= fields,
            _ => false,
        }
    }
}

/// The text in an optional value.
pub fn text_in(value: Option<&Json>) -> (text: Option<String>)
    ensures
        match text {
            Some(text) => text_at(seen(value)) == Some(text@),
            None => text_at(seen(value)) is None,
        },
{
    match value {
        Some(Json::Text(text)) => Some(text.clone()),
        _ => None,
    }
}

/// The flag in an optional value.
pub fn flag_in(value: Option<&Json>) -> (flag: Option<bool>)
    ensures
        flag == flag_at(seen(value)),
{
    match value {
        Some(Json::Bool(flag)) => Some(*flag),
        _ => None,
    }
}

/// The number in an optional value.
pub fn number_in(value: Option<&Json>) -> (number: Option<u64>)
    ensures
        number == number_at(seen(value)),
{
    match value {
        Some(Json::Number(number)) => Some(*number),
        _ => None,
    }
}

/// The texts of the list in an optional value.
pub fn texts_in(value: Option<&Json>) -> (texts: Option<Vec<String>>)
    ensures
        match texts {
            Some(texts) => texts_at(seen(value)) == Some(crate::text::texts(texts@)),
            None => texts_at(seen(value)) is None,
        },
{
    match value {
        Some(Json::List(items)) => {
            let ghost all = (Json::List(*items))@->List_0;
            let mut texts: Vec<String> = Vec::new();
            let mut i: usize = 0;
            while i < items.len()
                invariant
                    i <= items.len(),
                    all == (Json::List(*items))@->List_0,
                    seen(value) == Some(JsonView::List(all)),
                    texts@.len() == i,
                    forall|j: int|
                        0 <= j < i ==> (#[trigger] all[j]) is Text && all[j]->Text_0 == texts@[j]@,
                decreases items.len() - i,
            {
                assert(all[i as int] == items@[i as int]@);
                match &items[i] {
                    Json::Text(text) => {
                        texts.push(text.clone());
                    },
                    _ => {
                        assert(!(all[i as int] is Text));
                        return None;
                    },
                }
                i = i + 1;
            }
            assert(crate::text::texts(texts@) =~= all.map_values(|item: JsonView| item->Text_0));
            Some(texts)
        },
        _ => None,
    }
}

/// The meaning of an optional value.
pub open spec fn seen(value: Option<&Json>) -> Option<JsonView> {
    match value {
        Some(value) => Some(value@),
        None => None,
    }
}

/// The value is an object, and `part` is what its first field of the name holds.
pub open spec fn has(value: JsonView, name: Seq<char>, part: JsonView) -> bool {
    &&& value matches JsonView::Object(fields)
    &&& exists|i: int|
        0 <= i < fields.len() && #[trigger] fields[i] == (name, part) && forall|j: int|
            0 <= j < i ==> (#[trigger] fields[j]).0 != name
}

/// The value is no object, or one without a field of the name.
pub open spec fn lacks(value: JsonView, name: Seq<char>) -> bool {
    value matches JsonView::Object(fields) ==> forall|i: int|
        0 <= i < fields.len() ==> (#[trigger] fields[i]).0 != name
}

proof fn lemma_first_field(fields: Seq<(Seq<char>, JsonView)>, name: Seq<char>) -> (i: int)
    ensures
        0 <= i <= fields.len(),
        forall|j: int| 0 <= j < i ==> (#[trigger] fields[j]).0 != name,
        i < fields.len() ==> fields[i].0 == name && lookup(fields, name) == Some(fields[i].1),
        i == fields.len() ==> lookup(fields, name) is None,
    decreases fields.len(),
{
    if fields.len() == 0 || fields[0].0 == name {
        0
    } else {
        let i = lemma_first_field(fields.drop_first(), name);
        assert forall|j: int| 0 <= j < i + 1 implies (#[trigger] fields[j]).0 != name by {
            if j > 0 {
                assert(fields.drop_first()[j - 1] == fields[j]);
            }
        }
        i + 1
    }
}

/// A field is found under its name alone: the first of that name is taken, and what
/// else an object holds does not matter. Nothing but an object has fields.
pub proof fn law_field_is_the_first_of_its_name(value: JsonView, name: Seq<char>, part: JsonView)
    ensures
        value.field(name) == Some(part) <==> has(value, name, part),
        value.field(name) is None <==> lacks(value, name),
        value is Object ==> forall|place: int|
            #![trigger value.part(place, name)]
            value.part(place, name) == value.field(name),
{
    if let JsonView::Object(fields) = value {
        let i = lemma_first_field(fields, name);
        if i < fields.len() {
            assert(fields[i] == (name, fields[i].1));
        }
        if has(value, name, part) {
            let k = choose|k: int|
                0 <= k < fields.len() && #[trigger] fields[k] == (name, part) && forall|j: int|
                    0 <= j < k ==> (#[trigger] fields[j]).0 != name;
            if k < i {
                assert(fields[k].0 != name);
            } else if i < k {
                assert(fields[i].0 != name);
            }
        }
    }
}

/// Texts, flags and numbers are taken from values of their own kind alone.
pub proof fn law_plain_values_are_taken_as_they_are(
    value: Option<JsonView>,
    text: Seq<char>,
    flag: bool,
    number: u64,
)
    ensures
        text_at(value) == Some(text) <==> value == Some(JsonView::Text(text)),
        flag_at(value) == Some(flag) <==> value == Some(JsonView::Bool(flag)),
        number_at(value) == Some(number) <==> value == Some(JsonView::Number(number)),
{
}

/// A list of texts is taken if it holds nothing else, item by item.
pub proof fn law_text_lists_hold_texts_alone(value: JsonView, texts: Seq<Seq<char>>)
    ensures
        texts_at(Some(value)) == Some(texts) <==> (value matches JsonView::List(items)
            && items.len() == texts.len() && forall|i: int|
            0 <= i < items.len() ==> #[trigger] items[i] == JsonView::Text(texts[i])),
{
    if let JsonView::List(items) = value {
        if items.len() == texts.len() && forall|i: int|
            0 <= i < items.len() ==> #[trigger] items[i] == JsonView::Text(texts[i]) {
            assert(items.map_values(|item: JsonView| item->Text_0) =~= texts);
        }
        if texts_at(Some(value)) == Some(texts) {
            assert forall|i: int| 0 <= i < items.len() implies #[trigger] items[i]
                == JsonView::Text(texts[i]) by {
                assert(texts[i] == items[i]->Text_0);
            }
        }
    }
}

} // verus!
