//! JSON documents, as the sources send them and as the adapters build them.
use crate::text::{self, number_of, opt_str};
use serde_json::Value;
use vstd::prelude::*;

verus! {

/// A JSON number: an integer from zero up, an integer below zero, or the bit
/// pattern of a double.
#[derive(Debug, Clone, Copy, PartialEq, Eq)]
pub enum Number {
    Unsigned(u64),
    Negative(i64),
    Double(u64),
}

/// A JSON value. A record keeps its fields in order.
#[derive(Debug)]
pub enum Json {
    Null,
    Bool(bool),
    Number(Number),
    Text(String),
    List(Vec<Json>),
    Record(Vec<(String, Json)>),
}

/// The mathematical value of a [`Json`].
#[verifier::ext_equal]
pub enum JsonView {
    Null,
    Bool(bool),
    Number(Number),
    Text(Seq<char>),
    List(Seq<JsonView>),
    Record(Seq<(Seq<char>, JsonView)>),
}

impl View for Json {
    type V = JsonView;

    open spec fn view(&self) -> JsonView {
        json_view(*self)
    }
}

/// The mathematical value of a [`Json`].
pub open spec fn json_view(value: Json) -> JsonView
    decreases value,
{
    match value {
        Json::Null => JsonView::Null,
        Json::Bool(flag) => JsonView::Bool(flag),
        Json::Number(number) => JsonView::Number(number),
        Json::Text(text) => JsonView::Text(text@),
        Json::List(items) => JsonView::List(
            Seq::new(
                items@.len(),
                |i: int|
                    if 0 <= i < items@.len() {
                        json_view(items@[i])
                    } else {
                        JsonView::Null
                    },
            ),
        ),
        Json::Record(fields) => JsonView::Record(
            Seq::new(
                fields@.len(),
                |i: int|
                    if 0 <= i < fields@.len() {
                        (fields@[i].0@, json_view(fields@[i].1))
                    } else {
                        (Seq::empty(), JsonView::Null)
                    },
            ),
        ),
    }
}

/// The mathematical values of a list.
pub open spec fn list_view(items: Seq<Json>) -> Seq<JsonView> {
    Seq::new(items.len(), |i: int| items[i]@)
}

/// The mathematical values of the fields of a record.
pub open spec fn fields_view(fields: Seq<(String, Json)>) -> Seq<(Seq<char>, JsonView)> {
    Seq::new(fields.len(), |i: int| (fields[i].0@, fields[i].1@))
}

/// An optional value, mathematically.
pub open spec fn opt_json(value: Option<Json>) -> Option<JsonView> {
    match value {
        Some(value) => Some(value@),
        None => None,
    }
}

/// An optional borrowed value, mathematically.
pub open spec fn opt_ref(value: Option<&Json>) -> Option<JsonView> {
    match value {
        Some(value) => Some(value@),
        None => None,
    }
}

/// The value of a list is the list of the values.
pub proof fn list_unfolds(items: Vec<Json>)
    ensures
        Json::List(items)@ == JsonView::List(list_view(items@)),
{
    assert(Json::List(items)@->List_0 =~= list_view(items@));
}

/// The value of a record is the record of the values.
pub proof fn record_unfolds(fields: Vec<(String, Json)>)
    ensures
        Json::Record(fields)@ == JsonView::Record(fields_view(fields@)),
{
    assert(Json::Record(fields)@->Record_0 =~= fields_view(fields@));
}

impl Clone for Json {
    fn clone(&self) -> (result: Json)
        ensures
            result@ == self@,
        decreases self,
    {
        match self {
            Json::Null => Json::Null,
            Json::Bool(flag) => Json::Bool(*flag),
            Json::Number(number) => Json::Number(*number),
            Json::Text(text) => Json::Text(text.clone()),
            Json::List(items) => {
                let mut copies: Vec<Json> = Vec::new();
                let mut i: usize = 0;
                while i < items.len()
                    invariant
                        i <= items@.len(),
                        copies@.len() == i,
                        forall|j: int| 0 <= j < i ==> (#[trigger] copies@[j])@ == items@[j]@,
                        self == Json::List(*items),
                    decreases items.len() - i,
                {
                    assert(decreases_to!(*self => self->List_0));
                    assert(decreases_to!(*items => items@));
                    assert(decreases_to!(items@ => items@[i as int]));
                    let copy = items[i].clone();
                    copies.push(copy);
                    i += 1;
                }
                let result = Json::List(copies);
                assert(result@->List_0 =~= self@->List_0);
                result
            },
            Json::Record(fields) => {
                let mut copies: Vec<(String, Json)> = Vec::new();
                let mut i: usize = 0;
                while i < fields.len()
                    invariant
                        i <= fields@.len(),
                        copies@.len() == i,
                        forall|j: int|
                            0 <= j < i ==> (#[trigger] copies@[j]).0@ == fields@[j].0@ && copies@[j].1@ == fields@[j].1@,
                        self == Json::Record(*fields),
                    decreases fields.len() - i,
                {
                    assert(decreases_to!(*self => self->Record_0));
                    assert(decreases_to!(*fields => fields@));
                    assert(decreases_to!(fields@ => fields@[i as int]));
                    assert(decreases_to!(fields@[i as int] => fields@[i as int].1));
                    let copy = fields[i].1.clone();
                    copies.push((fields[i].0.clone(), copy));
                    i += 1;
                }
                let result = Json::Record(copies);
                assert(result@->Record_0 =~= self@->Record_0);
                result
            },
        }
    }
}

// ---------------------------------------------------------------------------
// Reading
// ---------------------------------------------------------------------------

/// The place of the last field with the given name, or -1. Where a source
/// repeats a name, the last value is the one that counts.
pub open spec fn last_place(fields: Seq<(Seq<char>, JsonView)>, name: Seq<char>) -> int
    decreases fields.len(),
{
    if fields.len() == 0 {
        -1
    } else if fields.last().0 == name {
        fields.len() - 1
    } else {
        last_place(fields.drop_last(), name)
    }
}

/// The value of a field of a record.
pub open spec fn field(value: JsonView, name: Seq<char>) -> Option<JsonView> {
    match value {
        JsonView::Record(fields) => {
            let place = last_place(fields, name);
            if place >= 0 {
                Some(fields[place].1)
            } else {
                None
            }
        },
        _ => None,
    }
}

/// The place in a list that a token of a path names.
pub open spec fn index_of(token: Seq<char>) -> Option<u64> {
    if token.len() > 0 && (token[0] == '+' || (token[0] == '0' && token.len() != 1)) {
        None
    } else {
        number_of(token)
    }
}

/// One step of a path into a document: a field of a record by its name, an
/// element of a list by its place.
pub open spec fn child(value: Option<JsonView>, token: Seq<char>) -> Option<JsonView> {
    match value {
        Some(JsonView::Record(fields)) => field(JsonView::Record(fields), token),
        Some(JsonView::List(items)) => match index_of(token) {
            Some(place) if place < items.len() => Some(items[place as int]),
            _ => None,
        },
        _ => None,
    }
}

/// The text of a text value.
pub open spec fn as_text(value: Option<JsonView>) -> Option<Seq<char>> {
    match value {
        Some(JsonView::Text(text)) => Some(text),
        _ => None,
    }
}

/// The elements of a list value.
pub open spec fn as_list(value: Option<JsonView>) -> Option<Seq<JsonView>> {
    match value {
        Some(JsonView::List(items)) => Some(items),
        _ => None,
    }
}

/// The fields of a record value.
pub open spec fn as_record(value: Option<JsonView>) -> Option<Seq<(Seq<char>, JsonView)>> {
    match value {
        Some(JsonView::Record(fields)) => Some(fields),
        _ => None,
    }
}

/// The first of two values that is there.
pub open spec fn either(first: Option<JsonView>, second: Option<JsonView>) -> Option<JsonView> {
    if first is Some {
        first
    } else {
        second
    }
}

/// The text of a text value, or the empty text.
pub open spec fn text_or_empty(value: Option<JsonView>) -> Seq<char> {
    match as_text(value) {
        Some(text) => text,
        None => Seq::empty(),
    }
}

/// The place of the last field with the given name.
fn find_field(fields: &Vec<(String, Json)>, name: &str) -> (result: Option<usize>)
    ensures
        match result {
            Some(place) => place < fields@.len() && place == last_place(fields_view(fields@), name@),
            None => last_place(fields_view(fields@), name@) == -1,
        },
{
    let ghost view = fields_view(fields@);
    let mut i: usize = fields.len();
    assert(view.take(i as int) =~= view);
    while i > 0
        invariant
            i <= fields@.len(),
            view == fields_view(fields@),
            last_place(view, name@) == last_place(view.take(i as int), name@),
        decreases i,
    {
        assert(view.take(i as int).last() == view[i - 1]);
        assert(view.take(i as int).drop_last() =~= view.take(i - 1));
        if text::same(fields[i - 1].0.as_str(), name) {
            return Some(i - 1);
        }
        i -= 1;
    }
    None
}

impl Json {
    /// The value of a field of a record.
    pub fn get(&self, name: &str) -> (result: Option<&Json>)
        ensures
            opt_ref(result) == field(self@, name@),
    {
        match self {
            Json::Record(fields) => {
                proof {
                    record_unfolds(*fields);
                }
                match find_field(fields, name) {
                    Some(place) => Some(&fields[place].1),
                    None => None,
                }
            },
            _ => None,
        }
    }

    /// The text of a text value.
    pub fn as_str(&self) -> (result: Option<&str>)
        ensures
            opt_str(result) == as_text(Some(self@)),
    {
        match self {
            Json::Text(text) => Some(text.as_str()),
            _ => None,
        }
    }

    /// The elements of a list value.
    pub fn as_array(&self) -> (result: Option<&Vec<Json>>)
        ensures
            match result {
                Some(items) => as_list(Some(self@)) == Some(list_view(items@)),
                None => as_list(Some(self@)) is None,
            },
    {
        match self {
            Json::List(items) => {
                proof {
                    list_unfolds(*items);
                }
                Some(items)
            },
            _ => None,
        }
    }

    /// The fields of a record value.
    pub fn as_object(&self) -> (result: Option<&Vec<(String, Json)>>)
        ensures
            match result {
                Some(fields) => as_record(Some(self@)) == Some(fields_view(fields@)),
                None => as_record(Some(self@)) is None,
            },
    {
        match self {
            Json::Record(fields) => {
                proof {
                    record_unfolds(*fields);
                }
                Some(fields)
            },
            _ => None,
        }
    }
}

/// One step of a path into a document.
pub fn step<'a>(value: Option<&'a Json>, token: &str) -> (result: Option<&'a Json>)
    ensures
        opt_ref(result) == child(opt_ref(value), token@),
{
    match value {
        Some(Json::List(items)) => {
            proof {
                list_unfolds(*items);
            }
            let chars = text::chars_of(token);
            if chars.len() > 0 && (chars[0] == '+' || (chars[0] == '0' && chars.len() != 1)) {
                return None;
            }
            match text::parse_number(token) {
                Some(place) if place < items.len() as u64 => Some(&items[place as usize]),
                _ => None,
            }
        },
        Some(Json::Record(fields)) => {
            proof {
                record_unfolds(*fields);
            }
            value.unwrap().get(token)
        },
        _ => None,
    }
}

/// The first of two values that is there.
pub fn first_of<'a>(first: Option<&'a Json>, second: Option<&'a Json>) -> (result: Option<&'a Json>)
    ensures
        opt_ref(result) == either(opt_ref(first), opt_ref(second)),
{
    match first {
        Some(value) => Some(value),
        None => second,
    }
}

/// The text of an optional text value.
pub fn text_at(value: Option<&Json>) -> (result: Option<&str>)
    ensures
        opt_str(result) == as_text(opt_ref(value)),
{
    match value {
        Some(value) => value.as_str(),
        None => None,
    }
}

/// The text of an optional text value, or the empty text.
pub fn text_or_default(value: Option<&Json>) -> (result: String)
    ensures
        result@ == text_or_empty(opt_ref(value)),
{
    match text_at(value) {
        Some(text) => text.to_owned(),
        None => String::new(),
    }
}

/// The elements of an optional list value, or none.
pub fn list_or_default(value: Option<&Json>) -> (result: Vec<Json>)
    ensures
        match as_list(opt_ref(value)) {
            Some(items) => list_view(result@) == items,
            None => result@.len() == 0,
        },
{
    let mut result: Vec<Json> = Vec::new();
    match value {
        Some(value) => match value.as_array() {
            Some(items) => {
                let mut i: usize = 0;
                while i < items.len()
                    invariant
                        i <= items@.len(),
                        result@.len() == i,
                        forall|j: int| 0 <= j < i ==> (#[trigger] result@[j])@ == items@[j]@,
                    decreases items.len() - i,
                {
                    let copy = items[i].clone();
                    result.push(copy);
                    i += 1;
                }
                assert(list_view(result@) =~= list_view(items@));
            },
            None => {},
        },
        None => {},
    }
    result
}

// ---------------------------------------------------------------------------
// Writing
// ---------------------------------------------------------------------------

/// The fields of a record with one of them set.
pub open spec fn fields_with(fields: Seq<(Seq<char>, JsonView)>, name: Seq<char>, value: JsonView) -> Seq<
    (Seq<char>, JsonView),
> {
    let place = last_place(fields, name);
    if place >= 0 {
        fields.update(place, (name, value))
    } else {
        fields.push((name, value))
    }
}

/// A record with one field set; any other value as it is.
pub open spec fn with_field(value: JsonView, name: Seq<char>, entry: JsonView) -> JsonView {
    match value {
        JsonView::Record(fields) => JsonView::Record(fields_with(fields, name, entry)),
        other => other,
    }
}

/// A text value.
pub fn text_value(text: &str) -> (result: Json)
    ensures
        result@ == JsonView::Text(text@),
{
    Json::Text(text.to_owned())
}

/// An integer value.
pub fn number_value(number: u64) -> (result: Json)
    ensures
        result@ == JsonView::Number(Number::Unsigned(number)),
{
    Json::Number(Number::Unsigned(number))
}

/// A list value with one element.
pub fn single(item: Json) -> (result: Json)
    ensures
        result@ == JsonView::List(seq![item@]),
{
    let items = vec![item];
    proof {
        list_unfolds(items);
        assert(list_view(items@) =~= seq![item@]);
    }
    Json::List(items)
}

/// A record of the given fields.
pub fn record(fields: Vec<(String, Json)>) -> (result: Json)
    ensures
        result@ == JsonView::Record(fields_view(fields@)),
{
    proof {
        record_unfolds(fields);
    }
    Json::Record(fields)
}

/// A list without fields.
pub fn no_fields() -> (result: Vec<(String, Json)>)
    ensures
        fields_view(result@) == Seq::<(Seq<char>, JsonView)>::empty(),
{
    let result: Vec<(String, Json)> = Vec::new();
    assert(fields_view(result@) =~= Seq::<(Seq<char>, JsonView)>::empty());
    result
}

/// Appends a field.
pub fn put(fields: &mut Vec<(String, Json)>, name: &str, value: Json)
    ensures
        fields_view(final(fields)@) == fields_view(old(fields)@).push((name@, value@)),
{
    fields.push((name.to_owned(), value));
    assert(fields_view(fields@) =~= fields_view(old(fields)@).push((name@, value@)));
}

/// Sets a field of a record; leaves any other value as it is.
pub fn set_field(value: Json, name: &str, entry: Json) -> (result: Json)
    ensures
        result@ == with_field(value@, name@, entry@),
{
    match value {
        Json::Record(fields) => {
            let mut fields = fields;
            let ghost before = fields_view(fields@);
            proof {
                record_unfolds(fields);
            }
            match find_field(&fields, name) {
                Some(place) => {
                    fields.set(place, (name.to_owned(), entry));
                    assert(fields_view(fields@) =~= before.update(place as int, (name@, entry@)));
                },
                None => {
                    put(&mut fields, name, entry);
                },
            }
            record(fields)
        },
        other => other,
    }
}

proof fn lemma_last_place(fields: Seq<(Seq<char>, JsonView)>, name: Seq<char>)
    ensures
        -1 <= last_place(fields, name) < fields.len(),
        last_place(fields, name) >= 0 ==> fields[last_place(fields, name)].0 == name,
        forall|i: int| last_place(fields, name) < i < fields.len() ==> (#[trigger] fields[i]).0 != name,
    decreases fields.len(),
{
    if fields.len() > 0 && fields.last().0 != name {
        lemma_last_place(fields.drop_last(), name);
        let place = last_place(fields, name);
        assert forall|i: int| place < i < fields.len() implies (#[trigger] fields[i]).0 != name by {
            if i < fields.len() - 1 {
                assert(fields.drop_last()[i] == fields[i]);
            }
        }
    }
}

proof fn lemma_last_place_is(fields: Seq<(Seq<char>, JsonView)>, name: Seq<char>, place: int)
    requires
        -1 <= place < fields.len(),
        place >= 0 ==> fields[place].0 == name,
        forall|i: int| place < i < fields.len() ==> (#[trigger] fields[i]).0 != name,
    ensures
        last_place(fields, name) == place,
{
    lemma_last_place(fields, name);
}

/// A field that was set reads back as what it was set to, and every other
/// field reads as before.
pub proof fn set_field_reads_back(fields: Seq<(Seq<char>, JsonView)>, name: Seq<char>, entry: JsonView, other: Seq<char>)
    ensures
        field(with_field(JsonView::Record(fields), name, entry), name) == Some(entry),
        other != name ==> field(with_field(JsonView::Record(fields), name, entry), other) == field(
            JsonView::Record(fields),
            other,
        ),
{
    let after = fields_with(fields, name, entry);
    let place = last_place(fields, name);
    lemma_last_place(fields, name);
    lemma_last_place(fields, other);
    if place >= 0 {
        lemma_last_place_is(after, name, place);
    } else {
        lemma_last_place_is(after, name, fields.len() as int);
    }
    if other != name {
        lemma_last_place_is(after, other, last_place(fields, other));
    }
}

/// A field that is appended under another name leaves the fields before it as
/// they are.
pub proof fn other_fields_stay(fields: Seq<(Seq<char>, JsonView)>, name: Seq<char>, entry: JsonView, other: Seq<char>)
    requires
        other != name,
    ensures
        field(JsonView::Record(fields.push((name, entry))), other) == field(JsonView::Record(fields), other),
{
    let after = fields.push((name, entry));
    assert(after.drop_last() =~= fields);
    assert(after.last() == (name, entry));
    lemma_last_place(fields, other);
}

/// Where a name is repeated, the last value is the one that is read.
pub proof fn last_value_counts(fields: Seq<(Seq<char>, JsonView)>, name: Seq<char>, entry: JsonView)
    ensures
        field(JsonView::Record(fields.push((name, entry))), name) == Some(entry),
{
    assert(fields.push((name, entry)).last() == (name, entry));
}

/// A field that no other repeats behind it is read wherever it stands.
pub proof fn field_stands_at(fields: Seq<(Seq<char>, JsonView)>, name: Seq<char>, place: int)
    requires
        0 <= place < fields.len(),
        fields[place].0 == name,
        forall|i: int| place < i < fields.len() ==> (#[trigger] fields[i]).0 != name,
    ensures
        field(JsonView::Record(fields), name) == Some(fields[place].1),
{
    lemma_last_place_is(fields, name, place);
}

/// A step of a path leads from a record to its field and from a list to the
/// element at the place that the token spells, and from nowhere else anywhere.
pub proof fn paths_are_followed(fields: Seq<(Seq<char>, JsonView)>, items: Seq<JsonView>, name: Seq<char>, place: u64)
    ensures
        child(Some(JsonView::Record(fields)), name) == field(JsonView::Record(fields), name),
        place < items.len() ==> child(Some(JsonView::List(items)), text::decimal(place as nat)) == Some(
            items[place as int],
        ),
        place >= items.len() ==> child(Some(JsonView::List(items)), text::decimal(place as nat)) is None,
        child(None, name) is None,
        child(Some(JsonView::Text(name)), name) is None,
{
    text::decimal_reads_back(place);
    text::decimal_starts_plainly(place);
}

/// Of two values the first counts where it is there, whatever it is; the second
/// only where the first is missing.
pub proof fn first_value_counts(first: JsonView, second: Option<JsonView>)
    ensures
        either(Some(first), second) == Some(first),
        either(None, second) == second,
{
}

// ---------------------------------------------------------------------------
// Parsing
// ---------------------------------------------------------------------------

/// The parsed documents of `serde_json`.
#[verifier::external_type_specification]
#[verifier::external_body]
pub struct ExValue(serde_json::Value);

/// What a parsed document holds: its scalars, its arrays in order, and its
/// objects as their fields in the order in which they are iterated.
pub uninterp spec fn json_contents(value: Value) -> JsonView;

/// What `serde_json::from_slice` makes of a text: a document, or the message of
/// the error.
pub uninterp spec fn json_document(bytes: Seq<u8>) -> Result<JsonView, Seq<char>>;

/// Wraps `serde_json::from_slice` for documents of any shape. Whether a text
/// parses, into what, and with what message it does not, goes by the JSON
/// grammar and by `serde_json`'s messages, and is only named.
#[verifier::external_body]
fn parse_value(bytes: &[u8]) -> (result: Result<Value, String>)
    ensures
        match result {
            Ok(value) => json_document(bytes@) == Ok::<JsonView, Seq<char>>(json_contents(value)),
            Err(error) => json_document(bytes@) == Err::<JsonView, Seq<char>>(error@),
        },
{
    serde_json::from_slice(bytes).map_err(|error: serde_json::Error| error.to_string())
}

/// A document of `serde_json` with its outermost layer laid open.
enum Layer {
    Null,
    Bool(bool),
    Number(Number),
    Text(String),
    List(Vec<Value>),
    Record(Vec<(String, Value)>),
}

/// What a document with its outermost layer laid open holds.
spec fn layer_contents(layer: Layer) -> JsonView {
    match layer {
        Layer::Null => JsonView::Null,
        Layer::Bool(flag) => JsonView::Bool(flag),
        Layer::Number(number) => JsonView::Number(number),
        Layer::Text(text) => JsonView::Text(text@),
        Layer::List(items) => JsonView::List(Seq::new(items@.len(), |i: int| json_contents(items@[i]))),
        Layer::Record(fields) => JsonView::Record(
            Seq::new(fields@.len(), |i: int| (fields@[i].0@, json_contents(fields@[i].1))),
        ),
    }
}

/// Takes a `serde_json::Value` apart, one variant for one, with the accessors
/// `Number::as_u64`, `Number::as_i64` and `Number::as_f64` for numbers: what it
/// holds stays the same. An object gives its fields in the order of its
/// iterator.
#[verifier::external_body]
fn lay_open(value: Value) -> (result: Layer)
    ensures
        layer_contents(result) == json_contents(value),
{
    match value {
        Value::Null => Layer::Null,
        Value::Bool(flag) => Layer::Bool(flag),
        Value::Number(number) => Layer::Number(match (number.as_u64(), number.as_i64()) {
            (Some(whole), _) => Number::Unsigned(whole),
            (None, Some(negative)) => Number::Negative(negative),
            (None, None) => Number::Double(number.as_f64().unwrap_or_default().to_bits()),
        }),
        Value::String(text) => Layer::Text(text),
        Value::Array(items) => Layer::List(items),
        Value::Object(fields) => Layer::Record(fields.into_iter().collect()),
    }
}

/// Converts a document of `serde_json`.
fn json_from_value(value: Value) -> (result: Json)
    ensures
        result@ == json_contents(value),
    decreases json_contents(value),
{
    let ghost whole = json_contents(value);
    match lay_open(value) {
        Layer::Null => Json::Null,
        Layer::Bool(flag) => Json::Bool(flag),
        Layer::Number(number) => Json::Number(number),
        Layer::Text(text) => Json::Text(text),
        Layer::List(items) => {
            let ghost parts = items@;
            let mut result: Vec<Json> = Vec::new();
            for item in iter: items
                invariant
                    iter.seq() == parts,
                    whole == json_contents(value),
                    whole == JsonView::List(Seq::new(parts.len(), |i: int| json_contents(parts[i]))),
                    result@.len() == iter.index(),
                    forall|i: int| 0 <= i < result@.len() ==> (#[trigger] result@[i])@ == json_contents(parts[i]),
            {
                assert(decreases_to!(whole => whole->List_0));
                assert(decreases_to!(whole->List_0 => whole->List_0[iter.index()]));
                result.push(json_from_value(item));
            }
            proof {
                list_unfolds(result);
            }
            assert(list_view(result@) =~= whole->List_0);
            Json::List(result)
        },
        Layer::Record(fields) => {
            let ghost parts = fields@;
            let mut result: Vec<(String, Json)> = Vec::new();
            for (name, field) in iter: fields
                invariant
                    iter.seq() == parts,
                    whole == json_contents(value),
                    whole == JsonView::Record(
                        Seq::new(parts.len(), |i: int| (parts[i].0@, json_contents(parts[i].1))),
                    ),
                    result@.len() == iter.index(),
                    forall|i: int|
                        0 <= i < result@.len() ==> (#[trigger] result@[i]).0@ == parts[i].0@ && result@[i].1@
                            == json_contents(parts[i].1),
            {
                assert(decreases_to!(whole => whole->Record_0));
                assert(decreases_to!(whole->Record_0 => whole->Record_0[iter.index()]));
                assert(decreases_to!(whole->Record_0[iter.index()] => whole->Record_0[iter.index()].1));
                result.push((name, json_from_value(field)));
            }
            proof {
                record_unfolds(result);
            }
            assert(fields_view(result@) =~= whole->Record_0);
            Json::Record(result)
        },
    }
}

/// Parses a JSON document.
pub fn parse_json(bytes: &[u8]) -> (result: Result<Json, String>)
    ensures
        match result {
            Ok(value) => json_document(bytes@) == Ok::<JsonView, Seq<char>>(value@),
            Err(error) => json_document(bytes@) == Err::<JsonView, Seq<char>>(error@),
        },
{
    match parse_value(bytes) {
        Ok(value) => Ok(json_from_value(value)),
        Err(error) => Err(error),
    }
}

} // verus!
