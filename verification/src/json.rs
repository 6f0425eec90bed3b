//! JSON values as the library reads them.

use vstd::prelude::*;
use vstd::string::*;

use serde_json::Value;

use crate::number::{decimal, i64_text, signed_decimal, u64_text};
use crate::text::laws::{held_text_stays_held, joined_text_holds_its_parts};
use crate::text::{contains_text, join, joined, outcome, same_text};

verus! {

/// A JSON number: an unsigned or a negative integer, or the text of any other
/// number.
#[derive(Debug, PartialEq)]
pub enum JsonNumber {
    Unsigned(u64),
    Negative(i64),
    Other(String),
}

/// A JSON value. An object keeps its members in order.
#[derive(Debug, PartialEq)]
pub enum JsonValue {
    Null,
    Bool(bool),
    Number(JsonNumber),
    Text(String),
    Array(Vec<JsonValue>),
    Object(Vec<(String, JsonValue)>),
}

/// The content of a JSON value.
pub enum Json {
    Null,
    Bool(bool),
    Unsigned(nat),
    Negative(int),
    Other(Seq<char>),
    Text(Seq<char>),
    Array(Seq<Json>),
    Object(Seq<(Seq<char>, Json)>),
}

pub open spec fn json_content(value: JsonValue) -> Json
    decreases value,
{
    match value {
        JsonValue::Null => Json::Null,
        JsonValue::Bool(flag) => Json::Bool(flag),
        JsonValue::Number(JsonNumber::Unsigned(n)) => Json::Unsigned(n as nat),
        JsonValue::Number(JsonNumber::Negative(n)) => Json::Negative(n as int),
        JsonValue::Number(JsonNumber::Other(text)) => Json::Other(text@),
        JsonValue::Text(text) => Json::Text(text@),
        JsonValue::Array(items) => Json::Array(
            Seq::new(
                items@.len(),
                |i: int|
                    if 0 <= i < items@.len() {
                        json_content(items[i])
                    } else {
                        Json::Null
                    },
            ),
        ),
        JsonValue::Object(members) => Json::Object(
            Seq::new(
                members@.len(),
                |i: int|
                    if 0 <= i < members@.len() {
                        (members[i].0@, json_content(members[i].1))
                    } else {
                        (Seq::empty(), Json::Null)
                    },
            ),
        ),
    }
}

impl View for JsonValue {
    type V = Json;

    open spec fn view(&self) -> Json {
        json_content(*self)
    }
}

impl DeepView for JsonValue {
    type V = Json;

    open spec fn deep_view(&self) -> Json {
        json_content(*self)
    }
}

pub proof fn lemma_object_content(members: Vec<(String, JsonValue)>)
    ensures
        JsonValue::Object(members)@ == Json::Object(members.deep_view()),
{
    assert(JsonValue::Object(members)@->Object_0 =~= members.deep_view());
}

pub proof fn lemma_array_content(items: Vec<JsonValue>)
    ensures
        JsonValue::Array(items)@ == Json::Array(items.deep_view()),
{
    assert(JsonValue::Array(items)@->Array_0 =~= items.deep_view());
}

/// The value of the first member named `key`.
pub open spec fn member_value(members: Seq<(Seq<char>, Json)>, key: Seq<char>) -> Option<Json>
    decreases members.len(),
{
    if members.len() == 0 {
        None
    } else if members[0].0 == key {
        Some(members[0].1)
    } else {
        member_value(members.drop_first(), key)
    }
}

/// The value of the member `key`, where the value is an object that has one.
pub open spec fn field(value: Json, key: Seq<char>) -> Option<Json> {
    match value {
        Json::Object(members) => member_value(members, key),
        _ => None,
    }
}

/// The text, where the value is one.
pub open spec fn text_of(value: Json) -> Option<Seq<char>> {
    match value {
        Json::Text(text) => Some(text),
        _ => None,
    }
}

/// The text of a field, where there is one.
pub open spec fn text_field(value: Json, key: Seq<char>) -> Option<Seq<char>> {
    match field(value, key) {
        Some(Json::Text(text)) => Some(text),
        _ => None,
    }
}

/// The value of the first member named `key`.
pub fn member<'a>(members: &'a Vec<(String, JsonValue)>, key: &str) -> (value: Option<&'a JsonValue>)
    ensures
        value.deep_view() == member_value(members.deep_view(), key@),
{
    let ghost all = members.deep_view();
    let mut i: usize = 0;
    proof {
        assert(all.skip(0) =~= all);
    }
    while i < members.len()
        invariant
            i <= members@.len(),
            all == members.deep_view(),
            member_value(all, key@) == member_value(all.skip(i as int), key@),
        decreases members@.len() - i,
    {
        proof {
            assert(all.skip(i as int)[0] == (members@[i as int].0@, members@[i as int].1@));
            assert(all.skip(i as int).drop_first() =~= all.skip(i as int + 1));
        }
        if same_text(members[i].0.as_str(), key) {
            return Some(&members[i].1);
        }
        i += 1;
    }
    None
}

fn copy_items(items: &Vec<JsonValue>) -> (out: Vec<JsonValue>)
    ensures
        out.deep_view() == items.deep_view(),
    decreases items,
{
    let mut out: Vec<JsonValue> = Vec::new();
    let mut i: usize = 0;
    while i < items.len()
        invariant
            i <= items@.len(),
            out@.len() == i,
            forall|k: int| 0 <= k < i ==> (#[trigger] out@[k])@ == items@[k]@,
        decreases items@.len() - i,
    {
        let item = copy_value(&items[i]);
        out.push(item);
        i += 1;
    }
    proof {
        assert(out.deep_view() =~= items.deep_view());
    }
    out
}

fn copy_members(members: &Vec<(String, JsonValue)>) -> (out: Vec<(String, JsonValue)>)
    ensures
        out.deep_view() == members.deep_view(),
    decreases members,
{
    let mut out: Vec<(String, JsonValue)> = Vec::new();
    let mut i: usize = 0;
    while i < members.len()
        invariant
            i <= members@.len(),
            out@.len() == i,
            forall|k: int|
                0 <= k < i ==> (#[trigger] out@[k]).0@ == members@[k].0@ && out@[k].1@
                    == members@[k].1@,
        decreases members@.len() - i,
    {
        let name = members[i].0.clone();
        let value = copy_value(&members[i].1);
        out.push((name, value));
        i += 1;
    }
    proof {
        assert(out.deep_view() =~= members.deep_view());
    }
    out
}

fn copy_value(value: &JsonValue) -> (out: JsonValue)
    ensures
        out@ == value@,
    decreases value,
{
    match value {
        JsonValue::Null => JsonValue::Null,
        JsonValue::Bool(flag) => JsonValue::Bool(*flag),
        JsonValue::Number(JsonNumber::Unsigned(n)) => JsonValue::Number(JsonNumber::Unsigned(*n)),
        JsonValue::Number(JsonNumber::Negative(n)) => JsonValue::Number(JsonNumber::Negative(*n)),
        JsonValue::Number(JsonNumber::Other(text)) => JsonValue::Number(
            JsonNumber::Other(text.clone()),
        ),
        JsonValue::Text(text) => JsonValue::Text(text.clone()),
        JsonValue::Array(items) => {
            let copy = copy_items(items);
            proof {
                lemma_array_content(copy);
                lemma_array_content(*items);
            }
            JsonValue::Array(copy)
        },
        JsonValue::Object(members) => {
            let copy = copy_members(members);
            proof {
                lemma_object_content(copy);
                lemma_object_content(*members);
            }
            JsonValue::Object(copy)
        },
    }
}

impl JsonValue {
    /// Another value with the same content.
    pub fn duplicate(&self) -> (out: JsonValue)
        ensures
            out@ == self@,
    {
        copy_value(self)
    }

    /// The value of the member `key`, where this is an object that has one.
    pub fn get(&self, key: &str) -> (value: Option<&JsonValue>)
        ensures
            value.deep_view() == field(self@, key@),
    {
        match self {
            JsonValue::Object(members) => {
                proof {
                    lemma_object_content(*members);
                }
                member(members, key)
            },
            _ => None,
        }
    }

    /// The text, where this is one.
    pub fn as_text(&self) -> (text: Option<&str>)
        ensures
            text.deep_view() == text_of(self@),
    {
        match self {
            JsonValue::Text(text) => Some(text.as_str()),
            _ => None,
        }
    }

    /// The text of a field, where there is one.
    pub fn get_text(&self, key: &str) -> (text: Option<&str>)
        ensures
            text.deep_view() == text_field(self@, key@),
    {
        match self.get(key) {
            Some(value) => value.as_text(),
            None => None,
        }
    }
}

/// The text of a number.
pub open spec fn number_content(n: JsonNumber) -> Seq<char> {
    match n {
        JsonNumber::Unsigned(n) => decimal(n as nat),
        JsonNumber::Negative(n) => signed_decimal(n as int),
        JsonNumber::Other(text) => text@,
    }
}

/// The text of a number.
pub fn number_text(n: &JsonNumber) -> (text: String)
    ensures
        text@ == number_content(*n),
{
    match n {
        JsonNumber::Unsigned(n) => u64_text(*n),
        JsonNumber::Negative(n) => i64_text(*n),
        JsonNumber::Other(text) => text.clone(),
    }
}

// ---------------------------------------------------------------------------
// Reading and writing JSON text with serde_json
// ---------------------------------------------------------------------------

#[verifier::external_type_specification]
#[verifier::external_body]
pub struct ExSerdeValue(Value);

#[verifier::external_type_specification]
#[verifier::external_body]
pub struct ExSerdeError(serde_json::Error);

/// What a `serde_json::Value` holds: its nulls, flags, numbers, texts, items and
/// members. A number that is no integer stands as the text that serde_json
/// displays for it.
pub uninterp spec fn serde_content(value: Value) -> Json;

/// A `serde_json::Value` opened: what it holds, with the values inside it as they
/// are.
enum Opened<'a> {
    Null,
    Bool(bool),
    Number(JsonNumber),
    Text(String),
    Array(Vec<&'a Value>),
    Object(Vec<(String, &'a Value)>),
}

/// The content of an opened value.
spec fn opened_content(opened: Opened) -> Json {
    match opened {
        Opened::Null => Json::Null,
        Opened::Bool(flag) => Json::Bool(flag),
        Opened::Number(n) => json_content(JsonValue::Number(n)),
        Opened::Text(text) => Json::Text(text@),
        Opened::Array(items) => Json::Array(
            Seq::new(items@.len(), |i: int| serde_content(*items@[i])),
        ),
        Opened::Object(members) => Json::Object(
            Seq::new(
                members@.len(),
                |i: int| (members@[i].0@, serde_content(*members@[i].1)),
            ),
        ),
    }
}

/// Opens a `serde_json::Value`, by its variants. The contract claims that the
/// parts are what the value holds, items and members in the order in which
/// serde_json walks them.
#[verifier::external_body]
fn open_value<'a>(value: &'a Value) -> (opened: Opened<'a>)
    ensures
        opened_content(opened) == serde_content(*value),
{
    match value {
        Value::Null => Opened::Null,
        Value::Bool(flag) => Opened::Bool(*flag),
        Value::Number(n) => Opened::Number(match (n.as_u64(), n.as_i64()) {
            (Some(n), _) => JsonNumber::Unsigned(n),
            (None, Some(n)) => JsonNumber::Negative(n),
            (None, None) => JsonNumber::Other(n.to_string()),
        }),
        Value::String(text) => Opened::Text(text.clone()),
        Value::Array(items) => Opened::Array(items.iter().collect()),
        Value::Object(map) => Opened::Object(map.iter().map(|(k, v)| (k.clone(), v)).collect()),
    }
}

/// Converts a `serde_json::Value`.
fn from_serde(value: &Value) -> (out: JsonValue)
    ensures
        out@ == serde_content(*value),
    decreases serde_content(*value),
{
    match open_value(value) {
        Opened::Null => JsonValue::Null,
        Opened::Bool(flag) => JsonValue::Bool(flag),
        Opened::Number(n) => JsonValue::Number(n),
        Opened::Text(text) => JsonValue::Text(text),
        Opened::Array(items) => {
            let ghost content = serde_content(*value)->Array_0;
            let mut out: Vec<JsonValue> = Vec::new();
            let mut i: usize = 0;
            while i < items.len()
                invariant
                    i <= items@.len(),
                    out@.len() == i,
                    serde_content(*value) == Json::Array(content),
                    content == Seq::new(items@.len(), |i: int| serde_content(*items@[i])),
                    forall|k: int| 0 <= k < i ==> (#[trigger] out@[k])@ == content[k],
                decreases items@.len() - i,
            {
                proof {
                    assert(content[i as int] == serde_content(*items@[i as int]));
                    assert(decreases_to!(
                        serde_content(*value) => serde_content(*value)->Array_0[i as int]
                    ));
                }
                out.push(from_serde(items[i]));
                i += 1;
            }
            proof {
                lemma_array_content(out);
                assert(out.deep_view() =~= content);
            }
            JsonValue::Array(out)
        },
        Opened::Object(members) => {
            let ghost content = serde_content(*value)->Object_0;
            let mut out: Vec<(String, JsonValue)> = Vec::new();
            let mut i: usize = 0;
            while i < members.len()
                invariant
                    i <= members@.len(),
                    out@.len() == i,
                    serde_content(*value) == Json::Object(content),
                    content == Seq::new(
                        members@.len(),
                        |i: int| (members@[i].0@, serde_content(*members@[i].1)),
                    ),
                    forall|k: int|
                        0 <= k < i ==> ((#[trigger] out@[k]).0@, out@[k].1@) == content[k],
                decreases members@.len() - i,
            {
                proof {
                    assert(content[i as int].1 == serde_content(*members@[i as int].1));
                    assert(decreases_to!(
                        serde_content(*value) => serde_content(*value)->Object_0[i as int].1
                    ));
                }
                out.push((members[i].0.clone(), from_serde(members[i].1)));
                i += 1;
            }
            proof {
                lemma_object_content(out);
                assert(out.deep_view() =~= content);
            }
            JsonValue::Object(out)
        },
    }
}

/// What `serde_json::from_str` reads from a text: a value, or the message of
/// its error.
pub uninterp spec fn parsed_json(text: Seq<char>) -> Result<Json, Seq<char>>;

/// Reads a JSON text by `serde_json::from_str`. The contract claims that what is
/// read is a function of the text alone.
#[verifier::external_body]
fn read_value(text: &str) -> (value: Result<Value, String>)
    ensures
        value is Ok <==> parsed_json(text@) is Ok,
        value is Ok ==> serde_content(value->Ok_0) == parsed_json(text@)->Ok_0,
        value is Err ==> value->Err_0@ == parsed_json(text@)->Err_0,
{
    serde_json::from_str::<Value>(text).map_err(|err| err.to_string())
}

/// Reads a JSON text.
pub(crate) fn parse_json(text: &str) -> (value: Result<JsonValue, String>)
    ensures
        outcome(value) == parsed_json(text@),
{
    match read_value(text) {
        Ok(value) => Ok(from_serde(&value)),
        Err(message) => Err(message),
    }
}

/// The JSON string literal that `serde_json::to_string` writes for a text.
pub uninterp spec fn quoted_json(text: Seq<char>) -> Seq<char>;

/// Writes a text as a JSON string literal by `serde_json::to_string`. The
/// contract claims that this succeeds, as writing a text into memory does, and
/// that the literal is a function of the text.
#[verifier::external_body]
pub(crate) fn quote_json(text: &str) -> (literal: Result<String, serde_json::Error>)
    ensures
        literal is Ok,
        literal->Ok_0@ == quoted_json(text@),
{
    serde_json::to_string(text)
}

/// The JSON text of a value, without white space.
pub open spec fn displayed_json(value: Json) -> Seq<char>
    decreases value, 1int,
{
    match value {
        Json::Null => "null"@,
        Json::Bool(flag) => if flag {
            "true"@
        } else {
            "false"@
        },
        Json::Unsigned(n) => decimal(n),
        Json::Negative(n) => signed_decimal(n),
        Json::Other(text) => text,
        Json::Text(text) => quoted_json(text),
        Json::Array(_) => "["@ + joined(displayed_parts(value), ","@) + "]"@,
        Json::Object(_) => "{"@ + joined(displayed_parts(value), ","@) + "}"@,
    }
}

/// The JSON texts of what an array or an object holds.
pub open spec fn displayed_parts(value: Json) -> Seq<Seq<char>>
    decreases value, 0int,
{
    match value {
        Json::Array(items) => Seq::new(
            items.len(),
            |i: int|
                if 0 <= i < items.len() {
                    displayed_json(items[i])
                } else {
                    Seq::empty()
                },
        ),
        Json::Object(members) => Seq::new(
            members.len(),
            |i: int|
                if 0 <= i < members.len() {
                    quoted_json(members[i].0) + ":"@ + displayed_json(members[i].1)
                } else {
                    Seq::empty()
                },
        ),
        _ => Seq::empty(),
    }
}

fn quote(text: &str) -> (literal: String)
    ensures
        literal@ == quoted_json(text@),
{
    match quote_json(text) {
        Ok(literal) => literal,
        Err(_) => String::new(),
    }
}

fn display_items(items: &Vec<JsonValue>) -> (text: String)
    ensures
        text@ == displayed_json(Json::Array(items.deep_view())),
    decreases items,
{
    let ghost wanted = Seq::new(items@.len(), |i: int| displayed_json(items@[i]@));
    let mut parts: Vec<String> = Vec::new();
    let mut i: usize = 0;
    while i < items.len()
        invariant
            i <= items@.len(),
            parts@.len() == i,
            wanted == Seq::new(items@.len(), |i: int| displayed_json(items@[i]@)),
            forall|k: int| 0 <= k < i ==> (#[trigger] parts@[k])@ == wanted[k],
        decreases items@.len() - i,
    {
        parts.push(display_json(&items[i]));
        i += 1;
    }
    proof {
        assert(parts.deep_view() =~= displayed_parts(Json::Array(items.deep_view())));
    }
    "[".to_owned().concat(join(&parts, ",").as_str()).concat("]")
}

fn display_members(members: &Vec<(String, JsonValue)>) -> (text: String)
    ensures
        text@ == displayed_json(Json::Object(members.deep_view())),
    decreases members,
{
    let ghost wanted = Seq::new(
        members@.len(),
        |i: int| quoted_json(members@[i].0@) + ":"@ + displayed_json(members@[i].1@),
    );
    let mut parts: Vec<String> = Vec::new();
    let mut i: usize = 0;
    while i < members.len()
        invariant
            i <= members@.len(),
            parts@.len() == i,
            wanted == Seq::new(
                members@.len(),
                |i: int| quoted_json(members@[i].0@) + ":"@ + displayed_json(members@[i].1@),
            ),
            forall|k: int| 0 <= k < i ==> (#[trigger] parts@[k])@ == wanted[k],
        decreases members@.len() - i,
    {
        let name = quote(members[i].0.as_str());
        let value = display_json(&members[i].1);
        parts.push(name.concat(":").concat(value.as_str()));
        i += 1;
    }
    proof {
        assert(parts.deep_view() =~= displayed_parts(Json::Object(members.deep_view())));
    }
    "{".to_owned().concat(join(&parts, ",").as_str()).concat("}")
}

/// The JSON text of a value, without white space.
pub fn display_json(value: &JsonValue) -> (text: String)
    ensures
        text@ == displayed_json(value@),
    decreases value,
{
    match value {
        JsonValue::Null => "null".to_owned(),
        JsonValue::Bool(flag) => if *flag {
            "true".to_owned()
        } else {
            "false".to_owned()
        },
        JsonValue::Number(n) => number_text(n),
        JsonValue::Text(text) => quote(text.as_str()),
        JsonValue::Array(items) => {
            proof {
                lemma_array_content(*items);
            }
            display_items(items)
        },
        JsonValue::Object(members) => {
            proof {
                lemma_object_content(*members);
            }
            display_members(members)
        },
    }
}

/// The bytes that `serde_json::to_vec` writes for a map from texts to texts.
pub uninterp spec fn json_map_bytes(members: Seq<(Seq<char>, Seq<char>)>) -> Seq<u8>;

/// Writes a JSON object whose members are texts by `serde_json::to_vec`. The
/// contract claims that this succeeds, as writing texts into memory does, and
/// that the bytes are a function of the members.
#[verifier::external_body]
pub(crate) fn write_json_map(members: &Vec<(String, String)>) -> (bytes: Result<Vec<u8>, serde_json::Error>)
    ensures
        bytes is Ok,
        bytes->Ok_0@ == json_map_bytes(members.deep_view()),
{
    let map: serde_json::Map<String, Value> =
        members.iter().map(|(k, v)| (k.clone(), Value::from(v.as_str()))).collect();
    serde_json::to_vec(&map)
}

/// The value of the first pair named `key`.
pub open spec fn pair_value(pairs: Seq<(Seq<char>, Seq<char>)>, key: Seq<char>) -> Option<Seq<char>>
    decreases pairs.len(),
{
    if pairs.len() == 0 {
        None
    } else if pairs[0].0 == key {
        Some(pairs[0].1)
    } else {
        pair_value(pairs.drop_first(), key)
    }
}

/// Whether a value is an object whose members are texts, the same as the pairs
/// but for their order.
pub open spec fn holds_pairs(value: Json, pairs: Seq<(Seq<char>, Seq<char>)>) -> bool {
    value matches Json::Object(members) && (forall|i: int|
        0 <= i < members.len() ==> (#[trigger] members[i]).1 is Text) && forall|key: Seq<char>|
        #[trigger] member_value(members, key) == (match pair_value(pairs, key) {
            Some(text) => Some(Json::Text(text)),
            None => None,
        })
}

pub open spec fn distinct_keys(pairs: Seq<(Seq<char>, Seq<char>)>) -> bool {
    forall|i: int, j: int|
        0 <= i < j < pairs.len() ==> (#[trigger] pairs[i]).0 != (#[trigger] pairs[j]).0
}

/// Writes a JSON object whose members are texts by `serde_json::to_string`. The
/// contract claims what serde_json promises of a map from texts to texts:
/// reading the text gives the members back.
#[verifier::external_body]
pub(crate) fn write_json_texts(members: &Vec<(String, String)>) -> (text: Result<String, serde_json::Error>)
    requires
        distinct_keys(members.deep_view()),
    ensures
        text is Ok,
        parsed_json(text->Ok_0@) is Ok && holds_pairs(
            parsed_json(text->Ok_0@)->Ok_0,
            members.deep_view(),
        ),
{
    let map: std::collections::HashMap<&str, &str> =
        members.iter().map(|(k, v)| (k.as_str(), v.as_str())).collect();
    serde_json::to_string(&map)
}

/// Whether pairs are a map to texts, each key once.
pub open spec fn lists_map(
    pairs: Seq<(Seq<char>, Seq<char>)>,
    map: Map<Seq<char>, Seq<char>>,
) -> bool {
    &&& distinct_keys(pairs)
    &&& forall|i: int|
        0 <= i < pairs.len() ==> map.contains_key((#[trigger] pairs[i]).0) && map[pairs[i].0]
            == pairs[i].1
    &&& forall|key: Seq<char>| #[trigger]
        map.contains_key(key) ==> exists|i: int| 0 <= i < pairs.len() && pairs[i].0 == key
}

/// Whether all members are texts.
pub open spec fn all_texts(members: Seq<(Seq<char>, Json)>) -> bool {
    forall|i: int| 0 <= i < members.len() ==> (#[trigger] members[i]).1 is Text
}

/// The members as a map.
pub open spec fn member_map(members: Seq<(Seq<char>, Json)>) -> Map<Seq<char>, Seq<char>> {
    Map::new(
        |key: Seq<char>| member_value(members, key) is Some,
        |key: Seq<char>| member_value(members, key)->Some_0->Text_0,
    )
}

/// The map to texts that `serde_json::from_str` reads from a JSON text, or the
/// message of its error.
pub uninterp spec fn parsed_text_map(text: Seq<char>) -> Result<
    Map<Seq<char>, Seq<char>>,
    Seq<char>,
>;

/// Whether a value is an object whose members are all texts.
pub open spec fn is_text_map(value: Result<Json, Seq<char>>) -> bool {
    value matches Ok(Json::Object(members)) && all_texts(members)
}

/// Reads a JSON object of texts by `serde_json::from_str` into a map from texts to
/// texts. The contract claims that the map, or the message of the error, is a
/// function of the text; that the pairs list it, in no stated order; and that a map
/// is read only from an object whose members are all texts, as those members. It
/// does not claim that such an object is always read: a member that is written
/// twice has to be a text both times.
#[verifier::external_body]
pub(crate) fn read_text_map(text: &str) -> (pairs: Result<Vec<(String, String)>, String>)
    ensures
        pairs is Ok <==> parsed_text_map(text@) is Ok,
        pairs is Ok ==> lists_map(pairs->Ok_0.deep_view(), parsed_text_map(text@)->Ok_0),
        pairs is Err ==> pairs->Err_0@ == parsed_text_map(text@)->Err_0,
        pairs is Ok ==> is_text_map(parsed_json(text@)),
        pairs is Ok ==> parsed_text_map(text@)->Ok_0 == member_map(
            parsed_json(text@)->Ok_0->Object_0,
        ),
{
    serde_json::from_str::<std::collections::HashMap<String, String>>(text)
        .map(|map| map.into_iter().collect())
        .map_err(|err| err.to_string())
}

/// The texts that `serde_json::from_str` reads from a JSON array of texts, or
/// the message of its error.
pub uninterp spec fn parsed_texts(text: Seq<char>) -> Result<Seq<Seq<char>>, Seq<char>>;

/// Reads a JSON array of texts by `serde_json::from_str`. The contract claims
/// that the result is a function of the text.
#[verifier::external_body]
pub(crate) fn parse_texts(text: &str) -> (texts: Result<Vec<String>, String>)
    ensures
        outcome(texts) == parsed_texts(text@),
{
    serde_json::from_str::<Vec<String>>(text).map_err(|err| err.to_string())
}

/// A name stands for the first member that has it, and for nothing where none has.
pub proof fn first_member_decides(members: Seq<(Seq<char>, Json)>, key: Seq<char>, k: int)
    requires
        0 <= k <= members.len(),
        forall|j: int| 0 <= j < k ==> (#[trigger] members[j]).0 != key,
    ensures
        k < members.len() && members[k].0 == key ==> member_value(members, key) == Some(
            members[k].1,
        ),
        k == members.len() ==> member_value(members, key) is None,
    decreases members.len(),
{
    if k > 0 {
        let rest = members.drop_first();
        assert(members[0].0 != key);
        assert forall|j: int| 0 <= j < k - 1 implies (#[trigger] rest[j]).0 != key by {
            assert(rest[j] == members[j + 1]);
        }
        first_member_decides(rest, key, k - 1);
    }
}

/// A value is shown with all that it holds: every member of an object behind its name, and
/// every item of an array.
pub proof fn shown_value_holds_its_parts(
    members: Seq<(Seq<char>, Json)>,
    items: Seq<Json>,
    k: int,
)
    ensures
        0 <= k < members.len() ==> contains_text(
            displayed_json(Json::Object(members)),
            quoted_json(members[k].0) + ":"@ + displayed_json(members[k].1),
        ),
        0 <= k < items.len() ==> contains_text(
            displayed_json(Json::Array(items)),
            displayed_json(items[k]),
        ),
{
    reveal_with_fuel(displayed_json, 2);
    reveal_with_fuel(displayed_parts, 2);
    if 0 <= k < members.len() {
        let parts = displayed_parts(Json::Object(members));
        assert(parts[k] == quoted_json(members[k].0) + ":"@ + displayed_json(members[k].1));
        joined_text_holds_its_parts(parts, ","@, k);
        held_text_stays_held("{"@, joined(parts, ","@), "}"@, parts[k]);
    }
    if 0 <= k < items.len() {
        let parts = displayed_parts(Json::Array(items));
        assert(parts[k] == displayed_json(items[k]));
        joined_text_holds_its_parts(parts, ","@, k);
        held_text_stays_held("["@, joined(parts, ","@), "]"@, parts[k]);
    }
}

} // verus!
