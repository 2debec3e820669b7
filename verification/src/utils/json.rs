//! JSON documents as plain values.
use serde_json::{Number, Value};
use vstd::prelude::*;

use crate::utils::text::opt_text;

verus! {

/// A JSON number: a non-negative integer, a negative integer, or any other number, which is
/// carried through as it was read.
#[derive(Debug)]
pub enum JsonNumber {
    Unsigned(u64),
    Negative(i64),
    Decimal(Number),
}

/// A JSON document. Where an object names a field twice, the later one counts.
#[derive(Debug)]
pub enum Json {
    Null,
    Bool(bool),
    Number(JsonNumber),
    Text(String),
    Array(Vec<Json>),
    Object(Vec<(String, Json)>),
}

/// [`JsonNumber`] as it is.
#[verifier::ext_equal]
pub enum JsonNumberView {
    Unsigned(u64),
    Negative(i64),
    Decimal(Number),
}

/// [`Json`] by its characters.
#[verifier::ext_equal]
pub enum JsonView {
    Null,
    Bool(bool),
    Number(JsonNumberView),
    Text(Seq<char>),
    Array(Seq<JsonView>),
    Object(Seq<(Seq<char>, JsonView)>),
}

impl View for JsonNumber {
    type V = JsonNumberView;

    open spec fn view(&self) -> JsonNumberView {
        match *self {
            JsonNumber::Unsigned(n) => JsonNumberView::Unsigned(n),
            JsonNumber::Negative(n) => JsonNumberView::Negative(n),
            JsonNumber::Decimal(n) => JsonNumberView::Decimal(n),
        }
    }
}

/// A document by its characters.
pub open spec fn json_view(json: Json) -> JsonView
    decreases json,
{
    match json {
        Json::Null => JsonView::Null,
        Json::Bool(b) => JsonView::Bool(b),
        Json::Number(n) => JsonView::Number(n@),
        Json::Text(s) => JsonView::Text(s@),
        Json::Array(items) => JsonView::Array(
            Seq::new(
                items@.len(),
                |i: int|
                    if 0 <= i < items@.len() {
                        json_view(items@[i])
                    } else {
                        JsonView::Null
                    },
            ),
        ),
        Json::Object(fields) => JsonView::Object(
            Seq::new(
                fields@.len(),
                |i: int|
                    if 0 <= i < fields@.len() {
                        (fields@[i].0@, json_view(fields@[i].1))
                    } else {
                        (Seq::empty(), JsonView::Null)
                    },
            ),
        ),
    }
}

impl View for Json {
    type V = JsonView;

    open spec fn view(&self) -> JsonView {
        json_view(*self)
    }
}

/// A list of documents by their views.
pub open spec fn json_list(items: Seq<Json>) -> Seq<JsonView> {
    Seq::new(items.len(), |i: int| items[i]@)
}

/// The fields of an object by their views.
pub open spec fn json_fields(fields: Seq<(String, Json)>) -> Seq<(Seq<char>, JsonView)> {
    Seq::new(fields.len(), |i: int| (fields[i].0@, fields[i].1@))
}

/// The value of the last field called `key`.
pub open spec fn find_field(fields: Seq<(Seq<char>, JsonView)>, key: Seq<char>) -> Option<JsonView>
    decreases fields.len(),
{
    if fields.len() == 0 {
        None
    } else if fields.last().0 == key {
        Some(fields.last().1)
    } else {
        find_field(fields.drop_last(), key)
    }
}

/// The fields with the last one called `key` given another value.
pub open spec fn with_field(
    fields: Seq<(Seq<char>, JsonView)>,
    key: Seq<char>,
    value: JsonView,
) -> Seq<(Seq<char>, JsonView)>
    decreases fields.len(),
{
    if fields.len() == 0 {
        fields
    } else if fields.last().0 == key {
        fields.drop_last().push((key, value))
    } else {
        with_field(fields.drop_last(), key, value).push(fields.last())
    }
}

/// The document, with the list at `key`, if there is one, cut down to its first `max` items.
pub open spec fn with_list_cut(json: JsonView, key: Seq<char>, max: nat) -> JsonView {
    match json {
        JsonView::Object(fields) => match find_field(fields, key) {
            Some(JsonView::Array(items)) => if items.len() > max {
                JsonView::Object(with_field(fields, key, JsonView::Array(items.take(max as int))))
            } else {
                json
            },
            _ => json,
        },
        _ => json,
    }
}

/// The value at `key`: `Null` where there is no such field, or no object.
pub open spec fn at(json: JsonView, key: Seq<char>) -> JsonView {
    match json {
        JsonView::Object(fields) => match find_field(fields, key) {
            Some(value) => value,
            None => JsonView::Null,
        },
        _ => JsonView::Null,
    }
}

/// The text that a document is.
pub open spec fn as_text(json: JsonView) -> Option<Seq<char>> {
    match json {
        JsonView::Text(s) => Some(s),
        _ => None,
    }
}

/// The boolean that a document is.
pub open spec fn as_flag(json: JsonView) -> Option<bool> {
    match json {
        JsonView::Bool(b) => Some(b),
        _ => None,
    }
}

/// The non-negative integer that a document is.
pub open spec fn as_unsigned(json: JsonView) -> Option<u64> {
    match json {
        JsonView::Number(JsonNumberView::Unsigned(n)) => Some(n),
        _ => None,
    }
}

/// The integer of at most 64 bits, sign included, that a document is.
pub open spec fn as_signed(json: JsonView) -> Option<i64> {
    match json {
        JsonView::Number(JsonNumberView::Unsigned(n)) => if n <= i64::MAX {
            Some(n as i64)
        } else {
            None
        },
        JsonView::Number(JsonNumberView::Negative(n)) => Some(n),
        _ => None,
    }
}

/// The low thirty-two bits of a number.
pub open spec fn low_u32(n: u64) -> u32 {
    (n % 0x1_0000_0000) as u32
}

/// The low thirty-two bits of a number, read as a signed number.
pub open spec fn low_i32(n: i64) -> i32 {
    (((n + 0x8000_0000) % 0x1_0000_0000) - 0x8000_0000) as i32
}

/// An integer as a JSON number.
pub open spec fn int_json(n: int) -> JsonView {
    if n >= 0 {
        JsonView::Number(JsonNumberView::Unsigned(n as u64))
    } else {
        JsonView::Number(JsonNumberView::Negative(n as i64))
    }
}

/// A text, or `Null` where there is none.
pub open spec fn opt_json(text: Option<Seq<char>>) -> JsonView {
    match text {
        Some(s) => JsonView::Text(s),
        None => JsonView::Null,
    }
}

/// A parse result by its views.
pub open spec fn parse_view(result: Result<Json, String>) -> Result<JsonView, Seq<char>> {
    match result {
        Ok(json) => Ok(json@),
        Err(e) => Err(e@),
    }
}

/// A text result by its views.
pub open spec fn text_result(result: Result<String, String>) -> Result<Seq<char>, Seq<char>> {
    match result {
        Ok(text) => Ok(text@),
        Err(e) => Err(e@),
    }
}

/// `serde_json::Value`, carried through between reading and converting a document.
#[verifier::external_type_specification]
#[verifier::external_body]
pub struct ExValue(Value);

/// `serde_json::Number`, carried through from reading a document to writing it.
#[verifier::external_type_specification]
#[verifier::external_body]
pub struct ExNumber(Number);

/// What `serde_json::from_str` reads from a text: the document, or the text of its error.
pub uninterp spec fn json_of_text(text: Seq<char>) -> Result<JsonView, Seq<char>>;

/// What `serde_json::from_slice` reads from bytes: the document, or the text of its error.
pub uninterp spec fn json_of_bytes(bytes: Seq<u8>) -> Result<JsonView, Seq<char>>;

/// What `serde_json::to_string` writes for a document: its text, or the text of its error.
pub uninterp spec fn text_of_json(json: JsonView) -> Result<Seq<char>, Seq<char>>;

/// A `serde_json` value as a document: each variant as the one that stands for it.
///
/// Trusted: a change of type only, and nothing is claimed of it here. `as_u64` and `as_i64`
/// tell the integer forms of a number apart.
#[verifier::external_body]
fn from_value(value: Value) -> Json {
    match value {
        Value::Null => Json::Null,
        Value::Bool(b) => Json::Bool(b),
        Value::Number(n) => Json::Number(match (n.as_u64(), n.as_i64()) {
            (Some(u), _) => JsonNumber::Unsigned(u),
            (None, Some(i)) => JsonNumber::Negative(i),
            (None, None) => JsonNumber::Decimal(n),
        }),
        Value::String(s) => Json::Text(s),
        Value::Array(a) => Json::Array(a.into_iter().map(from_value).collect()),
        Value::Object(o) => Json::Object(o.into_iter().map(|(k, v)| (k, from_value(v))).collect()),
    }
}

/// A document as a `serde_json` value, the way back from [`from_value`].
///
/// Trusted: a change of type only, and nothing is claimed of it here. Where an object names a
/// field twice, the later one is taken.
#[verifier::external_body]
fn to_value(json: &Json) -> Value {
    match json {
        Json::Null => Value::Null,
        Json::Bool(b) => Value::Bool(*b),
        Json::Number(JsonNumber::Unsigned(n)) => Value::from(*n),
        Json::Number(JsonNumber::Negative(n)) => Value::from(*n),
        Json::Number(JsonNumber::Decimal(n)) => Value::Number(n.clone()),
        Json::Text(s) => Value::String(s.clone()),
        Json::Array(a) => Value::Array(a.iter().map(to_value).collect()),
        Json::Object(o) => Value::Object(o.iter().map(|(k, v)| (k.clone(), to_value(v))).collect()),
    }
}

/// Reads a document from a text.
///
/// Trusted: `serde_json::from_str` to a `serde_json::Value` depends on the text alone.
#[verifier::external_body]
fn parse_text(text: &str) -> (result: Result<Json, String>)
    ensures
        parse_view(result) == json_of_text(text@),
{
    match serde_json::from_str::<Value>(text) {
        Ok(value) => Ok(from_value(value)),
        Err(e) => Err(e.to_string()),
    }
}

/// Reads a document from bytes.
///
/// Trusted: `serde_json::from_slice` to a `serde_json::Value` depends on the bytes alone.
#[verifier::external_body]
fn parse_bytes(bytes: &Vec<u8>) -> (result: Result<Json, String>)
    ensures
        parse_view(result) == json_of_bytes(bytes@),
{
    match serde_json::from_slice::<Value>(bytes) {
        Ok(value) => Ok(from_value(value)),
        Err(e) => Err(e.to_string()),
    }
}

/// Writes a document as a text.
///
/// Trusted: `serde_json::to_string` of a `serde_json::Value` depends on the document alone.
#[verifier::external_body]
fn write_text(json: &Json) -> (result: Result<String, String>)
    ensures
        text_result(result) == text_of_json(json@),
{
    match serde_json::to_string(&to_value(json)) {
        Ok(text) => Ok(text),
        Err(e) => Err(e.to_string()),
    }
}

impl Json {
    /// Reads a document from a text.
    pub fn parse(text: &str) -> (result: Result<Json, String>)
        ensures
            parse_view(result) == json_of_text(text@),
    {
        parse_text(text)
    }

    /// Reads a document from bytes.
    pub fn parse_slice(bytes: &Vec<u8>) -> (result: Result<Json, String>)
        ensures
            parse_view(result) == json_of_bytes(bytes@),
    {
        parse_bytes(bytes)
    }

    /// Writes the document as a text.
    pub fn to_text(&self) -> (result: Result<String, String>)
        ensures
            text_result(result) == text_of_json(self@),
    {
        write_text(self)
    }

    /// The field called `key`, where the document is an object that has one.
    pub fn get(&self, key: &str) -> (value: Option<&Json>)
        ensures
            match value {
                Some(v) => self@ is Object && find_field(self@->Object_0, key@) == Some(v@),
                None => self@ is Object ==> find_field(self@->Object_0, key@) is None,
            },
    {
        match self {
            Json::Object(fields) => {
                let wanted: String = key.to_owned();
                let mut found: Option<&Json> = None;
                let ghost all = json_fields(fields@);
                assert(self@->Object_0 =~= all);
                for i in 0..fields.len()
                    invariant
                        all == json_fields(fields@),
                        wanted@ == key@,
                        match found {
                            Some(v) => find_field(all.take(i as int), key@) == Some(v@),
                            None => find_field(all.take(i as int), key@) is None,
                        },
                {
                    let field = &fields[i];
                    if field.0 == wanted {
                        found = Some(&field.1);
                    }
                    assert(all.take(i + 1).drop_last() =~= all.take(i as int));
                    assert(all.take(i + 1).last() == (field.0@, field.1@));
                }
                assert(all.take(fields.len() as int) =~= all);
                found
            },
            _ => None,
        }
    }

    /// The text at `key`.
    pub fn text_at(&self, key: &str) -> (text: Option<String>)
        ensures
            opt_text(text) == as_text(at(self@, key@)),
    {
        match self.get(key) {
            Some(Json::Text(s)) => Some(s.clone()),
            _ => None,
        }
    }

    /// The boolean at `key`.
    pub fn flag_at(&self, key: &str) -> (flag: Option<bool>)
        ensures
            flag == as_flag(at(self@, key@)),
    {
        match self.get(key) {
            Some(Json::Bool(b)) => Some(*b),
            _ => None,
        }
    }

    /// The non-negative integer at `key`.
    pub fn unsigned_at(&self, key: &str) -> (number: Option<u64>)
        ensures
            number == as_unsigned(at(self@, key@)),
    {
        match self.get(key) {
            Some(Json::Number(JsonNumber::Unsigned(n))) => Some(*n),
            _ => None,
        }
    }

    /// The integer at `key`, where it fits in sixty-four bits, sign included.
    pub fn signed_at(&self, key: &str) -> (number: Option<i64>)
        ensures
            number == as_signed(at(self@, key@)),
    {
        match self.get(key) {
            Some(Json::Number(JsonNumber::Unsigned(n))) => if *n <= i64::MAX as u64 {
                Some(*n as i64)
            } else {
                None
            },
            Some(Json::Number(JsonNumber::Negative(n))) => Some(*n),
            _ => None,
        }
    }

    /// Where the last field called `key` stands.
    fn last_field(fields: &Vec<(String, Json)>, key: &str) -> (found: Option<usize>)
        ensures
            match found {
                Some(i) => {
                    &&& i < fields@.len()
                    &&& fields@[i as int].0@ == key@
                    &&& forall|j: int| i < j < fields@.len() ==> (#[trigger] fields@[j]).0@ != key@
                },
                None => forall|j: int|
                    0 <= j < fields@.len() ==> (#[trigger] fields@[j]).0@ != key@,
            },
    {
        let wanted: String = key.to_owned();
        let mut found: Option<usize> = None;
        for i in 0..fields.len()
            invariant
                wanted@ == key@,
                match found {
                    Some(k) => {
                        &&& k < i <= fields@.len()
                        &&& fields@[k as int].0@ == key@
                        &&& forall|j: int| k < j < i ==> (#[trigger] fields@[j]).0@ != key@
                    },
                    None => forall|j: int| 0 <= j < i ==> (#[trigger] fields@[j]).0@ != key@,
                },
        {
            if fields[i].0 == wanted {
                found = Some(i);
            }
        }
        found
    }

    /// Cuts the list at `key`, if there is one, down to its first `max` items.
    pub fn cut_list(self, key: &str, max: usize) -> (json: Json)
        ensures
            json@ == with_list_cut(self@, key@, max as nat),
    {
        match self {
            Json::Object(fields) => {
                let ghost before = json_fields(fields@);
                assert(self@->Object_0 =~= before);
                let mut fields = fields;
                match Self::last_field(&fields, key) {
                    Some(i) => {
                        proof {
                            lemma_last_field(before, key@, i as int);
                        }
                        let (name, value) = fields.remove(i);
                        let value = match value {
                            Json::Array(items) => {
                                let mut items = items;
                                let ghost listed = json_list(items@);
                                assert(before[i as int].1->Array_0 =~= listed);
                                if items.len() > max {
                                    items.truncate(max);
                                    assert(json_list(items@) =~= listed.take(max as int));
                                }
                                let value = Json::Array(items);
                                assert(value@->Array_0 =~= json_list(items@));
                                value
                            },
                            other => other,
                        };
                        fields.insert(i, (name, value));
                        let json = Json::Object(fields);
                        assert(json@->Object_0 =~= before.update(i as int, (key@, value@)));
                        proof {
                            lemma_with_field(before, key@, value@, i as int);
                            assert(before.update(i as int, before[i as int]) =~= before);
                        }
                        json
                    },
                    None => {
                        proof {
                            lemma_no_field(before, key@);
                        }
                        Json::Object(fields)
                    },
                }
            },
            other => other,
        }
    }

    /// An object of the given fields.
    pub fn from_fields(fields: Vec<(String, Json)>) -> (json: Json)
        ensures
            json@ == JsonView::Object(json_fields(fields@)),
    {
        let json = Json::Object(fields);
        assert(json@->Object_0 =~= json_fields(fields@));
        json
    }

    /// A count as a document.
    pub fn from_count(n: usize) -> (json: Json)
        ensures
            json@ == int_json(n as int),
    {
        Json::Number(JsonNumber::Unsigned(n as u64))
    }

    /// An integer as a document.
    pub fn from_integer(n: i64) -> (json: Json)
        ensures
            json@ == int_json(n as int),
    {
        if n >= 0 {
            Json::Number(JsonNumber::Unsigned(n as u64))
        } else {
            Json::Number(JsonNumber::Negative(n))
        }
    }

    /// A text as a document, or `Null` where there is none.
    pub fn from_optional(text: Option<String>) -> (json: Json)
        ensures
            json@ == opt_json(opt_text(text)),
    {
        match text {
            Some(s) => Json::Text(s),
            None => Json::Null,
        }
    }
}

/// Adds a field.
pub fn push_field(fields: &mut Vec<(String, Json)>, name: &str, value: Json)
    ensures
        json_fields(final(fields)@) == json_fields(old(fields)@).push((name@, value@)),
{
    fields.push((name.to_owned(), value));
    assert(json_fields(fields@) =~= json_fields(old(fields)@).push((name@, value@)));
}

/// The last field of a name is the one that is found.
proof fn lemma_last_field(fields: Seq<(Seq<char>, JsonView)>, key: Seq<char>, i: int)
    requires
        0 <= i < fields.len(),
        fields[i].0 == key,
        forall|j: int| i < j < fields.len() ==> (#[trigger] fields[j]).0 != key,
    ensures
        find_field(fields, key) == Some(fields[i].1),
    decreases fields.len(),
{
    if i < fields.len() - 1 {
        assert(fields[fields.len() - 1].0 != key);
        lemma_last_field(fields.drop_last(), key, i);
    }
}

/// Giving the last field of a name another value leaves the others in place.
proof fn lemma_with_field(
    fields: Seq<(Seq<char>, JsonView)>,
    key: Seq<char>,
    value: JsonView,
    i: int,
)
    requires
        0 <= i < fields.len(),
        fields[i].0 == key,
        forall|j: int| i < j < fields.len() ==> (#[trigger] fields[j]).0 != key,
    ensures
        with_field(fields, key, value) =~= fields.update(i, (key, value)),
    decreases fields.len(),
{
    if i < fields.len() - 1 {
        assert(fields[fields.len() - 1].0 != key);
        lemma_with_field(fields.drop_last(), key, value, i);
    }
}

/// A name that no field has is not found.
proof fn lemma_no_field(fields: Seq<(Seq<char>, JsonView)>, key: Seq<char>)
    requires
        forall|j: int| 0 <= j < fields.len() ==> (#[trigger] fields[j]).0 != key,
    ensures
        find_field(fields, key) is None,
    decreases fields.len(),
{
    if fields.len() > 0 {
        assert(fields[fields.len() - 1].0 != key);
        lemma_no_field(fields.drop_last(), key);
    }
}

/// The value at a key is smaller than the document, unless there is none.
pub proof fn lemma_value_is_smaller(json: JsonView, key: Seq<char>)
    ensures
        at(json, key) is Null || decreases_to!(json => at(json, key)),
{
    match json {
        JsonView::Object(fields) => {
            lemma_field_is_smaller(fields, key);
        },
        _ => {},
    }
}

/// The value of a field is smaller than the fields.
proof fn lemma_field_is_smaller(fields: Seq<(Seq<char>, JsonView)>, key: Seq<char>)
    ensures
        find_field(fields, key) matches Some(value) ==> exists|i: int|
            0 <= i < fields.len() && (#[trigger] fields[i]).1 == value,
    decreases fields.len(),
{
    if fields.len() > 0 {
        if fields.last().0 == key {
            assert(fields[fields.len() - 1].1 == fields.last().1);
        } else {
            lemma_field_is_smaller(fields.drop_last(), key);
            if let Some(value) = find_field(fields.drop_last(), key) {
                let i = choose|i: int|
                    0 <= i < fields.drop_last().len() && (#[trigger] fields.drop_last()[i]).1
                        == value;
                assert(fields[i].1 == value);
            }
        }
    }
}

/// The low thirty-two bits of a number.
pub fn truncate_u32(n: u64) -> (low: u32)
    ensures
        low == low_u32(n),
{
    assert(n as u32 == (n % 0x1_0000_0000) as u32) by (bit_vector);
    #[verifier::truncate]
    (n as u32)
}

/// The low thirty-two bits of a number, read as a signed number.
pub fn truncate_i32(n: i64) -> (low: i32)
    ensures
        low == low_i32(n),
{
    assert(n as i32 == (((n + 0x8000_0000) % 0x1_0000_0000) - 0x8000_0000) as i32) by (bit_vector);
    #[verifier::truncate]
    (n as i32)
}

/// What is found at a key is the value of the last field of that name.
pub proof fn law_later_field_counts(fields: Seq<(Seq<char>, JsonView)>, key: Seq<char>, i: int)
    requires
        0 <= i < fields.len(),
        fields[i].0 == key,
        forall|j: int| i < j < fields.len() ==> (#[trigger] fields[j]).0 != key,
    ensures
        at(JsonView::Object(fields), key) == fields[i].1,
        find_field(fields, key) == Some(fields[i].1),
{
    lemma_last_field(fields, key, i);
}

/// Where there is no field of a name, or no object, nothing is found at it.
pub proof fn law_missing_field_is_null(json: JsonView, key: Seq<char>)
    requires
        json matches JsonView::Object(fields) ==> forall|j: int|
            0 <= j < fields.len() ==> (#[trigger] fields[j]).0 != key,
    ensures
        at(json, key) == JsonView::Null,
        json matches JsonView::Object(fields) ==> find_field(fields, key) is None,
{
    if let JsonView::Object(fields) = json {
        lemma_no_field(fields, key);
    }
}

/// A document is a text, a boolean or an integer exactly where it was written as one, and then
/// it is that one.
pub proof fn law_kinds_are_told_apart(json: JsonView)
    ensures
        forall|s: Seq<char>| #[trigger] as_text(json) == Some(s) <==> json == JsonView::Text(s),
        forall|b: bool| #[trigger] as_flag(json) == Some(b) <==> json == JsonView::Bool(b),
        forall|n: u64| #[trigger]
            as_unsigned(json) == Some(n) <==> json == JsonView::Number(JsonNumberView::Unsigned(n)),
        forall|n: i64| #[trigger]
            as_signed(json) == Some(n) <==> json == JsonView::Number(JsonNumberView::Negative(n))
                || (n >= 0 && json == JsonView::Number(JsonNumberView::Unsigned(n as u64))),
{
}

/// A number that is cut to thirty-two bits differs from what it was by a multiple of two to the
/// thirty-second.
pub proof fn law_low_bits_stay(unsigned: u64, signed: i64)
    ensures
        (unsigned - low_u32(unsigned)) % 0x1_0000_0000 == 0,
        (signed - low_i32(signed)) % 0x1_0000_0000 == 0,
        unsigned <= u32::MAX ==> low_u32(unsigned) == unsigned,
        i32::MIN <= signed <= i32::MAX ==> low_i32(signed) == signed,
{
}

/// An integer is written as the number that it is, and an optional text as the text or `Null`.
pub proof fn law_values_are_written_as_they_are(n: u64, m: i64, text: Seq<char>)
    ensures
        int_json(n as int) == JsonView::Number(JsonNumberView::Unsigned(n)),
        m < 0 ==> int_json(m as int) == JsonView::Number(JsonNumberView::Negative(m)),
        opt_json(Some(text)) == JsonView::Text(text),
        opt_json(None) == JsonView::Null,
{
}

/// What is found in fields of which one was given another value.
pub proof fn lemma_find_after(
    fields: Seq<(Seq<char>, JsonView)>,
    key: Seq<char>,
    value: JsonView,
    other: Seq<char>,
)
    requires
        find_field(fields, key) is Some,
    ensures
        find_field(with_field(fields, key, value), other) == if other == key {
            Some(value)
        } else {
            find_field(fields, other)
        },
        with_field(fields, key, value).len() == fields.len(),
    decreases fields.len(),
{
    if fields.last().0 != key {
        lemma_find_after(fields.drop_last(), key, value, other);
        let after = with_field(fields, key, value);
        assert(after.drop_last() =~= with_field(fields.drop_last(), key, value));
    } else {
        let after = with_field(fields, key, value);
        assert(after.drop_last() =~= fields.drop_last());
    }
}

/// Cutting a list leaves its first items in order, as many as are allowed, and nothing else in
/// the document is touched. Where there is no list at the key, nothing is.
pub proof fn law_only_the_list_is_cut(
    json: JsonView,
    key: Seq<char>,
    max: nat,
    other: Seq<char>,
)
    ensures
        ({
            let cut = with_list_cut(json, key, max);
            &&& other != key ==> at(cut, other) == at(json, other)
            &&& !(at(json, key) is Array) ==> cut == json
            &&& at(json, key) is Array ==> {
                let items = at(json, key)->Array_0;
                &&& at(cut, key) is Array
                &&& items.len() <= max ==> cut == json
                &&& items.len() > max ==> at(cut, key)->Array_0 == items.take(max as int)
                &&& cut is Object
                &&& cut->Object_0.len() == json->Object_0.len()
            }
        }),
{
    if let JsonView::Object(fields) = json {
        if let Some(JsonView::Array(items)) = find_field(fields, key) {
            if items.len() > max {
                let cut = JsonView::Array(items.take(max as int));
                lemma_find_after(fields, key, cut, other);
                lemma_find_after(fields, key, cut, key);
            }
        }
    }
}

/// A document is spoken of by all that it holds.
pub proof fn law_document_is_shown_whole(json: Json, number: JsonNumber, i: int)
    ensures
        match number {
            JsonNumber::Unsigned(n) => number@ == JsonNumberView::Unsigned(n),
            JsonNumber::Negative(n) => number@ == JsonNumberView::Negative(n),
            JsonNumber::Decimal(n) => number@ == JsonNumberView::Decimal(n),
        },
        match json {
            Json::Null => json@ == JsonView::Null,
            Json::Bool(b) => json@ == JsonView::Bool(b),
            Json::Number(n) => json@ == JsonView::Number(n@),
            Json::Text(text) => json@ == JsonView::Text(text@),
            Json::Array(items) => {
                &&& json@ is Array
                &&& json@->Array_0.len() == items@.len()
                &&& 0 <= i < items@.len() ==> json@->Array_0[i] == items@[i]@
            },
            Json::Object(fields) => {
                &&& json@ is Object
                &&& json@->Object_0.len() == fields@.len()
                &&& 0 <= i < fields@.len() ==> json@->Object_0[i] == (
                    fields@[i].0@,
                    fields@[i].1@,
                )
            },
        },
{
}

/// Lists of documents, fields and results are spoken of by all that they hold.
pub proof fn law_lists_of_documents_are_shown_whole(
    items: Seq<Json>,
    fields: Seq<(String, Json)>,
    json: Json,
    text: String,
    i: int,
)
    ensures
        json_list(items).len() == items.len(),
        0 <= i < items.len() ==> json_list(items)[i] == items[i]@,
        json_fields(fields).len() == fields.len(),
        0 <= i < fields.len() ==> json_fields(fields)[i] == (fields[i].0@, fields[i].1@),
        parse_view(Ok(json)) == Ok::<JsonView, Seq<char>>(json@),
        parse_view(Err(text)) == Err::<JsonView, Seq<char>>(text@),
        text_result(Ok(text)) == Ok::<Seq<char>, Seq<char>>(text@),
        text_result(Err(text)) == Err::<Seq<char>, Seq<char>>(text@),
{
}

} // verus!
