//! JSON values to and from bytes, through `serde_json`.

use crate::json::{views, Json, JsonView};
use crate::table::{key_at, Table};
use crate::text;
use vstd::prelude::*;
use vstd::utf8::{decode_utf8, valid_utf8};

verus! {

/// A JSON value of `serde_json`.
#[verifier::external_type_specification]
#[verifier::external_body]
pub struct ExValue(serde_json::Value);

/// A JSON number of `serde_json`.
#[verifier::external_type_specification]
#[verifier::external_body]
pub struct ExNumber(serde_json::Number);

/// The error that `serde_json` reports.
#[verifier::external_type_specification]
#[verifier::external_body]
pub struct ExError(serde_json::Error);

/// `Number::clone` gives the same number.
pub assume_specification[ <serde_json::Number as Clone>::clone ](
    number: &serde_json::Number,
) -> (copy: serde_json::Number)
    ensures
        copy == *number,
;

/// A number that is not a 64-bit integer, carried as `serde_json` holds it.
/// Only [`take_apart`] makes one.
#[derive(Debug, PartialEq)]
pub struct Fraction {
    number: serde_json::Number,
}

impl Fraction {
    /// A copy.
    pub fn copy(&self) -> (r: Fraction)
        ensures
            r == *self,
    {
        Fraction { number: self.number.clone() }
    }
}

/// What a `serde_json` value holds.
pub uninterp spec fn value_model(value: serde_json::Value) -> JsonView;

/// One level of a `serde_json` value.
pub enum Parts {
    Null,
    Bool(bool),
    Unsigned(u64),
    Signed(i64),
    Decimal(Fraction),
    Text(String),
    Array(Vec<serde_json::Value>),
    Object(Vec<(String, serde_json::Value)>),
}

/// What a value made of these parts holds.
pub open spec fn parts_model(parts: Parts) -> JsonView {
    match parts {
        Parts::Null => JsonView::Null,
        Parts::Bool(b) => JsonView::Bool(b),
        Parts::Unsigned(n) => JsonView::Int(n as int),
        Parts::Signed(n) => JsonView::Int(n as int),
        Parts::Decimal(n) => JsonView::Decimal(n),
        Parts::Text(t) => JsonView::Text(t@),
        Parts::Array(items) => JsonView::Array(
            items@.map_values(|item: serde_json::Value| value_model(item)),
        ),
        Parts::Object(entries) => JsonView::Object(entries_model(entries@)),
    }
}

/// The members that a run of entries stands for.
pub open spec fn entries_model(entries: Seq<(String, serde_json::Value)>) -> Map<
    Seq<char>,
    JsonView,
> {
    Map::new(
        |key: Seq<char>| exists|i: int| key_at(entries, key, i),
        |key: Seq<char>| value_model(entries[choose|i: int| key_at(entries, key, i)].1),
    )
}

/// Whether no key occurs twice.
pub open spec fn keys_differ(parts: Parts) -> bool {
    parts matches Parts::Object(entries) ==> forall|i: int, j: int|
        0 <= i < j < entries@.len() ==> #[trigger] entries@[i].0@ != #[trigger] entries@[j].0@
}

/// Matching on a `serde_json::Value`: its variant with what it holds. An
/// object hands out each of its keys once.
#[verifier::external_body]
fn take_apart(value: serde_json::Value) -> (parts: Parts)
    ensures
        parts_model(parts) == value_model(value),
        keys_differ(parts),
{
    match value {
        serde_json::Value::Null => Parts::Null,
        serde_json::Value::Bool(b) => Parts::Bool(b),
        serde_json::Value::Number(number) => match (number.as_u64(), number.as_i64()) {
            (Some(n), _) => Parts::Unsigned(n),
            (None, Some(n)) => Parts::Signed(n),
            (None, None) => Parts::Decimal(Fraction { number }),
        },
        serde_json::Value::String(t) => Parts::Text(t),
        serde_json::Value::Array(items) => Parts::Array(items),
        serde_json::Value::Object(map) => Parts::Object(map.into_iter().collect()),
    }
}

/// Building a `serde_json::Value` of the variant with the given contents.
#[verifier::external_body]
fn put_together(parts: Parts) -> (value: serde_json::Value)
    requires
        keys_differ(parts),
    ensures
        value_model(value) == parts_model(parts),
{
    match parts {
        Parts::Null => serde_json::Value::Null,
        Parts::Bool(b) => serde_json::Value::Bool(b),
        Parts::Unsigned(n) => serde_json::Value::from(n),
        Parts::Signed(n) => serde_json::Value::from(n),
        Parts::Decimal(n) => serde_json::Value::Number(n.number),
        Parts::Text(t) => serde_json::Value::String(t),
        Parts::Array(items) => serde_json::Value::Array(items),
        Parts::Object(entries) => serde_json::Value::Object(entries.into_iter().collect()),
    }
}

/// The library's own form of a `serde_json` value.
pub fn from_value(value: serde_json::Value) -> (r: Json)
    ensures
        r@ == value_model(value),
    decreases value_model(value),
{
    let ghost model = value_model(value);
    match take_apart(value) {
        Parts::Null => Json::null(),
        Parts::Bool(b) => Json::boolean(b),
        Parts::Unsigned(n) => Json::number(n),
        Parts::Signed(n) => Json::integer(n),
        Parts::Decimal(n) => Json::from_fraction(n),
        Parts::Text(t) => Json::text(t.as_str()),
        Parts::Array(items) => {
            let ghost all = items@;
            let mut values: Vec<Json> = Vec::new();
            for item in it: items
                invariant
                    it.seq() == all,
                    model == value_model(value),
                    model == parts_model(Parts::Array(items)),
                    items@ == all,
                    values@.len() == it.index(),
                    forall|j: int|
                        0 <= j < it.index() ==> #[trigger] values@[j]@ == value_model(all[j]),
            {
                proof {
                    assert(model->Array_0[it.index() as int] == value_model(item));
                    assert(decreases_to!(model => model->Array_0[it.index() as int]));
                }
                values.push(from_value(item));
            }
            proof {
                assert(views(values@) =~= all.map_values(
                    |item: serde_json::Value| value_model(item),
                ));
            }
            Json::array(values)
        },
        Parts::Object(entries) => {
            let ghost all = entries@;
            let mut table: Table<Json> = Table::new();
            for entry in it: entries
                invariant
                    it.seq() == all,
                    model == value_model(value),
                    entries@ == all,
                    model == parts_model(Parts::Object(entries)),
                    keys_differ(Parts::Object(entries)),
                    forall|k: Seq<char>| #[trigger]
                        table@.contains_key(k) <==> exists|j: int|
                            j < it.index() && key_at(all, k, j),
                    forall|k: Seq<char>| #[trigger]
                        table@.contains_key(k) ==> entries_model(all).contains_key(k)
                            && table@[k]@ == entries_model(all)[k],
            {
                let ghost n = it.index() as int;
                let (key, held) = entry;
                proof {
                    assert(key_at(all, key@, n));
                    assert(model->Object_0.contains_key(key@));
                    let m = choose|m: int| key_at(all, key@, m);
                    assert(m == n);
                    assert(model->Object_0[key@] == value_model(held));
                    assert(decreases_to!(model => model->Object_0[key@]));
                }
                let ghost before = table@;
                table.insert(key.as_str(), from_value(held));
                proof {
                    assert forall|k: Seq<char>| #[trigger]
                        table@.contains_key(k) <==> exists|j: int|
                            j < n + 1 && key_at(all, k, j) by {
                        if table@.contains_key(k) {
                            if before.contains_key(k) {
                                let j = choose|j: int| j < n && key_at(all, k, j);
                                assert(j < n + 1 && key_at(all, k, j));
                            } else {
                                assert(n < n + 1 && key_at(all, k, n));
                            }
                        }
                        if exists|j: int| j < n + 1 && key_at(all, k, j) {
                            let j = choose|j: int| j < n + 1 && key_at(all, k, j);
                            if j < n {
                                assert(before.contains_key(k));
                            }
                        }
                    }
                }
            }
            proof {
                let left = crate::json::member_views(table@);
                let right = entries_model(all);
                assert forall|k: Seq<char>| #[trigger]
                    left.dom().contains(k) == right.dom().contains(k) by {
                    if right.dom().contains(k) {
                        let j = choose|j: int| key_at(all, k, j);
                        assert(j < all.len() && key_at(all, k, j));
                        assert(table@.contains_key(k));
                    }
                }
                assert(left =~= right);
            }
            Json::from_table(table)
        },
    }
}

/// The `serde_json` form of a value.
pub fn to_value(json: &Json) -> (r: serde_json::Value)
    ensures
        value_model(r) == json@,
    decreases json,
{
    match json {
        Json::Null => put_together(Parts::Null),
        Json::Bool(b) => put_together(Parts::Bool(*b)),
        Json::Unsigned(n) => put_together(Parts::Unsigned(*n)),
        Json::Signed(n) => put_together(Parts::Signed(*n)),
        Json::Decimal(n) => put_together(Parts::Decimal(n.copy())),
        Json::Text(t) => put_together(Parts::Text(t.as_str().to_owned())),
        Json::Array(items) => {
            let mut values: Vec<serde_json::Value> = Vec::new();
            let mut i: usize = 0;
            while i < items.len()
                invariant
                    *json == Json::Array(*items),
                    i <= items@.len(),
                    values@.len() == i,
                    forall|j: int| 0 <= j < i ==> value_model(#[trigger] values@[j]) == items@[j]@,
                decreases items@.len() - i,
            {
                proof {
                    assert(decreases_to!(*json => json->Array_0));
                    assert(decreases_to!(*items => items@));
                    assert(decreases_to!(items@ => items@[i as int]));
                }
                values.push(to_value(&items[i]));
                i = i + 1;
            }
            proof {
                Json::lemma_array(*items);
                assert(values@.map_values(|item: serde_json::Value| value_model(item)) =~= views(
                    items@,
                ));
            }
            put_together(Parts::Array(values))
        },
        Json::Object(table) => {
            let mut entries: Vec<(String, serde_json::Value)> = Vec::new();
            let mut i: usize = 0;
            while i < table.len()
                invariant
                    *json == Json::Object(*table),
                    i <= table.entries@.len(),
                    entries@.len() == i,
                    forall|j: int|
                        0 <= j < i ==> (#[trigger] entries@[j]).0@ == table.entries@[j].0@,
                    forall|j: int|
                        0 <= j < i ==> value_model((#[trigger] entries@[j]).1)
                            == table.entries@[j].1@,
                decreases table.entries@.len() - i,
            {
                proof {
                    assert(decreases_to!(*json => json->Object_0));
                    assert(decreases_to!(*table => table.entries));
                    assert(decreases_to!(table.entries => table.entries@));
                    assert(decreases_to!(table.entries@ => table.entries@[i as int]));
                }
                entries.push((table.key_at(i).to_owned(), to_value(table.value_at(i))));
                i = i + 1;
            }
            proof {
                use_type_invariant(table);
                Json::lemma_object(*table);
                let held = table.entries@;
                assert forall|a: int, b: int| 0 <= a < b < entries@.len() implies
                    #[trigger] entries@[a].0@ != #[trigger] entries@[b].0@ by {
                    crate::text::lemma_order_irreflexive(held[a].0@);
                    assert(crate::text::comes_before(held[a].0@, held[b].0@));
                }
                let left = entries_model(entries@);
                let right = crate::json::member_views(table@);
                assert forall|k: Seq<char>| #[trigger]
                    left.dom().contains(k) == right.dom().contains(k) by {
                    if left.dom().contains(k) {
                        let j = choose|j: int| key_at(entries@, k, j);
                        assert(key_at(held, k, j));
                    }
                    if right.dom().contains(k) {
                        let j = choose|j: int| key_at(held, k, j);
                        assert(key_at(entries@, k, j));
                    }
                }
                assert forall|k: Seq<char>| #[trigger] left.dom().contains(k) implies left[k]
                    == right[k] by {
                    let j = choose|j: int| key_at(entries@, k, j);
                    assert(key_at(held, k, j));
                    crate::table::lemma_entry(held, j);
                }
                assert(left =~= right);
            }
            put_together(Parts::Object(entries))
        },
    }
}

/// What reading bytes as JSON gives, or the wording of why they are not one JSON
/// value.
pub uninterp spec fn json_outcome(bytes: Seq<u8>) -> Result<JsonView, Seq<char>>;

/// What reading bytes as JSON gives; none if they are not one JSON value.
pub open spec fn json_read(bytes: Seq<u8>) -> Option<JsonView> {
    match json_outcome(bytes) {
        Ok(value) => Some(value),
        Err(_) => None,
    }
}

/// The bytes that a JSON value is written as.
pub uninterp spec fn json_written(value: JsonView) -> Seq<u8>;

/// How deep arrays and objects may stand in one another to be read.
pub open spec fn max_nesting() -> nat {
    127
}

/// The key by which `serde_json` marks raw JSON. An object that starts with it
/// is not read as an object, but as the JSON in the text that it holds.
pub open spec fn raw_mark() -> Seq<char> {
    "$serde_json::private::RawValue"@
}

/// Whether the least key of an object, which is written first, marks raw JSON.
pub open spec fn starts_raw(members: Map<Seq<char>, JsonView>) -> bool {
    members.contains_key(raw_mark()) && forall|key: Seq<char>| #[trigger]
        members.contains_key(key) ==> key == raw_mark() || text::comes_before(raw_mark(), key)
}

/// Whether a value holds integers, texts, truth values and null only, with
/// arrays and objects at most `levels` deep in one another, and no object starts
/// with the key that marks raw JSON.
pub open spec fn is_plain(value: JsonView, levels: nat) -> bool
    decreases value,
{
    match value {
        JsonView::Decimal(_) => false,
        JsonView::Array(items) => levels > 0 && forall|i: int|
            0 <= i < items.len() ==> is_plain(#[trigger] items[i], (levels - 1) as nat),
        JsonView::Object(members) => levels > 0 && !starts_raw(members) && forall|
            key: Seq<char>,
        |
            members.contains_key(key) ==> is_plain(#[trigger] members[key], (levels - 1) as nat),
        _ => true,
    }
}

/// `serde_json::from_slice`: whether the bytes are one JSON value, and which, or
/// how the error is worded, depends on the bytes alone.
#[verifier::external_body]
fn read_value(bytes: &[u8]) -> (r: Result<serde_json::Value, String>)
    ensures
        match r {
            Ok(value) => json_outcome(bytes@) == Ok::<JsonView, Seq<char>>(value_model(value)),
            Err(words) => json_outcome(bytes@) == Err::<JsonView, Seq<char>>(words@),
        },
{
    match serde_json::from_slice(bytes) {
        Ok(value) => Ok(value),
        Err(error) => Err(error.to_string()),
    }
}

/// `serde_json::to_vec` on a value: it always succeeds, and the bytes are UTF-8
/// and depend on the value alone. `serde_json::from_slice` reads the value back
/// from them where the value holds no number with a fraction or exponent, does
/// not pass the limit on nesting, and has no object whose least key marks raw
/// JSON: keys are written in order. Nothing is claimed of reading other values
/// back.
#[verifier::external_body]
fn write_value(value: &serde_json::Value) -> (r: Result<Vec<u8>, serde_json::Error>)
    ensures
        r is Ok,
        r->Ok_0@ == json_written(value_model(*value)),
        valid_utf8(r->Ok_0@),
        is_plain(value_model(*value), max_nesting()) ==> json_read(r->Ok_0@) == Some(
            value_model(*value),
        ),
{
    serde_json::to_vec(value)
}

/// Reads one JSON value, or says why the bytes are not one.
pub fn parse_or_explain(bytes: &[u8]) -> (r: Result<Json, String>)
    ensures
        match r {
            Ok(json) => json_outcome(bytes@) == Ok::<JsonView, Seq<char>>(json@),
            Err(words) => json_outcome(bytes@) == Err::<JsonView, Seq<char>>(words@),
        },
{
    match read_value(bytes) {
        Ok(value) => Ok(from_value(value)),
        Err(words) => Err(words),
    }
}

/// Reads one JSON value; none if the bytes are not one.
pub fn parse(bytes: &[u8]) -> (r: Option<Json>)
    ensures
        match r {
            Some(json) => json_read(bytes@) == Some(json@),
            None => json_read(bytes@) is None,
        },
{
    match read_value(bytes) {
        Ok(value) => Some(from_value(value)),
        Err(_) => None,
    }
}

/// Writes a JSON value; [`parse`] reads a plain one back.
pub fn render(json: &Json) -> (bytes: Vec<u8>)
    ensures
        bytes@ == json_written(json@),
        valid_utf8(bytes@),
        is_plain(json@, max_nesting()) ==> json_read(bytes@) == Some(json@),
{
    match write_value(&to_value(json)) {
        Ok(bytes) => bytes,
        Err(_) => Vec::new(),
    }
}

/// The text that a JSON value is written as.
pub open spec fn json_text(value: JsonView) -> Seq<char> {
    decode_utf8(json_written(value))
}

/// The text that a JSON value is written as.
pub fn render_text(json: &Json) -> (r: String)
    ensures
        r@ == json_text(json@),
{
    let bytes = render(json);
    match text::decode(bytes.as_slice()) {
        Some(words) => words,
        None => String::new(),
    }
}

} // verus!
