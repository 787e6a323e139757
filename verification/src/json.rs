//! JSON values as the library works on them.

use crate::table::{key_at, Table};
use crate::text;
use crate::wire::Fraction;
use vstd::prelude::*;

verus! {

/// What a JSON value is: the model that contracts speak of.
#[verifier::ext_equal]
pub enum JsonView {
    Null,
    Bool(bool),
    Int(int),
    /// A number that is not a 64-bit integer.
    Decimal(Fraction),
    Text(Seq<char>),
    Array(Seq<JsonView>),
    Object(Map<Seq<char>, JsonView>),
}

impl JsonView {
    /// The object without members.
    pub open spec fn object() -> JsonView {
        JsonView::Object(Map::empty())
    }

    /// An object with one member put in or replaced.
    pub open spec fn with(self, key: Seq<char>, value: JsonView) -> JsonView {
        match self {
            JsonView::Object(members) => JsonView::Object(members.insert(key, value)),
            _ => self,
        }
    }

    /// An object with one member taken out.
    pub open spec fn without(self, key: Seq<char>) -> JsonView {
        match self {
            JsonView::Object(members) => JsonView::Object(members.remove(key)),
            _ => self,
        }
    }

    /// Whether this is an object with the member.
    pub open spec fn has(self, key: Seq<char>) -> bool {
        match self {
            JsonView::Object(members) => members.contains_key(key),
            _ => false,
        }
    }

    /// The member of an object; null where there is none.
    pub open spec fn field(self, key: Seq<char>) -> JsonView {
        match self {
            JsonView::Object(members) => if members.contains_key(key) {
                members[key]
            } else {
                JsonView::Null
            },
            _ => JsonView::Null,
        }
    }

    /// The item of an array; null where there is none.
    pub open spec fn item(self, i: int) -> JsonView {
        match self {
            JsonView::Array(items) => if 0 <= i < items.len() {
                items[i]
            } else {
                JsonView::Null
            },
            _ => JsonView::Null,
        }
    }

    /// The text, if this is one.
    pub open spec fn text(self) -> Option<Seq<char>> {
        match self {
            JsonView::Text(t) => Some(t),
            _ => None,
        }
    }

    /// The text, or the empty one.
    pub open spec fn text_or_empty(self) -> Seq<char> {
        match self {
            JsonView::Text(t) => t,
            _ => Seq::empty(),
        }
    }

    /// The number, if this is an integer from 0 to 2^64 - 1.
    pub open spec fn unsigned(self) -> Option<u64> {
        match self {
            JsonView::Int(n) => if 0 <= n <= u64::MAX {
                Some(n as u64)
            } else {
                None
            },
            _ => None,
        }
    }

    /// The number, if this is an integer from -2^63 to 2^63 - 1.
    pub open spec fn signed(self) -> Option<i64> {
        match self {
            JsonView::Int(n) => if i64::MIN <= n <= i64::MAX {
                Some(n as i64)
            } else {
                None
            },
            _ => None,
        }
    }

    /// The truth value, if this is one.
    pub open spec fn truth(self) -> Option<bool> {
        match self {
            JsonView::Bool(b) => Some(b),
            _ => None,
        }
    }

    /// The items, if this is an array.
    pub open spec fn items(self) -> Option<Seq<JsonView>> {
        match self {
            JsonView::Array(items) => Some(items),
            _ => None,
        }
    }

    /// The items of an array; none for anything else.
    pub open spec fn items_or_none(self) -> Seq<JsonView> {
        match self {
            JsonView::Array(items) => items,
            _ => Seq::empty(),
        }
    }

    /// The members, if this is an object.
    pub open spec fn members(self) -> Option<Map<Seq<char>, JsonView>> {
        match self {
            JsonView::Object(members) => Some(members),
            _ => None,
        }
    }

    /// This value, with the empty object in place of null.
    pub open spec fn or_object(self) -> JsonView {
        if self is Null {
            JsonView::object()
        } else {
            self
        }
    }

    /// This object with one member of one of its members put in or replaced.
    pub open spec fn with_inner(self, outer: Seq<char>, inner: Seq<char>, value: JsonView) -> JsonView {
        self.with(outer, self.field(outer).or_object().with(inner, value))
    }

    /// A text, or null.
    pub open spec fn of_text(text: Option<Seq<char>>) -> JsonView {
        match text {
            Some(t) => JsonView::Text(t),
            None => JsonView::Null,
        }
    }
}

/// A JSON value.
#[derive(Debug, PartialEq)]
pub enum Json {
    Null,
    Bool(bool),
    Unsigned(u64),
    Signed(i64),
    Decimal(Fraction),
    Text(String),
    Array(Vec<Json>),
    Object(Table<Json>),
}

/// The models of a run of values.
pub open spec fn views(items: Seq<Json>) -> Seq<JsonView> {
    items.map_values(|item: Json| item@)
}

/// The models of the values of a table.
pub open spec fn member_views(members: Map<Seq<char>, Json>) -> Map<Seq<char>, JsonView> {
    Map::new(|key: Seq<char>| members.contains_key(key), |key: Seq<char>| members[key]@)
}

impl View for Json {
    type V = JsonView;

    open spec fn view(&self) -> JsonView {
        self.model()
    }
}

impl Json {
    /// What the value is.
    pub open(crate) spec fn model(self) -> JsonView
        decreases self,
    {
        match self {
            Json::Null => JsonView::Null,
            Json::Bool(b) => JsonView::Bool(b),
            Json::Unsigned(n) => JsonView::Int(n as int),
            Json::Signed(n) => JsonView::Int(n as int),
            Json::Decimal(n) => JsonView::Decimal(n),
            Json::Text(t) => JsonView::Text(t@),
            Json::Array(items) => JsonView::Array(
                Seq::new(
                    items@.len(),
                    |i: int|
                        if 0 <= i < items@.len() {
                            items@[i].model()
                        } else {
                            JsonView::Null
                        },
                ),
            ),
            Json::Object(table) => {
                let entries = table.entries@;
                let values = Seq::new(
                    entries.len(),
                    |i: int|
                        if 0 <= i < entries.len() {
                            entries[i].1.model()
                        } else {
                            JsonView::Null
                        },
                );
                JsonView::Object(
                    Map::new(
                        |key: Seq<char>| exists|i: int| key_at(entries, key, i),
                        |key: Seq<char>| values[choose|i: int| key_at(entries, key, i)],
                    ),
                )
            },
        }
    }

    pub(crate) proof fn lemma_array(items: Vec<Json>)
        ensures
            Json::Array(items)@ == JsonView::Array(views(items@)),
    {
        assert(Json::Array(items)@->Array_0 =~= views(items@));
    }

    pub(crate) proof fn lemma_object(table: Table<Json>)
        ensures
            Json::Object(table)@ == JsonView::Object(member_views(table@)),
    {
        let left = Json::Object(table)@->Object_0;
        let right = member_views(table@);
        assert forall|k: Seq<char>| #[trigger] left.dom().contains(k) implies left[k]
            == right[k] by {
            let i = choose|i: int| key_at(table.entries@, k, i);
            assert(key_at(table.entries@, k, i));
        }
        assert(left =~= right);
    }

    /// A number.
    pub fn number(n: u64) -> (r: Json)
        ensures
            r@ == JsonView::Int(n as int),
    {
        Json::Unsigned(n)
    }

    /// A number that may be negative.
    pub fn integer(n: i64) -> (r: Json)
        ensures
            r@ == JsonView::Int(n as int),
    {
        if n >= 0 {
            Json::Unsigned(n as u64)
        } else {
            Json::Signed(n)
        }
    }

    /// A number that is not a 64-bit integer.
    pub fn from_fraction(n: Fraction) -> (r: Json)
        ensures
            r@ == JsonView::Decimal(n),
    {
        Json::Decimal(n)
    }

    /// A truth value.
    pub fn boolean(b: bool) -> (r: Json)
        ensures
            r@ == JsonView::Bool(b),
    {
        Json::Bool(b)
    }

    /// Null.
    pub fn null() -> (r: Json)
        ensures
            r@ == JsonView::Null,
    {
        Json::Null
    }

    /// A text.
    pub fn text(t: &str) -> (r: Json)
        ensures
            r@ == JsonView::Text(t@),
    {
        Json::Text(t.to_owned())
    }

    /// A text, or null.
    pub fn optional_text(t: &Option<String>) -> (r: Json)
        ensures
            r@ == JsonView::of_text(text::option_view(*t)),
    {
        match t {
            Some(t) => Json::text(t.as_str()),
            None => Json::Null,
        }
    }

    /// An array.
    pub fn array(items: Vec<Json>) -> (r: Json)
        ensures
            r@ == JsonView::Array(views(items@)),
    {
        proof {
            Json::lemma_array(items);
        }
        Json::Array(items)
    }

    /// An array of texts.
    pub fn texts(items: &Vec<String>) -> (r: Json)
        ensures
            r@ == JsonView::Array(
                text::texts_view(items@).map_values(|t: Seq<char>| JsonView::Text(t)),
            ),
    {
        let mut values: Vec<Json> = Vec::new();
        let mut i: usize = 0;
        while i < items.len()
            invariant
                i <= items@.len(),
                values@.len() == i,
                forall|j: int| 0 <= j < i ==> #[trigger] values@[j]@ == JsonView::Text(items@[j]@),
            decreases items@.len() - i,
        {
            values.push(Json::text(items[i].as_str()));
            i = i + 1;
        }
        proof {
            assert(views(values@) =~= text::texts_view(items@).map_values(
                |t: Seq<char>| JsonView::Text(t),
            ));
        }
        Json::array(values)
    }

    /// The object without members.
    pub fn object() -> (r: Json)
        ensures
            r@ == JsonView::object(),
    {
        let table: Table<Json> = Table::new();
        proof {
            Json::lemma_object(table);
            assert(member_views(table@) =~= Map::empty());
        }
        Json::Object(table)
    }

    /// An object with the members of a table.
    pub fn from_table(table: Table<Json>) -> (r: Json)
        ensures
            r@ == JsonView::Object(member_views(table@)),
    {
        proof {
            Json::lemma_object(table);
        }
        Json::Object(table)
    }

    /// This object with one member put in or replaced.
    pub fn with(self, key: &str, value: Json) -> (r: Json)
        ensures
            r@ == self@.with(key@, value@),
    {
        match self {
            Json::Object(mut table) => {
                proof {
                    Json::lemma_object(table);
                }
                let ghost before = table@;
                table.insert(key, value);
                proof {
                    Json::lemma_object(table);
                    assert(member_views(table@) =~= member_views(before).insert(key@, value@));
                }
                Json::Object(table)
            },
            other => other,
        }
    }

    /// Puts a member into an object, or into null, which becomes an object.
    pub fn set(&mut self, key: &str, value: Json)
        requires
            old(self)@ is Object || old(self)@ is Null,
        ensures
            final(self)@ == (if old(self)@ is Null {
                JsonView::object()
            } else {
                old(self)@
            }).with(key@, value@),
    {
        let mut whole = Json::Null;
        core::mem::swap(self, &mut whole);
        if whole.is_null() {
            whole = Json::object();
        }
        *self = whole.with(key, value);
    }

    /// Puts a member into a member of an object; null and missing ones become
    /// objects.
    pub fn set_inner(&mut self, outer: &str, inner: &str, value: Json)
        requires
            old(self)@ is Object,
            old(self)@.field(outer@) is Object || old(self)@.field(outer@) is Null,
        ensures
            final(self)@ == old(self)@.with_inner(outer@, inner@, value@),
    {
        let mut held = self.at(outer).copy();
        held.set(inner, value);
        self.set(outer, held);
    }

    /// Takes a member out of an object.
    pub fn remove(&mut self, key: &str)
        ensures
            final(self)@ == old(self)@.without(key@),
    {
        let mut whole = Json::Null;
        core::mem::swap(self, &mut whole);
        *self = match whole {
            Json::Object(mut table) => {
                proof {
                    Json::lemma_object(table);
                }
                let ghost before = table@;
                let _ = table.remove(key);
                proof {
                    Json::lemma_object(table);
                    assert(member_views(table@) =~= member_views(before).remove(key@));
                }
                Json::Object(table)
            },
            other => other,
        };
    }

    /// The member of an object.
    pub fn get(&self, key: &str) -> (r: Option<&Json>)
        ensures
            match r {
                Some(v) => self@.has(key@) && v@ == self@.field(key@),
                None => !self@.has(key@) && self@.field(key@) is Null,
            },
            r matches Some(v) ==> decreases_to!(self => v),
    {
        match self {
            Json::Object(table) => {
                proof {
                    Json::lemma_object(*table);
                }
                match table.find(key) {
                    Some(i) => {
                        let v = &table.entries[i].1;
                        proof {
                            assert(decreases_to!(self => table.entries@[i as int].1));
                        }
                        Some(v)
                    },
                    None => None,
                }
            },
            _ => None,
        }
    }

    /// Whether this is an object with the member.
    pub fn has(&self, key: &str) -> (r: bool)
        ensures
            r == self@.has(key@),
    {
        self.get(key).is_some()
    }

    /// The member of an object; null where there is none.
    pub fn at(&self, key: &str) -> (r: &Json)
        ensures
            r@ == self@.field(key@),
    {
        match self.get(key) {
            Some(v) => v,
            None => &Json::Null,
        }
    }

    /// The item of an array; null where there is none.
    pub fn item(&self, i: usize) -> (r: &Json)
        ensures
            r@ == self@.item(i as int),
    {
        match self {
            Json::Array(items) => {
                proof {
                    Json::lemma_array(*items);
                }
                if i < items.len() {
                    &items[i]
                } else {
                    &Json::Null
                }
            },
            _ => &Json::Null,
        }
    }

    /// The text, if this is one.
    pub fn as_str(&self) -> (r: Option<&str>)
        ensures
            match r {
                Some(t) => self@.text() == Some(t@),
                None => self@.text() is None,
            },
    {
        match self {
            Json::Text(t) => Some(t.as_str()),
            _ => None,
        }
    }

    /// The text, or the empty one.
    pub fn str_or_empty(&self) -> (r: &str)
        ensures
            r@ == self@.text_or_empty(),
    {
        match self {
            Json::Text(t) => t.as_str(),
            _ => {
                proof {
                    reveal_strlit("");
                    assert(""@ =~= Seq::<char>::empty());
                }
                ""
            },
        }
    }

    /// The number, if this is an integer from 0 to 2^64 - 1.
    pub fn as_u64(&self) -> (r: Option<u64>)
        ensures
            r == self@.unsigned(),
    {
        match self {
            Json::Unsigned(n) => Some(*n),
            Json::Signed(n) => if *n >= 0 {
                Some(*n as u64)
            } else {
                None
            },
            _ => None,
        }
    }

    /// The number, if this is an integer from -2^63 to 2^63 - 1.
    pub fn as_i64(&self) -> (r: Option<i64>)
        ensures
            r == self@.signed(),
    {
        match self {
            Json::Unsigned(n) => if *n <= i64::MAX as u64 {
                Some(*n as i64)
            } else {
                None
            },
            Json::Signed(n) => Some(*n),
            _ => None,
        }
    }

    /// The truth value, if this is one.
    pub fn as_bool(&self) -> (r: Option<bool>)
        ensures
            r == self@.truth(),
    {
        match self {
            Json::Bool(b) => Some(*b),
            _ => None,
        }
    }

    /// The items, if this is an array.
    pub fn as_array(&self) -> (r: Option<&Vec<Json>>)
        ensures
            match r {
                Some(items) => self@ == JsonView::Array(views(items@)),
                None => self@.items() is None,
            },
            r matches Some(items) ==> decreases_to!(self => items),
    {
        match self {
            Json::Array(items) => {
                proof {
                    Json::lemma_array(*items);
                }
                Some(items)
            },
            _ => None,
        }
    }

    /// How many items an array has; none for anything else.
    pub fn item_count(&self) -> (n: usize)
        ensures
            n == self@.items_or_none().len(),
    {
        match self.as_array() {
            Some(items) => items.len(),
            None => 0,
        }
    }

    /// The members, if this is an object.
    pub fn as_object(&self) -> (r: Option<&Table<Json>>)
        ensures
            match r {
                Some(table) => self@ == JsonView::Object(member_views(table@)),
                None => self@.members() is None,
            },
    {
        match self {
            Json::Object(table) => {
                proof {
                    Json::lemma_object(*table);
                }
                Some(table)
            },
            _ => None,
        }
    }

    /// Whether this is null.
    pub fn is_null(&self) -> (r: bool)
        ensures
            r == (self@ is Null),
    {
        match self {
            Json::Null => true,
            _ => false,
        }
    }

    /// Whether this is an object.
    pub fn is_object(&self) -> (r: bool)
        ensures
            r == (self@ is Object),
    {
        match self {
            Json::Object(_) => true,
            _ => false,
        }
    }

    /// Whether this is a text.
    pub fn is_text(&self) -> (r: bool)
        ensures
            r == (self@ is Text),
    {
        match self {
            Json::Text(_) => true,
            _ => false,
        }
    }

    /// Whether this is the given text.
    pub fn is_str(&self, t: &str) -> (r: bool)
        ensures
            r == (self@ == JsonView::Text(t@)),
    {
        match self {
            Json::Text(own) => text::same(own.as_str(), t),
            _ => false,
        }
    }

    /// Whether this is the given truth value.
    pub fn is_bool(&self, b: bool) -> (r: bool)
        ensures
            r == (self@ == JsonView::Bool(b)),
    {
        match self {
            Json::Bool(own) => *own == b,
            _ => false,
        }
    }

    /// A copy.
    pub fn copy(&self) -> (r: Json)
        ensures
            r@ == self@,
        decreases self,
    {
        match self {
            Json::Null => Json::Null,
            Json::Bool(b) => Json::Bool(*b),
            Json::Unsigned(n) => Json::Unsigned(*n),
            Json::Signed(n) => Json::Signed(*n),
            Json::Decimal(n) => Json::Decimal(n.copy()),
            Json::Text(t) => Json::Text(t.as_str().to_owned()),
            Json::Array(items) => {
                let mut copies: Vec<Json> = Vec::new();
                let mut i: usize = 0;
                while i < items.len()
                    invariant
                        *self == Json::Array(*items),
                        i <= items@.len(),
                        copies@.len() == i,
                        forall|j: int| 0 <= j < i ==> #[trigger] copies@[j]@ == items@[j]@,
                    decreases items@.len() - i,
                {
                    proof {
                        assert(decreases_to!(*self => self->Array_0));
                        assert(decreases_to!(*items => items@));
                        assert(decreases_to!(items@ => items@[i as int]));
                    }
                    copies.push(items[i].copy());
                    i = i + 1;
                }
                proof {
                    Json::lemma_array(*items);
                    Json::lemma_array(copies);
                    assert(views(copies@) =~= views(items@));
                }
                Json::Array(copies)
            },
            Json::Object(table) => {
                let mut copies: Table<Json> = Table::new();
                let mut i: usize = 0;
                let ghost whole = member_views(table@);
                while i < table.entries.len()
                    invariant
                        *self == Json::Object(*table),
                        i <= table.entries@.len(),
                        whole == member_views(table@),
                        forall|k: Seq<char>| #[trigger]
                            copies@.contains_key(k) <==> exists|j: int|
                                j < i && key_at(table.entries@, k, j),
                        forall|k: Seq<char>| #[trigger]
                            copies@.contains_key(k) ==> whole.contains_key(k) && copies@[k]@
                                == whole[k],
                    decreases table.entries@.len() - i,
                {
                    proof {
                        assert(decreases_to!(*self => self->Object_0));
                        assert(decreases_to!(*table => table.entries));
                        assert(decreases_to!(table.entries => table.entries@));
                        assert(decreases_to!(table.entries@ => table.entries@[i as int]));
                    }
                    let v = table.entries[i].1.copy();
                    let ghost before = copies@;
                    let ghost here = table.entries@[i as int].0@;
                    let k = table.key_at(i);
                    copies.insert(k, v);
                    proof {
                        assert(key_at(table.entries@, here, i as int));
                        assert forall|k: Seq<char>| #[trigger]
                            copies@.contains_key(k) <==> exists|j: int|
                                j < i + 1 && key_at(table.entries@, k, j) by {
                            if copies@.contains_key(k) {
                                if before.contains_key(k) {
                                    let j = choose|j: int|
                                        j < i && key_at(table.entries@, k, j);
                                    assert(j < i + 1 && key_at(table.entries@, k, j));
                                } else {
                                    assert(i < i + 1 && key_at(table.entries@, k, i as int));
                                }
                            }
                            if exists|j: int| j < i + 1 && key_at(table.entries@, k, j) {
                                let j = choose|j: int| j < i + 1 && key_at(table.entries@, k, j);
                                if j < i {
                                    assert(before.contains_key(k));
                                }
                            }
                        }
                    }
                    i = i + 1;
                }
                proof {
                    Json::lemma_object(*table);
                    Json::lemma_object(copies);
                    assert forall|k: Seq<char>| #[trigger]
                        member_views(copies@).dom().contains(k) == whole.dom().contains(k) by {
                        if whole.dom().contains(k) {
                            let j = choose|j: int| key_at(table.entries@, k, j);
                            assert(j < i && key_at(table.entries@, k, j));
                            assert(copies@.contains_key(k));
                        }
                    }
                    assert(member_views(copies@) =~= whole);
                }
                Json::Object(copies)
            },
        }
    }
}

/// Copies of a run of values.
pub fn copy_all(items: &Vec<Json>) -> (r: Vec<Json>)
    ensures
        views(r@) == views(items@),
        r@.len() == items@.len(),
{
    let mut copies: Vec<Json> = Vec::new();
    let mut i: usize = 0;
    while i < items.len()
        invariant
            i <= items@.len(),
            copies@.len() == i,
            forall|j: int| 0 <= j < i ==> #[trigger] copies@[j]@ == items@[j]@,
        decreases items@.len() - i,
    {
        copies.push(items[i].copy());
        i = i + 1;
    }
    proof {
        assert(views(copies@) =~= views(items@));
    }
    copies
}

/// What is put into an object is found in it, and nothing else changes; what is taken
/// out is gone.
pub proof fn law_members_are_kept(value: JsonView, key: Seq<char>, other: Seq<char>, more: JsonView)
    requires
        value is Object,
    ensures
        value.with(key, more) is Object,
        value.with(key, more).has(key),
        value.with(key, more).field(key) == more,
        other != key ==> value.with(key, more).field(other) == value.field(other),
        other != key ==> value.with(key, more).has(other) == value.has(other),
        !value.without(key).has(key),
        other != key ==> value.without(key).field(other) == value.field(other),
        !value.has(key) ==> value.field(key) is Null,
        JsonView::object() is Object,
        !JsonView::object().has(key),
{
}

/// The items of an array are found by their place, and a value is read as what it is.
pub proof fn law_values_are_read(items: Seq<JsonView>, text: Seq<char>, n: int, i: int)
    ensures
        0 <= i < items.len() ==> JsonView::Array(items).item(i) == items[i],
        !(0 <= i < items.len()) ==> JsonView::Array(items).item(i) is Null,
        JsonView::Array(items).items() == Some(items),
        JsonView::Array(items).items_or_none() == items,
        JsonView::Text(text).text() == Some(text),
        JsonView::Text(text).text_or_empty() == text,
        0 <= n <= u64::MAX ==> JsonView::Int(n).unsigned() == Some(n as u64),
        n < 0 ==> JsonView::Int(n).unsigned() is None,
        i64::MIN <= n <= i64::MAX ==> JsonView::Int(n).signed() == Some(n as i64),
        JsonView::Null.text() is None && JsonView::Null.items() is None
            && JsonView::Null.unsigned() is None,
{
}

} // verus!
