//! Symbols of a document as one flat list.

use crate::json::{views, Json, JsonView};
use vstd::prelude::*;

verus! {

/// The range that a symbol is found by: its own name, else its whole extent,
/// else its location.
pub open spec fn symbol_range(item: JsonView) -> JsonView {
    if item.has("selectionRange"@) {
        item.field("selectionRange"@)
    } else if item.has("range"@) {
        item.field("range"@)
    } else {
        item.field("location"@).field("range"@)
    }
}

/// The first of two texts that is there.
pub open spec fn first_text(a: Option<Seq<char>>, b: Option<Seq<char>>) -> Option<Seq<char>> {
    if a is Some {
        a
    } else {
        b
    }
}

/// One symbol of the flat list.
pub open spec fn row(item: JsonView, parent: Option<Seq<char>>, uri: Seq<char>) -> JsonView {
    let range = symbol_range(item);
    JsonView::object().with("name"@, item.field("name"@)).with("kind"@, item.field("kind"@)).with(
        "container"@,
        JsonView::of_text(first_text(item.field("containerName"@).text(), parent)),
    ).with(
        "uri"@,
        JsonView::Text(
            match item.field("location"@).field("uri"@).text() {
                Some(own) => own,
                None => uri,
            },
        ),
    ).with("line"@, range.field("start"@).field("line"@)).with(
        "character"@,
        range.field("start"@).field("character"@),
    ).with("exactSelection"@, JsonView::Bool(item.has("selectionRange"@))).with("range"@, range)
}

/// Symbols with all that stand inside them, each before its children.
pub open spec fn rows(items: Seq<JsonView>, parent: Option<Seq<char>>, uri: Seq<char>) -> Seq<
    JsonView,
>
    decreases items,
{
    if items.len() == 0 {
        Seq::empty()
    } else {
        let item = items.last();
        let earlier = rows(items.drop_last(), parent, uri).push(row(item, parent, uri));
        match item {
            JsonView::Object(members) => if members.contains_key("children"@) {
                match members["children"@] {
                    JsonView::Array(children) => earlier + rows(
                        children,
                        item.field("name"@).text(),
                        uri,
                    ),
                    _ => earlier,
                }
            } else {
                earlier
            },
            _ => earlier,
        }
    }
}

/// One symbol of the flat list.
fn make_row(item: &Json, parent: Option<&str>, uri: &str) -> (r: Json)
    ensures
        r@ == row(
            item@,
            match parent {
                Some(p) => Some(p@),
                None => None,
            },
            uri@,
        ),
{
    let range = match item.get("selectionRange") {
        Some(range) => range,
        None => match item.get("range") {
            Some(range) => range,
            None => item.at("location").at("range"),
        },
    };
    let container = match item.at("containerName").as_str() {
        Some(own) => Json::text(own),
        None => match parent {
            Some(p) => Json::text(p),
            None => Json::null(),
        },
    };
    let place = match item.at("location").at("uri").as_str() {
        Some(own) => own,
        None => uri,
    };
    Json::object().with("name", item.at("name").copy()).with("kind", item.at("kind").copy()).with(
        "container",
        container,
    ).with("uri", Json::text(place)).with("line", range.at("start").at("line").copy()).with(
        "character",
        range.at("start").at("character").copy(),
    ).with("exactSelection", Json::boolean(item.has("selectionRange"))).with("range", range.copy())
}

fn visit(items: &Vec<Json>, parent: Option<&str>, uri: &str, out: &mut Vec<Json>)
    ensures
        views(final(out)@) == views(old(out)@) + rows(
            views(items@),
            match parent {
                Some(p) => Some(p@),
                None => None,
            },
            uri@,
        ),
    decreases items,
{
    let ghost before = views(out@);
    let ghost all = views(items@);
    let ghost above = match parent {
        Some(p) => Some(p@),
        None => None,
    };
    let mut i: usize = 0;
    proof {
        assert(all.take(0) =~= Seq::<JsonView>::empty());
        assert(views(out@) =~= before + rows(all.take(0), above, uri@));
    }
    while i < items.len()
        invariant
            i <= items@.len(),
            all == views(items@),
            above == match parent {
                Some(p) => Some(p@),
                None => None::<Seq<char>>,
            },
            views(out@) == before + rows(all.take(i as int), above, uri@),
        decreases items@.len() - i,
    {
        let item = &items[i];
        proof {
            assert(decreases_to!(*items => items@));
            assert(decreases_to!(items@ => items@[i as int]));
            assert(all.take(i + 1).drop_last() =~= all.take(i as int));
            assert(all.take(i + 1).last() == item@);
        }
        let ghost held = out@;
        let made = make_row(item, parent, uri);
        out.push(made);
        proof {
            assert(views(out@) =~= views(held).push(made@));
        }
        match item.get("children") {
            Some(children) => match children.as_array() {
                Some(inner) => {
                    visit(inner, item.at("name").as_str(), uri, out);
                },
                None => {},
            },
            None => {},
        }
        proof {
            assert(views(out@) =~= before + rows(all.take(i + 1), above, uri@));
        }
        i = i + 1;
    }
    proof {
        assert(all.take(all.len() as int) =~= all);
    }
}

/// All symbols of a document, with those inside others; none if `symbols` is
/// not a list.
pub fn flatten(symbols: &Json, uri: &str) -> (r: Vec<Json>)
    ensures
        views(r@) == rows(symbols@.items_or_none(), None, uri@),
{
    let mut out: Vec<Json> = Vec::new();
    match symbols.as_array() {
        Some(items) => {
            visit(items, None, uri, &mut out);
        },
        None => {},
    }
    proof {
        assert(views(out@) =~= rows(symbols@.items_or_none(), None, uri@));
    }
    out
}

/// How many symbols there are, with those inside others at any depth.
pub open spec fn symbol_count(items: Seq<JsonView>) -> nat
    decreases items,
{
    if items.len() == 0 {
        0
    } else {
        symbol_count(items.drop_last()) + 1 + match items.last() {
            JsonView::Object(members) => match members["children"@] {
                JsonView::Array(children) => if members.contains_key("children"@) {
                    symbol_count(children)
                } else {
                    0
                },
                _ => 0,
            },
            _ => 0,
        }
    }
}

/// The flat list has one entry for every symbol at any depth.
pub proof fn law_no_symbol_is_left_out(
    items: Seq<JsonView>,
    parent: Option<Seq<char>>,
    uri: Seq<char>,
)
    ensures
        rows(items, parent, uri).len() == symbol_count(items),
    decreases items,
{
    if items.len() > 0 {
        law_no_symbol_is_left_out(items.drop_last(), parent, uri);
        match items.last() {
            JsonView::Object(members) => if members.contains_key("children"@) {
                match members["children"@] {
                    JsonView::Array(children) => {
                        law_no_symbol_is_left_out(
                            children,
                            items.last().field("name"@).text(),
                            uri,
                        );
                    },
                    _ => {},
                }
            },
            _ => {},
        }
    }
}

/// Symbols beside one another are listed one after the other.
pub proof fn law_symbols_are_listed_in_order(
    items: Seq<JsonView>,
    more: Seq<JsonView>,
    parent: Option<Seq<char>>,
    uri: Seq<char>,
)
    ensures
        rows(items + more, parent, uri) == rows(items, parent, uri) + rows(more, parent, uri),
    decreases more.len(),
{
    if more.len() == 0 {
        assert(items + more =~= items);
        assert(rows(items, parent, uri) + rows(more, parent, uri) =~= rows(items, parent, uri));
    } else {
        law_symbols_are_listed_in_order(items, more.drop_last(), parent, uri);
        assert((items + more).drop_last() =~= items + more.drop_last());
        assert((items + more).last() == more.last());
        assert(rows(items + more, parent, uri) =~= rows(items, parent, uri) + rows(
            more,
            parent,
            uri,
        ));
    }
}

/// What stands inside a symbol follows it in the list, with the symbol's name as
/// its container, however deep the symbol itself stands.
pub proof fn law_children_follow_their_symbol(
    item: JsonView,
    parent: Option<Seq<char>>,
    uri: Seq<char>,
)
    ensures
        rows(seq![item], parent, uri).len() > 0,
        rows(seq![item], parent, uri)[0] == row(item, parent, uri),
        item.has("children"@) && item.field("children"@) is Array ==> rows(
            seq![item],
            parent,
            uri,
        ).skip(1) == rows(
            item.field("children"@)->Array_0,
            match item.field("name"@) {
                JsonView::Text(name) => Some(name),
                _ => None,
            },
            uri,
        ),
        !(item.has("children"@) && item.field("children"@) is Array) ==> rows(
            seq![item],
            parent,
            uri,
        ).len() == 1,
{
    let all = seq![item];
    assert(all.drop_last() =~= Seq::<JsonView>::empty());
    assert(all.last() == item);
    assert(rows(all.drop_last(), parent, uri) =~= Seq::<JsonView>::empty());
    if item.has("children"@) && item.field("children"@) is Array {
        assert(rows(all, parent, uri).skip(1) =~= rows(
            item.field("children"@)->Array_0,
            item.field("name"@).text(),
            uri,
        ));
    }
}

/// An entry of the list tells of its symbol: its name and kind, what it stands in,
/// where it is and the range by which it is found, which is that of its name if
/// the server gave it.
pub proof fn law_rows_tell_of_their_symbols(
    item: JsonView,
    parent: Option<Seq<char>>,
    uri: Seq<char>,
)
    ensures
        ({
            let told = row(item, parent, uri);
            &&& told.field("name"@) == item.field("name"@)
            &&& told.field("kind"@) == item.field("kind"@)
            &&& item.field("containerName"@) is Text ==> told.field("container"@) == item.field(
                "containerName"@,
            )
            &&& !(item.field("containerName"@) is Text) ==> told.field("container"@)
                == match parent {
                Some(name) => JsonView::Text(name),
                None => JsonView::Null,
            }
            &&& item.field("location"@).field("uri"@) is Text ==> told.field("uri"@) == item.field(
                "location"@,
            ).field("uri"@)
            &&& !(item.field("location"@).field("uri"@) is Text) ==> told.field("uri"@)
                == JsonView::Text(uri)
            &&& item.has("selectionRange"@) ==> told.field("range"@) == item.field(
                "selectionRange"@,
            )
            &&& !item.has("selectionRange"@) && item.has("range"@) ==> told.field("range"@)
                == item.field("range"@)
            &&& !item.has("selectionRange"@) && !item.has("range"@) ==> told.field("range"@)
                == item.field("location"@).field("range"@)
            &&& told.field("line"@) == told.field("range"@).field("start"@).field("line"@)
            &&& told.field("character"@) == told.field("range"@).field("start"@).field(
                "character"@,
            )
            &&& told.field("exactSelection"@) == JsonView::Bool(item.has("selectionRange"@))
        }),
{
    reveal_strlit("name");
    reveal_strlit("kind");
    reveal_strlit("container");
    reveal_strlit("uri");
    reveal_strlit("line");
    reveal_strlit("character");
    reveal_strlit("exactSelection");
    reveal_strlit("range");
    assert("name"@.len() == 4 && "kind"@.len() == 4 && "line"@.len() == 4);
    assert("name"@[0] == 'n' && "kind"@[0] == 'k' && "line"@[0] == 'l');
    assert("container"@.len() == 9 && "character"@.len() == 9);
    assert("container"@[1] == 'o' && "character"@[1] == 'h');
    assert("uri"@.len() == 3 && "exactSelection"@.len() == 14 && "range"@.len() == 5);
}

/// A symbol without what only precise edits need.
pub open spec fn compact_row(item: JsonView) -> JsonView {
    item.without("exactSelection"@).without("range"@).without("uri"@)
}

/// Symbols without what only precise edits need.
pub fn compact(items: Vec<Json>) -> (r: Json)
    requires
        forall|i: int| 0 <= i < items@.len() ==> (#[trigger] items@[i])@ is Object,
    ensures
        r@ == JsonView::Array(views(items@).map_values(|item: JsonView| compact_row(item))),
{
    let mut out: Vec<Json> = Vec::new();
    let mut i: usize = 0;
    while i < items.len()
        invariant
            i <= items@.len(),
            out@.len() == i,
            forall|j: int| 0 <= j < i ==> #[trigger] out@[j]@ == compact_row(items@[j]@),
        decreases items@.len() - i,
    {
        let mut item = items[i].copy();
        item.remove("exactSelection");
        item.remove("range");
        item.remove("uri");
        out.push(item);
        i = i + 1;
    }
    proof {
        assert(views(out@) =~= views(items@).map_values(|item: JsonView| compact_row(item)));
    }
    Json::array(out)
}

/// Every symbol of a flat list is an object, as [`compact`] needs.
pub proof fn law_rows_are_objects(
    items: Seq<JsonView>,
    parent: Option<Seq<char>>,
    uri: Seq<char>,
    i: int,
)
    requires
        0 <= i < rows(items, parent, uri).len(),
    ensures
        rows(items, parent, uri)[i] is Object,
    decreases items,
{
    let item = items.last();
    let earlier = rows(items.drop_last(), parent, uri);
    if i < earlier.len() {
        law_rows_are_objects(items.drop_last(), parent, uri, i);
    } else if i > earlier.len() {
        let children = item->Object_0["children"@]->Array_0;
        law_rows_are_objects(
            children,
            item.field("name"@).text(),
            uri,
            i - earlier.len() - 1,
        );
    }
}

} // verus!
