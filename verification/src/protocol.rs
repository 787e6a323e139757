//! Language-server messages on a byte stream, positions in a text, and edits
//! of a text.

use crate::fault::{Failure, FailureView, Fault};
use crate::json::{views, Json, JsonView};
use crate::text;
use crate::wire::{self, is_plain, json_outcome, json_read, json_written, max_nesting};
use vstd::prelude::*;
use vstd::utf8::{decode_utf8, encode_utf8, valid_utf8};

verus! {

// ---------------------------------------------------------------------------
// Positions
// ---------------------------------------------------------------------------
/// Where a line starts: after as many line feeds as its number.
pub open spec fn line_start(text: Seq<char>, line: nat) -> Option<int>
    decreases line,
{
    if line == 0 {
        Some(0)
    } else {
        match text::first_index(text, '\n') {
            Some(i) => match line_start(text.skip(i + 1), (line - 1) as nat) {
                Some(start) => Some(i + 1 + start),
                None => None,
            },
            None => None,
        }
    }
}

/// How many characters of a line take the given number of UTF-16 units.
pub open spec fn column(rest: Seq<char>, units: nat) -> Result<int, Fault>
    decreases rest.len(),
{
    if units == 0 {
        Ok(0)
    } else if rest.len() == 0 || rest[0] == '\n' || rest[0] == '\r' {
        Err(Fault::CharacterOutOfRange)
    } else if text::utf16_width(rest[0]) > units {
        Err(Fault::SplitsSurrogatePair)
    } else {
        match column(rest.skip(1), (units - text::utf16_width(rest[0])) as nat) {
            Ok(n) => Ok(n + 1),
            Err(fault) => Err(fault),
        }
    }
}

/// The place of a line and a column of UTF-16 units, counted in characters.
pub open spec fn place(text: Seq<char>, line: nat, character: nat) -> Result<int, Fault> {
    match line_start(text, line) {
        Some(start) => match column(text.skip(start), character) {
            Ok(n) => Ok(start + n),
            Err(fault) => Err(fault),
        },
        None => Err(Fault::LineOutOfRange),
    }
}

/// The place of a JSON position, counted in characters.
pub open spec fn position_place(text: Seq<char>, position: JsonView) -> Result<int, Fault> {
    match position.field("line"@).unsigned() {
        Some(line) => match position.field("character"@).unsigned() {
            Some(character) => place(text, line as nat, character as nat),
            None => Err(Fault::MissingCharacter),
        },
        None => Err(Fault::MissingLine),
    }
}

proof fn lemma_line_start(text: Seq<char>, line: nat)
    ensures
        line_start(text, line) matches Some(start) ==> 0 <= start <= text.len(),
    decreases line,
{
    if line > 0 {
        text::lemma_first_index(text, '\n');
        match text::first_index(text, '\n') {
            Some(i) => {
                lemma_line_start(text.skip(i + 1), (line - 1) as nat);
            },
            None => {},
        }
    }
}

proof fn lemma_column(rest: Seq<char>, units: nat)
    ensures
        column(rest, units) matches Ok(n) ==> 0 <= n <= rest.len() && text::utf16_units(
            rest.take(n),
        ) == units,
    decreases rest.len(),
{
    if units == 0 {
        assert(rest.take(0) =~= Seq::<char>::empty());
    } else if rest.len() > 0 && rest[0] != '\n' && rest[0] != '\r' && text::utf16_width(rest[0])
        <= units {
        let left = (units - text::utf16_width(rest[0])) as nat;
        lemma_column(rest.skip(1), left);
        match column(rest.skip(1), left) {
            Ok(n) => {
                lemma_units_front(rest.take(n + 1));
                assert(rest.take(n + 1).drop_first() =~= rest.skip(1).take(n));
            },
            Err(_) => {},
        }
    }
}

proof fn lemma_units_front(text: Seq<char>)
    requires
        text.len() > 0,
    ensures
        text::utf16_units(text) == text::utf16_width(text[0]) + text::utf16_units(
            text.drop_first(),
        ),
    decreases text.len(),
{
    if text.len() == 1 {
        assert(text.drop_first() =~= Seq::<char>::empty());
        assert(text.drop_last() =~= Seq::<char>::empty());
        reveal_with_fuel(text::utf16_units, 2);
    } else {
        lemma_units_front(text.drop_last());
        assert(text.drop_last().drop_first() =~= text.drop_first().drop_last());
        assert(text.drop_first().last() == text.last());
    }
}

/// A position that has a place lies in the text, and the characters between
/// the start of its line and it take its column's number of UTF-16 units.
pub proof fn law_place_in_text(text: Seq<char>, line: nat, character: nat)
    ensures
        place(text, line, character) matches Ok(at) ==> {
            let start = line_start(text, line)->0;
            &&& 0 <= start <= at <= text.len()
            &&& text::utf16_units(text.subrange(start, at)) == character
        },
{
    lemma_line_start(text, line);
    match line_start(text, line) {
        Some(start) => {
            lemma_column(text.skip(start), character);
            match column(text.skip(start), character) {
                Ok(n) => {
                    assert(text.skip(start).take(n) =~= text.subrange(start, start + n));
                },
                Err(_) => {},
            }
        },
        None => {},
    }
}

/// The place of a line and a column in a list of characters.
fn find_place(chars: &Vec<char>, line: u64, character: u64) -> (r: Result<usize, Fault>)
    ensures
        match r {
            Ok(at) => at <= chars@.len() && place(chars@, line as nat, character as nat) == Ok::<
                int,
                Fault,
            >(at as int),
            Err(fault) => place(chars@, line as nat, character as nat) == Err::<int, Fault>(fault),
        },
{
    let mut start: usize = 0;
    let mut passed: u64 = 0;
    let total: usize = chars.len();
    proof {
        assert(chars@.skip(0) =~= chars@);
    }
    while passed < line
        invariant
            passed <= line,
            total == chars@.len(),
            start <= total,
            line_start(chars@, line as nat) == match line_start(
                chars@.skip(start as int),
                (line - passed) as nat,
            ) {
                Some(n) => Some(start + n),
                None => None,
            },
        decreases line - passed,
    {
        match text::find_from(chars, start, '\n') {
            Some(i) => {
                proof {
                    assert(chars@.skip(start as int).skip(i - start + 1) =~= chars@.skip(i + 1));
                }
                start = i + 1;
                passed = passed + 1;
            },
            None => {
                return Err(Fault::LineOutOfRange);
            },
        }
    }
    let mut units: u64 = 0;
    let mut at: usize = start;
    while at < chars.len()
        invariant
            start <= at <= chars@.len(),
            units <= character,
            line_start(chars@, line as nat) == Some(start as int),
            column(chars@.skip(start as int), character as nat) == match column(
                chars@.skip(at as int),
                (character - units) as nat,
            ) {
                Ok(n) => Ok::<int, Fault>(at - start + n),
                Err(fault) => Err(fault),
            },
        decreases chars@.len() - at,
    {
        if units == character {
            return Ok(at);
        }
        let ch = chars[at];
        if ch == '\n' || ch == '\r' {
            return Err(Fault::CharacterOutOfRange);
        }
        let width: u64 = text::char_units(ch) as u64;
        proof {
            assert(chars@.skip(at as int)[0] == ch);
            assert(chars@.skip(at as int).skip(1) =~= chars@.skip(at + 1));
        }
        if width > character - units {
            return Err(Fault::SplitsSurrogatePair);
        }
        units = units + width;
        at = at + 1;
    }
    if units == character {
        Ok(at)
    } else {
        Err(Fault::CharacterOutOfRange)
    }
}

/// The place of a JSON position in a list of characters.
fn find_position(chars: &Vec<char>, position: &Json) -> (r: Result<usize, Fault>)
    ensures
        match r {
            Ok(at) => at <= chars@.len() && position_place(chars@, position@) == Ok::<int, Fault>(
                at as int,
            ),
            Err(fault) => position_place(chars@, position@) == Err::<int, Fault>(fault),
        },
{
    match position.at("line").as_u64() {
        Some(line) => match position.at("character").as_u64() {
            Some(character) => find_place(chars, line, character),
            None => Err(Fault::MissingCharacter),
        },
        None => Err(Fault::MissingLine),
    }
}

/// The text between two JSON positions; the first fault, if there is one, or
/// none if the range runs backwards.
pub open spec fn text_in_range(text: Seq<char>, start: JsonView, end: JsonView) -> Result<
    Option<Seq<char>>,
    Fault,
> {
    match position_place(text, start) {
        Err(fault) => Err(fault),
        Ok(from) => match position_place(text, end) {
            Err(fault) => Err(fault),
            Ok(to) => if from <= to {
                Ok(Some(text.subrange(from, to)))
            } else {
                Ok(None)
            },
        },
    }
}

/// The text between two JSON positions; the first fault, if there is one, or
/// none if the range runs backwards.
pub fn text_at(text: &str, start: &Json, end: &Json) -> (r: Result<Option<String>, Fault>)
    ensures
        match r {
            Ok(part) => text_in_range(text@, start@, end@) == Ok::<Option<Seq<char>>, Fault>(
                text::option_view(part),
            ),
            Err(fault) => text_in_range(text@, start@, end@) == Err::<Option<Seq<char>>, Fault>(
                fault,
            ),
        },
{
    let chars = text::chars_of(text);
    let from: usize = match find_position(&chars, start) {
        Ok(at) => at,
        Err(fault) => {
            return Err(fault);
        },
    };
    let to: usize = match find_position(&chars, end) {
        Ok(at) => at,
        Err(fault) => {
            return Err(fault);
        },
    };
    if from <= to {
        Ok(Some(text::text_between(&chars, from, to)))
    } else {
        Ok(None)
    }
}

/// Whether the text from a JSON position on starts with the given one.
pub fn starts_at(text: &str, position: &Json, start: &str) -> (r: Result<bool, Fault>)
    ensures
        match r {
            Ok(there) => position_place(text@, position@) is Ok && there == text::has_prefix(
                text@.skip(position_place(text@, position@)->Ok_0),
                start@,
            ),
            Err(fault) => position_place(text@, position@) == Err::<int, Fault>(fault),
        },
{
    let chars = text::chars_of(text);
    match find_position(&chars, position) {
        Err(fault) => Err(fault),
        Ok(at) => {
            let rest = text::text_between(&chars, at, chars.len());
            proof {
                assert(text@.subrange(at as int, text@.len() as int) =~= text@.skip(at as int));
            }
            Ok(text::starts_with(rest.as_str(), start))
        },
    }
}

/// The byte offset of a position. Lines end at a line feed; columns count
/// UTF-16 code units and may not go past the end of the line or split a
/// surrogate pair.
pub fn offset(text: &str, position: &Json) -> (r: Result<usize, Fault>)
    ensures
        match r {
            Ok(bytes) => position_place(text@, position@) is Ok && bytes == text::byte_len(
                text@.take(position_place(text@, position@)->Ok_0),
            ),
            Err(fault) => position_place(text@, position@) == Err::<int, Fault>(fault),
        },
{
    let chars = text::chars_of(text);
    match find_position(&chars, position) {
        Ok(at) => {
            let total: usize = text.as_bytes().len();
            let mut bytes: usize = 0;
            let mut i: usize = 0;
            proof {
                assert(text@.take(0) =~= Seq::<char>::empty());
            }
            while i < at
                invariant
                    chars@ == text@,
                    i <= at <= chars@.len(),
                    total == text::byte_len(text@),
                    bytes == text::byte_len(text@.take(i as int)),
                decreases at - i,
            {
                proof {
                    assert(text@.take(i + 1) =~= text@.take(i as int).push(text@[i as int]));
                    text::lemma_units_push(text@.take(i as int), text@[i as int]);
                    text::lemma_prefix_widths(text@, i + 1);
                }
                bytes = bytes + text::char_bytes(chars[i]);
                i = i + 1;
            }
            Ok(bytes)
        },
        Err(fault) => Err(fault),
    }
}

// ---------------------------------------------------------------------------
// Edits
// ---------------------------------------------------------------------------
/// One edit: the characters from `start` to `end` give way to `text`.
pub struct EditView {
    pub start: int,
    pub end: int,
    pub text: Seq<char>,
}

/// One edit of a list of characters.
struct Edit {
    start: usize,
    end: usize,
    text: String,
}

impl View for Edit {
    type V = EditView;

    closed spec fn view(&self) -> EditView {
        EditView { start: self.start as int, end: self.end as int, text: self.text@ }
    }
}

/// The edit that a JSON value describes.
pub open spec fn edit_at(text: Seq<char>, edit: JsonView) -> Result<EditView, Fault> {
    match position_place(text, edit.field("range"@).field("start"@)) {
        Err(fault) => Err(fault),
        Ok(start) => match position_place(text, edit.field("range"@).field("end"@)) {
            Err(fault) => Err(fault),
            Ok(end) => match edit.field("newText"@).text() {
                Some(new) => Ok(EditView { start, end, text: new }),
                None => Err(Fault::MissingNewText),
            },
        },
    }
}

/// The edits that JSON values describe; the first fault, if there is one.
pub open spec fn edits_at(text: Seq<char>, edits: Seq<JsonView>) -> Result<Seq<EditView>, Fault>
    decreases edits.len(),
{
    if edits.len() == 0 {
        Ok(Seq::empty())
    } else {
        match edits_at(text, edits.drop_last()) {
            Err(fault) => Err(fault),
            Ok(earlier) => match edit_at(text, edits.last()) {
                Err(fault) => Err(fault),
                Ok(edit) => Ok(earlier.push(edit)),
            },
        }
    }
}

/// Whether an edit may stand before another: by start, then by end.
pub open spec fn not_after(a: EditView, b: EditView) -> bool {
    a.start < b.start || (a.start == b.start && a.end <= b.end)
}

/// Ordered edits with one more, after all that may stand before it.
pub open spec fn with_edit(ordered: Seq<EditView>, edit: EditView) -> Seq<EditView>
    decreases ordered.len(),
{
    if ordered.len() == 0 || not_after(ordered.last(), edit) {
        ordered.push(edit)
    } else {
        with_edit(ordered.drop_last(), edit).push(ordered.last())
    }
}

/// Edits ordered by start, then by end; equal ones as they came.
pub open spec fn in_order(edits: Seq<EditView>) -> Seq<EditView>
    decreases edits.len(),
{
    if edits.len() == 0 {
        Seq::empty()
    } else {
        with_edit(in_order(edits.drop_last()), edits.last())
    }
}

/// Whether no edit runs backwards and none starts before the one before it
/// ends.
pub open spec fn disjoint(ordered: Seq<EditView>) -> bool {
    forall|i: int|
        0 <= i < ordered.len() ==> {
            &&& (#[trigger] ordered[i]).start <= ordered[i].end
            &&& i > 0 ==> ordered[i - 1].end <= ordered[i].start
        }
}

/// A text from a place on, with ordered edits made in it.
pub open spec fn spliced(text: Seq<char>, ordered: Seq<EditView>, from: int) -> Seq<char>
    decreases ordered.len(),
{
    if ordered.len() == 0 {
        text.skip(from)
    } else {
        text.subrange(from, ordered[0].start) + ordered[0].text + spliced(
            text,
            ordered.skip(1),
            ordered[0].end,
        )
    }
}

/// A text with JSON edits made in it.
pub open spec fn edited(text: Seq<char>, edits: Seq<JsonView>) -> Result<Seq<char>, Fault> {
    match edits_at(text, edits) {
        Err(fault) => Err(fault),
        Ok(found) => if disjoint(in_order(found)) {
            Ok(spliced(text, in_order(found), 0))
        } else {
            Err(Fault::OverlappingEdits)
        },
    }
}

proof fn lemma_with_edit(ordered: Seq<EditView>, edit: EditView, k: int)
    requires
        0 <= k <= ordered.len(),
        k > 0 ==> not_after(ordered[k - 1], edit),
        forall|j: int| k <= j < ordered.len() ==> !not_after(#[trigger] ordered[j], edit),
    ensures
        with_edit(ordered, edit) == ordered.insert(k, edit),
    decreases ordered.len(),
{
    if k < ordered.len() {
        lemma_with_edit(ordered.drop_last(), edit, k);
        assert(ordered.drop_last().insert(k, edit).push(ordered.last()) =~= ordered.insert(
            k,
            edit,
        ));
    } else {
        assert(ordered.push(edit) =~= ordered.insert(k, edit));
    }
}

proof fn lemma_with_edit_sorted(ordered: Seq<EditView>, edit: EditView)
    requires
        forall|i: int, j: int|
            0 <= i < j < ordered.len() ==> not_after(#[trigger] ordered[i], #[trigger] ordered[j]),
    ensures
        forall|i: int, j: int|
            0 <= i < j < ordered.len() + 1 ==> not_after(
                #[trigger] with_edit(ordered, edit)[i],
                #[trigger] with_edit(ordered, edit)[j],
            ),
        with_edit(ordered, edit).len() == ordered.len() + 1,
        with_edit(ordered, edit).to_multiset() == ordered.to_multiset().insert(edit),
        forall|e: EditView|
            (forall|i: int| 0 <= i < ordered.len() ==> not_after(#[trigger] ordered[i], e))
                && not_after(edit, e) ==> forall|i: int|
                0 <= i < ordered.len() + 1 ==> not_after(#[trigger] with_edit(ordered, edit)[i], e),
    decreases ordered.len(),
{
    broadcast use vstd::seq_lib::group_to_multiset_ensures;

    let all = with_edit(ordered, edit);
    if ordered.len() == 0 || not_after(ordered.last(), edit) {
    } else {
        let rest = ordered.drop_last();
        lemma_with_edit_sorted(rest, edit);
        assert(not_after(edit, ordered.last()));
        assert forall|i: int| 0 <= i < rest.len() implies not_after(
            #[trigger] rest[i],
            ordered.last(),
        ) by {
            assert(not_after(ordered[i], ordered[ordered.len() - 1]));
        }
        assert(rest.push(ordered.last()) =~= ordered);
        assert(all.to_multiset() =~= ordered.to_multiset().insert(edit));
        assert forall|e: EditView|
            (forall|i: int| 0 <= i < ordered.len() ==> not_after(#[trigger] ordered[i], e))
                && not_after(edit, e) implies forall|i: int|
            0 <= i < ordered.len() + 1 ==> not_after(#[trigger] all[i], e) by {
            assert forall|i: int| 0 <= i < rest.len() implies not_after(#[trigger] rest[i], e) by {
                assert(not_after(ordered[i], e));
            }
            assert(not_after(ordered[ordered.len() - 1], e));
            assert forall|i: int| 0 <= i < ordered.len() + 1 implies not_after(
                #[trigger] all[i],
                e,
            ) by {
                if i < ordered.len() {
                    assert(all[i] == with_edit(rest, edit)[i]);
                }
            }
        }
    }
}

/// Ordering edits only moves them: every edit stays, as often as it came, and
/// they stand by start, then by end.
pub proof fn law_in_order_sorts(edits: Seq<EditView>)
    ensures
        in_order(edits).len() == edits.len(),
        in_order(edits).to_multiset() == edits.to_multiset(),
        forall|i: int, j: int|
            0 <= i < j < edits.len() ==> not_after(
                #[trigger] in_order(edits)[i],
                #[trigger] in_order(edits)[j],
            ),
    decreases edits.len(),
{
    broadcast use vstd::seq_lib::group_to_multiset_ensures;

    if edits.len() > 0 {
        law_in_order_sorts(edits.drop_last());
        lemma_with_edit_sorted(in_order(edits.drop_last()), edits.last());
        assert(edits.drop_last().push(edits.last()) =~= edits);
    } else {
        assert(in_order(edits) =~= edits);
    }
}

/// A text without edits stays as it is.
pub proof fn law_no_edits(text: Seq<char>)
    ensures
        edited(text, Seq::empty()) == Ok::<Seq<char>, Fault>(text),
{
    assert(text.skip(0) =~= text);
    assert(in_order(Seq::<EditView>::empty()) =~= Seq::empty());
}

/// Making ordered, disjoint edits comes to the same as making the last one
/// first and then the others: no edit moves what an earlier one refers to.
pub proof fn law_last_edit_first(text: Seq<char>, ordered: Seq<EditView>, from: int)
    requires
        ordered.len() > 0,
        disjoint(ordered),
        0 <= from <= ordered[0].start,
        ordered.last().end <= text.len(),
    ensures
        ({
            let last = ordered.last();
            let changed = text.take(last.start) + last.text + text.skip(last.end);
            spliced(text, ordered, from) == spliced(changed, ordered.drop_last(), from)
        }),
    decreases ordered.len(),
{
    let last = ordered.last();
    let changed = text.take(last.start) + last.text + text.skip(last.end);
    lemma_starts_increase(ordered, 0, ordered.len() - 1);
    assert(text.subrange(from, ordered[0].start) =~= changed.subrange(from, ordered[0].start));
    if ordered.len() == 1 {
        assert(ordered.skip(1) =~= Seq::<EditView>::empty());
        assert(ordered.drop_last() =~= Seq::<EditView>::empty());
        assert(last == ordered[0]);
        assert(spliced(text, ordered.skip(1), last.end) == text.skip(last.end));
        assert(spliced(changed, ordered.drop_last(), from) == changed.skip(from));
        assert(changed.skip(from) =~= text.subrange(from, last.start) + last.text + text.skip(
            last.end,
        ));
    } else {
        let rest = ordered.skip(1);
        lemma_disjoint_rest(ordered);
        assert(rest.last() == last);
        assert(spliced(text, ordered, from) == text.subrange(from, ordered[0].start)
            + ordered[0].text + spliced(text, rest, ordered[0].end));
        law_last_edit_first(text, rest, ordered[0].end);
        let others = ordered.drop_last();
        assert(rest.drop_last() =~= others.skip(1));
        assert(others[0] == ordered[0]);
        assert(spliced(changed, others, from) == changed.subrange(from, ordered[0].start)
            + ordered[0].text + spliced(changed, others.skip(1), ordered[0].end));
    }
}

proof fn lemma_disjoint_rest(ordered: Seq<EditView>)
    requires
        disjoint(ordered),
        ordered.len() > 1,
    ensures
        disjoint(ordered.skip(1)),
        ordered[0].end <= ordered.skip(1)[0].start,
{
    let rest = ordered.skip(1);
    assert forall|i: int| 0 <= i < rest.len() implies {
        &&& (#[trigger] rest[i]).start <= rest[i].end
        &&& i > 0 ==> rest[i - 1].end <= rest[i].start
    } by {
        assert(rest[i] == ordered[i + 1]);
    }
    assert(ordered[1].start >= ordered[0].end);
}

proof fn lemma_starts_increase(ordered: Seq<EditView>, i: int, j: int)
    requires
        disjoint(ordered),
        0 <= i <= j < ordered.len(),
    ensures
        ordered[i].start <= ordered[j].start,
        i < j ==> ordered[i].end <= ordered[j].start,
        ordered[i].end <= ordered[j].end,
    decreases j - i,
{
    if i < j {
        lemma_starts_increase(ordered, i, j - 1);
        assert(ordered[j - 1].end <= ordered[j].start);
        assert(ordered[j - 1].start <= ordered[j - 1].end);
        assert(ordered[j].start <= ordered[j].end);
    }
}

/// A text with JSON edits made in it: all of them, or none where a position is
/// not in the text, a replacement is missing, or edits overlap.
pub fn edit_text(text: &str, edits: &[Json]) -> (r: Result<String, Fault>)
    ensures
        match r {
            Ok(new) => edited(text@, views(edits@)) == Ok::<Seq<char>, Fault>(new@),
            Err(fault) => edited(text@, views(edits@)) == Err::<Seq<char>, Fault>(fault),
        },
{
    let chars = text::chars_of(text);
    let ghost all = views(edits@);
    let ghost mut found: Seq<EditView> = Seq::empty();
    let mut ordered: Vec<Edit> = Vec::new();
    let mut i: usize = 0;
    proof {
        assert(all.take(0) =~= Seq::<JsonView>::empty());
        assert(ordered@.map_values(|e: Edit| e@) =~= Seq::<EditView>::empty());
    }
    while i < edits.len()
        invariant
            chars@ == text@,
            all == views(edits@),
            i <= edits@.len(),
            edits_at(text@, all.take(i as int)) == Ok::<Seq<EditView>, Fault>(found),
            ordered@.map_values(|e: Edit| e@) == in_order(found),
            forall|j: int|
                0 <= j < ordered@.len() ==> (#[trigger] ordered@[j]).start <= chars@.len()
                    && ordered@[j].end <= chars@.len(),
        decreases edits@.len() - i,
    {
        let ghost before = ordered@.map_values(|e: Edit| e@);
        proof {
            assert(all.take(i + 1).drop_last() =~= all.take(i as int));
            assert(all.take(i + 1).last() == edits@[i as int]@);
            lemma_first_fault(text@, all, i + 1);
        }
        let range = edits[i].at("range");
        let start: usize = match find_position(&chars, range.at("start")) {
            Ok(at) => at,
            Err(fault) => {
                return Err(fault);
            },
        };
        let end: usize = match find_position(&chars, range.at("end")) {
            Ok(at) => at,
            Err(fault) => {
                return Err(fault);
            },
        };
        let new = match edits[i].at("newText").as_str() {
            Some(new) => new.to_owned(),
            None => {
                return Err(Fault::MissingNewText);
            },
        };
        let edit = Edit { start, end, text: new };
        let mut k: usize = ordered.len();
        while k > 0 && !(ordered[k - 1].start < start || (ordered[k - 1].start == start
            && ordered[k - 1].end <= end))
            invariant
                k <= ordered@.len(),
                edit.start == start,
                edit.end == end,
                before == ordered@.map_values(|e: Edit| e@),
                forall|j: int| k <= j < ordered@.len() ==> !not_after(#[trigger] before[j], edit@),
            decreases k,
        {
            k = k - 1;
            proof {
                assert(before[k as int] == ordered@[k as int]@);
            }
        }
        proof {
            if k > 0 {
                assert(before[k - 1] == ordered@[k - 1]@);
            }
            lemma_with_edit(before, edit@, k as int);
            assert(found.push(edit@).drop_last() =~= found);
            found = found.push(edit@);
        }
        ordered.insert(k, edit);
        proof {
            assert(ordered@.map_values(|e: Edit| e@) =~= before.insert(k as int, edit@));
        }
        i = i + 1;
    }
    let ghost views_in_order = in_order(found);
    proof {
        assert(all.take(all.len() as int) =~= all);
        assert(views_in_order.skip(0) =~= views_in_order);
    }
    let mut result = String::new();
    let mut from: usize = 0;
    let mut next: usize = 0;
    while next < ordered.len()
        invariant
            chars@ == text@,
            edited(text@, views(edits@)) == if disjoint(views_in_order) {
                Ok(spliced(text@, views_in_order, 0))
            } else {
                Err::<Seq<char>, Fault>(Fault::OverlappingEdits)
            },
            views_in_order == ordered@.map_values(|e: Edit| e@),
            next <= ordered@.len(),
            from <= chars@.len(),
            from == if next == 0 {
                0
            } else {
                views_in_order[next - 1].end
            },
            forall|j: int|
                0 <= j < ordered@.len() ==> (#[trigger] ordered@[j]).start <= chars@.len()
                    && ordered@[j].end <= chars@.len(),
            forall|j: int|
                0 <= j < next ==> {
                    &&& (#[trigger] views_in_order[j]).start <= views_in_order[j].end
                    &&& j > 0 ==> views_in_order[j - 1].end <= views_in_order[j].start
                },
            spliced(text@, views_in_order, 0) == result@ + spliced(
                text@,
                views_in_order.skip(next as int),
                from as int,
            ),
        decreases ordered@.len() - next,
    {
        let start: usize = ordered[next].start;
        let end: usize = ordered[next].end;
        proof {
            assert(views_in_order[next as int] == ordered@[next as int]@);
        }
        if start > end || start < from {
            return Err(Fault::OverlappingEdits);
        }
        let kept = text::text_between(&chars, from, start);
        let ghost before = result@;
        result = text::joined(result.as_str(), kept.as_str());
        result = text::joined(result.as_str(), ordered[next].text.as_str());
        proof {
            let rest = views_in_order.skip(next as int);
            assert(rest[0] == views_in_order[next as int]);
            assert(rest.skip(1) =~= views_in_order.skip(next + 1));
            assert(result@ + spliced(text@, rest.skip(1), end as int) =~= before + spliced(
                text@,
                rest,
                from as int,
            ));
        }
        from = end;
        next = next + 1;
    }
    let rest = text::text_between(&chars, from, chars.len());
    proof {
        assert(views_in_order.skip(next as int) =~= Seq::<EditView>::empty());
        assert(text@.skip(from as int) =~= text@.subrange(from as int, text@.len() as int));
        assert(disjoint(views_in_order));
    }
    Ok(text::joined(result.as_str(), rest.as_str()))
}

/// A fault among the first edits is the fault of them all.
proof fn lemma_first_fault(text: Seq<char>, edits: Seq<JsonView>, n: int)
    requires
        0 <= n <= edits.len(),
    ensures
        edits_at(text, edits.take(n)) matches Err(fault) ==> edits_at(text, edits) == Err::<
            Seq<EditView>,
            Fault,
        >(fault),
    decreases edits.len(),
{
    if n < edits.len() {
        lemma_first_fault(text, edits.drop_last(), n);
        assert(edits.drop_last().take(n) =~= edits.take(n));
    } else {
        assert(edits.take(n) =~= edits);
    }
}

// ---------------------------------------------------------------------------
// Whole-document changes
// ---------------------------------------------------------------------------
/// Where a text ends when it goes on from a line and a column: line breaks are
/// `\r\n`, `\r` and `\n`, columns count UTF-16 units.
pub open spec fn end_from(text: Seq<char>, line: nat, character: nat) -> (nat, nat)
    decreases text.len(),
{
    if text.len() == 0 {
        (line, character)
    } else if text[0] == '\r' && text.len() > 1 && text[1] == '\n' {
        end_from(text.skip(2), line + 1, 0)
    } else if text[0] == '\r' || text[0] == '\n' {
        end_from(text.skip(1), line + 1, 0)
    } else {
        end_from(text.skip(1), line, character + text::utf16_width(text[0]))
    }
}

/// A JSON position.
pub open spec fn position_view(line: int, character: int) -> JsonView {
    JsonView::object().with("line"@, JsonView::Int(line)).with(
        "character"@,
        JsonView::Int(character),
    )
}

/// The change event that turns one text into another.
pub open spec fn change_view(old: Seq<char>, new: Seq<char>, incremental: bool) -> JsonView {
    let whole = JsonView::object().with("text"@, JsonView::Text(new));
    if incremental {
        let end = end_from(old, 0, 0);
        whole.with(
            "range"@,
            JsonView::object().with("start"@, position_view(0, 0)).with(
                "end"@,
                position_view(end.0 as int, end.1 as int),
            ),
        )
    } else {
        whole
    }
}

/// Whether every carriage return of a text belongs to a line feed.
pub open spec fn has_no_lone_return(text: Seq<char>) -> bool {
    forall|i: int|
        0 <= i < text.len() && #[trigger] text[i] == '\r' ==> i + 1 < text.len() && text[i + 1]
            == '\n'
}

/// The edit that puts a text in the place of another.
pub open spec fn replacement(old: Seq<char>, new: Seq<char>) -> JsonView {
    let end = end_from(old, 0, 0);
    JsonView::object().with(
        "range"@,
        JsonView::object().with("start"@, position_view(0, 0)).with(
            "end"@,
            position_view(end.0 as int, end.1 as int),
        ),
    ).with("newText"@, JsonView::Text(new))
}

proof fn lemma_end_line(text: Seq<char>, line: nat, character: nat)
    ensures
        end_from(text, line, character) == (
            line + end_from(text, 0, character).0,
            end_from(text, 0, character).1,
        ),
    decreases text.len(),
{
    if text.len() > 0 {
        if text[0] == '\r' && text.len() > 1 && text[1] == '\n' {
            lemma_end_line(text.skip(2), line + 1, 0);
            lemma_end_line(text.skip(2), 1, 0);
        } else if text[0] == '\r' || text[0] == '\n' {
            lemma_end_line(text.skip(1), line + 1, 0);
            lemma_end_line(text.skip(1), 1, 0);
        } else {
            lemma_end_line(text.skip(1), line, character + text::utf16_width(text[0]));
        }
    }
}

proof fn lemma_end_bound(text: Seq<char>, line: nat, character: nat)
    ensures
        end_from(text, line, character).0 <= line + text.len(),
        end_from(text, line, character).1 <= character + text::utf16_units(text),
    decreases text.len(),
{
    if text.len() > 0 {
        lemma_units_front(text);
        assert(text.drop_first() =~= text.skip(1));
        if text[0] == '\r' && text.len() > 1 && text[1] == '\n' {
            lemma_units_front(text.skip(1));
            assert(text.skip(1).drop_first() =~= text.skip(2));
            lemma_end_bound(text.skip(2), line + 1, 0);
        } else if text[0] == '\r' || text[0] == '\n' {
            lemma_end_bound(text.skip(1), line + 1, 0);
        } else {
            lemma_end_bound(text.skip(1), line, character + text::utf16_width(text[0]));
        }
    }
}

/// Without a line break a text ends on its line, behind all its units.
proof fn lemma_end_of_line(text: Seq<char>, line: nat, character: nat)
    requires
        forall|i: int| 0 <= i < text.len() ==> #[trigger] text[i] != '\n' && text[i] != '\r',
    ensures
        end_from(text, line, character) == (line, character + text::utf16_units(text)),
        column(text, text::utf16_units(text)) == Ok::<int, Fault>(text.len() as int),
    decreases text.len(),
{
    if text.len() > 0 {
        lemma_units_front(text);
        assert(text.drop_first() =~= text.skip(1));
        assert(text[0] != '\n' && text[0] != '\r');
        assert forall|i: int| 0 <= i < text.skip(1).len() implies #[trigger] text.skip(1)[i] != '\n'
            && text.skip(1)[i] != '\r' by {
            assert(text.skip(1)[i] == text[i + 1]);
        }
        lemma_end_of_line(text.skip(1), line, character + text::utf16_width(text[0]));
    }
}

/// A text goes on after its first line feed on the next line.
proof fn lemma_end_after_line(text: Seq<char>, line: nat, character: nat)
    requires
        has_no_lone_return(text),
    ensures
        text::first_index(text, '\n') matches Some(i) ==> end_from(text, line, character)
            == end_from(text.skip(i + 1), line + 1, 0),
    decreases text.len(),
{
    text::lemma_first_index(text, '\n');
    match text::first_index(text, '\n') {
        Some(i) => {
            if text[0] == '\r' {
                assert(text[1] == '\n');
                assert(i == 1);
            } else if text[0] != '\n' {
                let rest = text.skip(1);
                assert forall|k: int| 0 <= k < rest.len() && #[trigger] rest[k] == '\r' implies k + 1
                    < rest.len() && rest[k + 1] == '\n' by {
                    assert(text[k + 1] == '\r');
                }
                text::lemma_first_index(rest, '\n');
                assert(rest[i - 1] == '\n');
                match text::first_index(rest, '\n') {
                    Some(j) => {
                        assert(text[j + 1] == rest[j]);
                    },
                    None => {},
                }
                lemma_end_after_line(rest, line, character + text::utf16_width(text[0]));
                assert(rest.skip(i) =~= text.skip(i + 1));
            }
        },
        None => {},
    }
}

/// The end of a text, as a whole-document change counts it, is the place behind
/// its last character, provided that every carriage return belongs to a line
/// feed: positions know no other line breaks.
pub proof fn law_end_is_behind_the_text(text: Seq<char>)
    requires
        has_no_lone_return(text),
    ensures
        place(text, end_from(text, 0, 0).0, end_from(text, 0, 0).1) == Ok::<int, Fault>(
            text.len() as int,
        ),
    decreases text.len(),
{
    text::lemma_first_index(text, '\n');
    let end = end_from(text, 0, 0);
    match text::first_index(text, '\n') {
        None => {
            assert forall|i: int| 0 <= i < text.len() implies #[trigger] text[i] != '\n' && text[i]
                != '\r' by {
                if text[i] == '\r' {
                    assert(text[i + 1] == '\n');
                }
            }
            lemma_end_of_line(text, 0, 0);
            assert(text.skip(0) =~= text);
        },
        Some(i) => {
            let rest = text.skip(i + 1);
            assert forall|k: int| 0 <= k < rest.len() && #[trigger] rest[k] == '\r' implies k + 1
                < rest.len() && rest[k + 1] == '\n' by {
                assert(text[k + i + 1] == '\r');
            }
            lemma_end_after_line(text, 0, 0);
            lemma_end_line(rest, 1, 0);
            law_end_is_behind_the_text(rest);
            let inner = end_from(rest, 0, 0);
            assert(end == (1 + inner.0, inner.1));
            lemma_line_start(rest, inner.0);
            let start = line_start(rest, inner.0)->0;
            assert(line_start(text, end.0) == Some(i + 1 + start));
            assert(text.skip(i + 1 + start) =~= rest.skip(start));
        },
    }
}

/// Making the edit of a whole-document change gives the new text, whatever the
/// old one was, provided that every carriage return of it belongs to a line
/// feed.
pub proof fn law_replacement_gives_new_text(old: Seq<char>, new: Seq<char>)
    requires
        has_no_lone_return(old),
        text::byte_len(old) <= u64::MAX,
    ensures
        edited(old, seq![replacement(old, new)]) == Ok::<Seq<char>, Fault>(new),
{
    let end = end_from(old, 0, 0);
    let edit = replacement(old, new);
    reveal_strlit("range");
    reveal_strlit("newText");
    reveal_strlit("start");
    reveal_strlit("end");
    reveal_strlit("line");
    reveal_strlit("character");
    assert("range"@.len() == 5 && "newText"@.len() == 7 && "start"@.len() == 5 && "end"@.len() == 3);
    assert("line"@.len() == 4 && "character"@.len() == 9);
    lemma_end_bound(old, 0, 0);
    text::lemma_units_bound(old);
    let range = edit.field("range"@);
    let first = range.field("start"@);
    let last = range.field("end"@);
    assert(first.field("line"@).unsigned() == Some(0u64));
    assert(first.field("character"@).unsigned() == Some(0u64));
    assert(last.field("line"@).unsigned() == Some(end.0 as u64));
    assert(last.field("character"@).unsigned() == Some(end.1 as u64));
    assert(position_place(old, first) == Ok::<int, Fault>(0));
    law_end_is_behind_the_text(old);
    assert(position_place(old, last) == Ok::<int, Fault>(old.len() as int));
    let whole = EditView { start: 0, end: old.len() as int, text: new };
    assert(edit_at(old, edit) == Ok::<EditView, Fault>(whole));
    let edits = seq![edit];
    assert(edits.drop_last() =~= Seq::<JsonView>::empty());
    assert(edits_at(old, edits.drop_last()) == Ok::<Seq<EditView>, Fault>(Seq::empty()));
    assert(edits_at(old, edits) == Ok::<Seq<EditView>, Fault>(Seq::empty().push(whole)));
    let found = Seq::<EditView>::empty().push(whole);
    assert(found.drop_last() =~= Seq::<EditView>::empty());
    assert(in_order(found.drop_last()) == Seq::<EditView>::empty());
    assert(in_order(found) =~= found);
    assert(disjoint(found));
    assert(found.skip(1) =~= Seq::<EditView>::empty());
    assert(spliced(old, found.skip(1), old.len() as int) == old.skip(old.len() as int));
    assert(spliced(old, found, 0) =~= new);
}

/// A JSON position.
pub fn position(line: u64, character: u64) -> (r: Json)
    ensures
        r@ == position_view(line as int, character as int),
{
    Json::object().with("line", Json::number(line)).with("character", Json::number(character))
}

/// The change event that turns one text into another. Incremental servers need
/// an explicit range in the old document, even for a full replacement.
pub fn document_change(old: &str, new: &str, incremental: bool) -> (r: Json)
    ensures
        r@ == change_view(old@, new@, incremental),
{
    let whole = Json::object().with("text", Json::text(new));
    if !incremental {
        return whole;
    }
    let total: u64 = old.as_bytes().len() as u64;
    let chars = text::chars_of(old);
    let mut line: u64 = 0;
    let mut character: u64 = 0;
    let mut i: usize = 0;
    proof {
        assert(old@.skip(0) =~= old@);
        assert(old@.take(0) =~= Seq::<char>::empty());
        text::lemma_units_bound(old@);
    }
    while i < chars.len()
        invariant
            chars@ == old@,
            i <= chars@.len() <= total,
            total == text::byte_len(old@),
            line <= i,
            character <= text::utf16_units(old@.take(i as int)),
            end_from(old@, 0, 0) == end_from(
                old@.skip(i as int),
                line as nat,
                character as nat,
            ),
        decreases chars@.len() - i,
    {
        let ch = chars[i];
        proof {
            let rest = old@.skip(i as int);
            assert(rest[0] == ch);
            assert(rest.skip(1) =~= old@.skip(i + 1));
            assert(old@.take(i + 1) =~= old@.take(i as int).push(ch));
            text::lemma_units_push(old@.take(i as int), ch);
            text::lemma_units_bound(old@.take(i + 1));
            text::lemma_prefix_widths(old@, i + 1);
            if i + 1 < old@.len() {
                assert(rest[1] == old@[i + 1]);
                assert(rest.skip(2) =~= old@.skip(i + 2));
                assert(old@.take(i + 2) =~= old@.take(i + 1).push(old@[i + 1]));
                text::lemma_units_push(old@.take(i + 1), old@[i + 1]);
            }
        }
        if ch == '\r' || ch == '\n' {
            if ch == '\r' && i + 1 < chars.len() && chars[i + 1] == '\n' {
                i = i + 1;
            }
            line = line + 1;
            character = 0;
        } else {
            character = character + text::char_units(ch) as u64;
        }
        i = i + 1;
    }
    let range = Json::object().with("start", position(0, 0)).with("end", position(line, character));
    proof {
        assert(old@.skip(i as int) =~= Seq::<char>::empty());
    }
    whole.with("range", range)
}

// ---------------------------------------------------------------------------
// Messages on a byte stream
// ---------------------------------------------------------------------------
/// The longest message body that is read.
pub const MAX_MESSAGE_BYTES: usize = 33_554_432;

/// What the bytes at hand come to.
pub enum ReadingView {
    /// The message is not complete yet.
    More,
    /// The stream ended before a message began in earnest.
    Ended,
    /// A message, with the number of bytes that it takes.
    Message { value: JsonView, length: int },
    Failed(FailureView),
}

/// What the bytes at hand come to.
pub enum Reading {
    /// The message is not complete yet.
    More,
    /// The stream ended before a message began in earnest.
    Ended,
    /// A message, with the number of bytes that it takes.
    Message { value: Json, length: usize },
    Failed(Failure),
}

impl View for Reading {
    type V = ReadingView;

    open spec fn view(&self) -> ReadingView {
        match *self {
            Reading::More => ReadingView::More,
            Reading::Ended => ReadingView::Ended,
            Reading::Message { value, length } => ReadingView::Message {
                value: value@,
                length: length as int,
            },
            Reading::Failed(failure) => ReadingView::Failed(failure@),
        }
    }
}

/// Where the line that holds a place ends, after its line feed.
pub open spec fn line_end(bytes: Seq<u8>, at: int) -> Option<int>
    decreases bytes.len() - at,
{
    if at >= bytes.len() {
        None
    } else if bytes[at] == 10 {
        Some(at + 1)
    } else {
        line_end(bytes, at + 1)
    }
}

/// Whether a text is a number up to the given one.
pub open spec fn is_number_up_to(text: Seq<char>, most: nat) -> bool {
    match text::parsed_number(text) {
        Some(n) => n <= most,
        None => false,
    }
}

/// How it is worded that a text is no number up to the given one.
pub uninterp spec fn number_fault(text: Seq<char>, most: nat) -> Option<Seq<char>>;

/// `str::parse` to a `usize`, where it fails: it does so unless the text is
/// decimal digits after at most one plus sign and the number fits. The wording of
/// the error depends on the text and on what fits.
#[verifier::external_body]
fn explain_number(text: &str) -> (r: Option<String>)
    ensures
        text::option_view(r) == number_fault(text@, usize::MAX as nat),
        r is None <==> is_number_up_to(text@, usize::MAX as nat),
{
    match text.parse::<usize>() {
        Ok(_) => None,
        Err(error) => Some(error.to_string()),
    }
}

/// The length that a header gives, or why it gives none.
pub open spec fn length_in(digits: Seq<char>) -> Result<nat, FailureView> {
    match text::parsed_number(digits) {
        Some(n) => if n <= usize::MAX {
            Ok(n)
        } else {
            Err(invalid_length(digits))
        },
        None => Err(invalid_length(digits)),
    }
}

/// Why a header gives no length.
pub open spec fn invalid_length(digits: Seq<char>) -> FailureView {
    FailureView {
        fault: Fault::InvalidLength,
        detail: number_fault(digits, usize::MAX as nat)->0,
    }
}

fn read_length(digits: &str) -> (r: Result<usize, Failure>)
    ensures
        match r {
            Ok(n) => length_in(digits@) == Ok::<nat, FailureView>(n as nat),
            Err(failure) => length_in(digits@) == Err::<nat, FailureView>(failure@),
        },
{
    match text::parse_number(digits, usize::MAX as u64) {
        Some(n) => Ok(n as usize),
        None => {
            let words = match explain_number(digits) {
                Some(words) => words,
                None => String::new(),
            };
            Err(Failure::of(Fault::InvalidLength, words.as_str()))
        },
    }
}

/// The message length after a header line: the line's own if it gives one,
/// else what it was before.
pub open spec fn header_length(line: Seq<u8>, length: Option<nat>) -> Result<
    Option<nat>,
    FailureView,
> {
    if !valid_utf8(line) {
        Err(FailureView::plain(Fault::HeaderNotText))
    } else {
        let words = decode_utf8(line);
        match text::first_index(words, ':') {
            Some(colon) => if text::lowered(words.take(colon)) == text::lowered(
                "Content-Length"@,
            ) {
                match length_in(text::trimmed(words.skip(colon + 1))) {
                    Ok(n) => Ok(Some(n)),
                    Err(failure) => Err(failure),
                }
            } else {
                Ok(length)
            },
            None => Ok(length),
        }
    }
}

/// Whether a header line ends the header.
pub open spec fn is_empty_line(line: Seq<u8>) -> bool {
    line == seq![10u8] || line == seq![13u8, 10u8]
}

/// What a message's body, from a place on, comes to.
pub open spec fn body_reading(
    bytes: Seq<u8>,
    at: int,
    length: Option<nat>,
    ended: bool,
) -> ReadingView {
    match length {
        None => ReadingView::Failed(FailureView::plain(Fault::MissingLength)),
        Some(n) => if n > MAX_MESSAGE_BYTES {
            ReadingView::Failed(FailureView::plain(Fault::MessageTooLarge))
        } else if at + n > bytes.len() {
            if ended {
                ReadingView::Failed(FailureView::plain(Fault::MessageCutShort))
            } else {
                ReadingView::More
            }
        } else {
            match json_outcome(bytes.subrange(at, at + n)) {
                Ok(value) => ReadingView::Message { value, length: at + n },
                Err(words) => ReadingView::Failed(
                    FailureView { fault: Fault::InvalidJson, detail: words },
                ),
            }
        },
    }
}

/// What the bytes from a header line on come to; `ended` tells that no more
/// will follow.
pub open spec fn reading_from(
    bytes: Seq<u8>,
    at: int,
    length: Option<nat>,
    ended: bool,
) -> ReadingView
    decreases bytes.len() - at,
    when 0 <= at <= bytes.len()
    via line_end_progress
{
    match line_end(bytes, at) {
        None => if !ended {
            ReadingView::More
        } else if at == bytes.len() {
            ReadingView::Ended
        } else {
            match header_length(bytes.skip(at), length) {
                Err(failure) => ReadingView::Failed(failure),
                Ok(_) => ReadingView::Ended,
            }
        },
        Some(end) => {
            let line = bytes.subrange(at, end);
            if is_empty_line(line) {
                body_reading(bytes, end, length, ended)
            } else {
                match header_length(line, length) {
                    Err(failure) => ReadingView::Failed(failure),
                    Ok(now) => reading_from(bytes, end, now, ended),
                }
            }
        },
    }
}

#[via_fn]
proof fn line_end_progress(bytes: Seq<u8>, at: int, length: Option<nat>, ended: bool) {
    lemma_line_end(bytes, at);
}

/// What the bytes of a stream come to.
pub open spec fn reading(bytes: Seq<u8>, ended: bool) -> ReadingView {
    reading_from(bytes, 0, None, ended)
}

proof fn lemma_line_end(bytes: Seq<u8>, at: int)
    requires
        0 <= at <= bytes.len(),
    ensures
        match line_end(bytes, at) {
            Some(end) => at < end <= bytes.len() && bytes[end - 1] == 10 && forall|j: int|
                at <= j < end - 1 ==> bytes[j] != 10,
            None => forall|j: int| at <= j < bytes.len() ==> bytes[j] != 10,
        },
    decreases bytes.len() - at,
{
    if at < bytes.len() && bytes[at] != 10 {
        lemma_line_end(bytes, at + 1);
    }
}

proof fn lemma_line_end_is(bytes: Seq<u8>, at: int, end: int)
    requires
        0 <= at < end <= bytes.len(),
        bytes[end - 1] == 10,
        forall|j: int| at <= j < end - 1 ==> bytes[j] != 10,
    ensures
        line_end(bytes, at) == Some(end),
    decreases end - at,
{
    if at < end - 1 {
        lemma_line_end_is(bytes, at + 1, end);
    }
}

/// The place after the first line feed from a place on.
fn find_line_end(bytes: &[u8], at: usize) -> (r: Option<usize>)
    requires
        at <= bytes@.len(),
    ensures
        match r {
            Some(end) => line_end(bytes@, at as int) == Some(end as int) && at < end
                <= bytes@.len(),
            None => line_end(bytes@, at as int) is None,
        },
{
    let total: usize = bytes.len();
    let mut i: usize = at;
    while i < total
        invariant
            total == bytes@.len(),
            at <= i <= total,
            line_end(bytes@, at as int) == line_end(bytes@, i as int),
        decreases total - i,
    {
        if bytes[i] == 10 {
            return Some(i + 1);
        }
        i = i + 1;
    }
    None
}

/// The length that a message has, in the terms of contracts.
pub open spec fn length_view(length: Option<usize>) -> Option<nat> {
    match length {
        Some(n) => Some(n as nat),
        None => None,
    }
}

/// The message length after a header line.
fn read_header_line(line: &[u8], length: Option<usize>) -> (r: Result<Option<usize>, Failure>)
    ensures
        match r {
            Ok(now) => header_length(line@, length_view(length)) == Ok::<Option<nat>, FailureView>(
                length_view(now),
            ),
            Err(failure) => header_length(line@, length_view(length)) == Err::<
                Option<nat>,
                FailureView,
            >(failure@),
        },
{
    let words = match text::decode(line) {
        Some(words) => words,
        None => {
            return Err(Failure::plain(Fault::HeaderNotText));
        },
    };
    let chars = text::chars_of(words.as_str());
    proof {
        assert(chars@.skip(0) =~= chars@);
    }
    match text::find_from(&chars, 0, ':') {
        None => Ok(length),
        Some(colon) => {
            let key = text::text_between(&chars, 0, colon);
            proof {
                assert(chars@.subrange(0, colon as int) =~= chars@.take(colon as int));
                assert(chars@.subrange(colon + 1, chars@.len() as int) =~= chars@.skip(colon + 1));
            }
            if text::same_ignoring_case(key.as_str(), "Content-Length") {
                let value = text::text_between(&chars, colon + 1, chars.len());
                let digits = text::trim(value.as_str());
                match read_length(digits.as_str()) {
                    Ok(n) => Ok(Some(n)),
                    Err(failure) => Err(failure),
                }
            } else {
                Ok(length)
            }
        },
    }
}

/// Reads the message that a stream starts with. `input` is what has come so
/// far; `ended` tells that no more will follow.
pub fn read_message(input: &[u8], ended: bool) -> (r: Reading)
    ensures
        r@ == reading(input@, ended),
{
    let total: usize = input.len();
    let mut at: usize = 0;
    let mut length: Option<usize> = None;
    loop
        invariant
            total == input@.len(),
            at <= total,
            reading(input@, ended) == reading_from(
                input@,
                at as int,
                length_view(length),
                ended,
            ),
        decreases total - at,
    {
        match find_line_end(input, at) {
            None => {
                if !ended {
                    return Reading::More;
                }
                if at == total {
                    return Reading::Ended;
                }
                proof {
                    assert(input@.subrange(at as int, total as int) =~= input@.skip(at as int));
                }
                return match read_header_line(
                    vstd::slice::slice_subrange(input, at, total),
                    length,
                ) {
                    Err(failure) => Reading::Failed(failure),
                    Ok(_) => Reading::Ended,
                };
            },
            Some(end) => {
                let line = vstd::slice::slice_subrange(input, at, end);
                let empty: bool = (line.len() == 1 && line[0] == 10) || (line.len() == 2 && line[0]
                    == 13 && line[1] == 10);
                proof {
                    assert(empty == is_empty_line(line@)) by {
                        if line@.len() == 1 && line@[0] == 10 {
                            assert(line@ =~= seq![10u8]);
                        }
                        if line@.len() == 2 && line@[0] == 13 && line@[1] == 10 {
                            assert(line@ =~= seq![13u8, 10u8]);
                        }
                    }
                }
                if empty {
                    return read_body(input, end, length, ended);
                }
                match read_header_line(line, length) {
                    Err(failure) => {
                        return Reading::Failed(failure);
                    },
                    Ok(now) => {
                        length = now;
                        at = end;
                    },
                }
            },
        }
    }
}

/// Reads a message's body.
fn read_body(input: &[u8], at: usize, length: Option<usize>, ended: bool) -> (r: Reading)
    requires
        at <= input@.len(),
    ensures
        r@ == body_reading(input@, at as int, length_view(length), ended),
{
    match length {
        None => Reading::Failed(Failure::plain(Fault::MissingLength)),
        Some(n) => {
            if n > MAX_MESSAGE_BYTES {
                return Reading::Failed(Failure::plain(Fault::MessageTooLarge));
            }
            if n > input.len() - at {
                if ended {
                    return Reading::Failed(Failure::plain(Fault::MessageCutShort));
                }
                return Reading::More;
            }
            match wire::parse_or_explain(vstd::slice::slice_subrange(input, at, at + n)) {
                Ok(value) => Reading::Message { value, length: at + n },
                Err(words) => Reading::Failed(Failure::of(Fault::InvalidJson, words.as_str())),
            }
        },
    }
}

/// The header of a message with a body of the given length.
pub open spec fn header_view(length: nat) -> Seq<char> {
    "Content-Length: "@ + text::decimal(length) + "\r\n\r\n"@
}

/// The bytes of a message.
pub open spec fn frame(value: JsonView) -> Seq<u8> {
    encode_utf8(header_view(json_written(value).len())) + json_written(value)
}

/// Writes a message: a header with the length of the body, an empty line and
/// the body. [`read_message`] reads a plain one back, whatever follows it.
pub fn write_message(value: &Json) -> (bytes: Vec<u8>)
    ensures
        bytes@ == frame(value@),
        is_plain(value@, max_nesting()) ==> json_read(json_written(value@)) == Some(value@),
        is_plain(value@, max_nesting()) && json_written(value@).len() <= MAX_MESSAGE_BYTES ==> (
        forall|rest: Seq<u8>, ended: bool| #[trigger]
            reading(bytes@ + rest, ended) == (ReadingView::Message {
                value: value@,
                length: bytes@.len() as int,
            })),
{
    let body = wire::render(value);
    let digits = text::decimal_text(body.len() as u64);
    let start = text::joined("Content-Length: ", digits.as_str());
    let header = text::joined(start.as_str(), "\r\n\r\n");
    let mut bytes: Vec<u8> = Vec::new();
    bytes.extend_from_slice(header.as_str().as_bytes());
    bytes.extend_from_slice(body.as_slice());
    proof {
        assert(bytes@ =~= frame(value@));
        if is_plain(value@, max_nesting()) && body@.len() <= MAX_MESSAGE_BYTES {
            assert forall|rest: Seq<u8>, ended: bool| #[trigger]
                reading(bytes@ + rest, ended) == (ReadingView::Message {
                    value: value@,
                    length: bytes@.len() as int,
                }) by {
                law_frame_is_read_back(value@, rest, ended);
            }
        }
    }
    bytes
}

/// The bytes of a message are read back as the message and nothing more,
/// whatever follows, if its body is read back and is not too long.
pub proof fn law_frame_is_read_back(value: JsonView, rest: Seq<u8>, ended: bool)
    requires
        json_read(json_written(value)) == Some(value),
        json_written(value).len() <= MAX_MESSAGE_BYTES,
    ensures
        reading(frame(value) + rest, ended) == (ReadingView::Message {
            value,
            length: frame(value).len() as int,
        }),
{
    let body = json_written(value);
    let n = body.len();
    let digits = text::decimal(n);
    let bytes = frame(value) + rest;
    let first = "Content-Length: "@ + digits + "\r\n"@;
    reveal_strlit("Content-Length: ");
    reveal_strlit("Content-Length");
    reveal_strlit("\r\n");
    reveal_strlit("\r\n\r\n");
    text::lemma_decimal_parses(n);
    lemma_header_bytes(n);
    let header = encode_utf8(header_view(n));
    let a = first.len() as int;
    assert(header.len() == a + 2);
    // The first line gives the length.
    assert(first =~= header_view(n).take(a));
    assert forall|i: int| 0 <= i < a implies (#[trigger] first[i] == '\n') == (i == a - 1) by {
        if 16 <= i < a - 2 {
            assert(first[i] == digits[i - 16]);
            assert(text::is_digit(digits[i - 16]));
        }
    }
    assert forall|i: int| 0 <= i < a - 1 implies bytes[i] != 10 by {
        assert(bytes[i] == header[i]);
        assert(first[i] == header_view(n)[i]);
    }
    assert(bytes[a - 1] == header[a - 1]);
    assert(header_view(n)[a - 1] == '\n');
    lemma_line_end_is(bytes, 0, a);
    let line = bytes.subrange(0, a);
    assert(encode_utf8(first) == line) by {
        vstd::utf8::is_ascii_chars_encode_utf8(first);
        assert(encode_utf8(first) =~= line);
    }
    vstd::utf8::encode_utf8_valid_utf8(first);
    vstd::utf8::encode_utf8_decode_utf8(first);
    assert(decode_utf8(line) == first);
    lemma_first_line(n);
    assert(line.len() > 2);
    assert(!is_empty_line(line));
    assert(header_length(line, None) == Ok::<Option<nat>, FailureView>(Some(n)));
    // The second one is empty.
    let end = a + 2;
    assert(bytes[a] == header[a]);
    assert(bytes[a + 1] == header[a + 1]);
    assert(header_view(n)[a] == '\r');
    assert(header_view(n)[a + 1] == '\n');
    lemma_line_end_is(bytes, a, end);
    assert(bytes.subrange(a, end) =~= seq![13u8, 10u8]);
    // The body follows.
    assert(bytes.subrange(end, end + n) =~= body);
    assert(reading_from(bytes, a, Some(n), ended) == body_reading(bytes, end, Some(n), ended));
}

/// Messages written one after the other are read back one after the other, each
/// with exactly its own bytes, and then the stream has ended.
pub proof fn law_frames_are_read_in_turn(first: JsonView, second: JsonView)
    requires
        json_read(json_written(first)) == Some(first),
        json_read(json_written(second)) == Some(second),
        json_written(first).len() <= MAX_MESSAGE_BYTES,
        json_written(second).len() <= MAX_MESSAGE_BYTES,
    ensures
        ({
            let bytes = frame(first) + frame(second);
            let rest = bytes.skip(frame(first).len() as int);
            &&& reading(bytes, true) == (ReadingView::Message {
                value: first,
                length: frame(first).len() as int,
            })
            &&& reading(rest, true) == (ReadingView::Message {
                value: second,
                length: frame(second).len() as int,
            })
            &&& reading(rest.skip(frame(second).len() as int), true) == ReadingView::Ended
        }),
{
    let bytes = frame(first) + frame(second);
    let rest = bytes.skip(frame(first).len() as int);
    law_frame_is_read_back(first, frame(second), true);
    law_frame_is_read_back(second, Seq::empty(), true);
    assert(rest =~= frame(second) + Seq::empty());
    let last = rest.skip(frame(second).len() as int);
    assert(last =~= Seq::<u8>::empty());
    assert(line_end(last, 0) is None);
}

/// A header is plain ASCII: a byte for each character.
proof fn lemma_header_bytes(n: nat)
    ensures
        encode_utf8(header_view(n)).len() == header_view(n).len(),
        forall|i: int|
            0 <= i < header_view(n).len() ==> #[trigger] encode_utf8(header_view(n))[i]
                == header_view(n)[i] as u8 && (header_view(n)[i] as u32) < 128,
        vstd::utf8::is_ascii_chars(
            "Content-Length: "@ + text::decimal(n) + "\r\n"@,
        ),
{
    let header = header_view(n);
    reveal_strlit("Content-Length: ");
    reveal_strlit("\r\n");
    reveal_strlit("\r\n\r\n");
    text::lemma_decimal_parses(n);
    let digits = text::decimal(n);
    let first = "Content-Length: "@ + digits + "\r\n"@;
    assert forall|i: int| 0 <= i < digits.len() implies (#[trigger] digits[i] as u32) < 128 by {
        assert(text::is_digit(digits[i]));
    }
    assert forall|i: int| 0 <= i < header.len() implies (#[trigger] header[i] as u32) < 128 by {
        if 16 <= i < 16 + digits.len() {
            assert(header[i] == digits[i - 16]);
        }
    }
    assert(vstd::utf8::is_ascii_chars(header));
    assert forall|i: int| 0 <= i < first.len() implies (#[trigger] first[i] as u32) < 128 by {
        assert(first[i] == header[i]);
    }
    vstd::utf8::is_ascii_chars_encode_utf8(header);
}

/// What the first header line says.
proof fn lemma_first_line(n: nat)
    ensures
        ({
            let first = "Content-Length: "@ + text::decimal(n) + "\r\n"@;
            &&& text::first_index(first, ':') == Some(14int)
            &&& first.take(14) == "Content-Length"@
            &&& text::parsed_number(text::trimmed(first.skip(15))) == Some(n)
        }),
{
    reveal_strlit("Content-Length: ");
    reveal_strlit("Content-Length");
    reveal_strlit("\r\n");
    text::lemma_decimal_parses(n);
    let digits = text::decimal(n);
    let first = "Content-Length: "@ + digits + "\r\n"@;
    text::lemma_first_index_is(first, ':', 14);
    assert(first.take(14) =~= "Content-Length"@);
    let value = first.skip(15);
    assert(value[0] == ' ');
    assert(value.drop_first() =~= digits + "\r\n"@);
    assert((digits + "\r\n"@)[0] == digits[0]);
    assert(text::is_digit(digits[0]));
    assert(text::trim_start(value) == digits + "\r\n"@) by {
        reveal_with_fuel(text::trim_start, 3);
    }
    let tail = digits + "\r\n"@;
    assert(tail.drop_last() =~= digits.push('\r'));
    assert(digits.push('\r').drop_last() =~= digits);
    assert(text::is_digit(digits.last()));
    assert(text::trim_end(tail) == digits) by {
        reveal_with_fuel(text::trim_end, 4);
    }
}

/// Once the bytes at hand come to something, more bytes change nothing: how a
/// stream is cut into pieces does not matter.
pub proof fn law_reading_is_settled(bytes: Seq<u8>, more: Seq<u8>, ended: bool)
    requires
        !(reading(bytes, false) is More),
    ensures
        reading(bytes + more, ended) == reading(bytes, false),
{
    lemma_reading_is_settled(bytes, more, 0, None, ended);
}

proof fn lemma_reading_is_settled(
    bytes: Seq<u8>,
    more: Seq<u8>,
    at: int,
    length: Option<nat>,
    ended: bool,
)
    requires
        0 <= at <= bytes.len(),
        !(reading_from(bytes, at, length, false) is More),
    ensures
        reading_from(bytes + more, at, length, ended) == reading_from(bytes, at, length, false),
    decreases bytes.len() - at,
{
    let all = bytes + more;
    lemma_line_end(bytes, at);
    match line_end(bytes, at) {
        None => {},
        Some(end) => {
            lemma_line_end_is(all, at, end);
            let line = bytes.subrange(at, end);
            assert(all.subrange(at, end) =~= line);
            if is_empty_line(line) {
                match length {
                    Some(n) => {
                        if end + n <= bytes.len() {
                            assert(all.subrange(end, end + n) =~= bytes.subrange(end, end + n));
                        }
                    },
                    None => {},
                }
            } else {
                match header_length(line, length) {
                    Err(_) => {},
                    Ok(now) => {
                        lemma_reading_is_settled(bytes, more, end, now, ended);
                    },
                }
            }
        },
    }
}

// ---------------------------------------------------------------------------
// What positions and edits mean
// ---------------------------------------------------------------------------
/// How many line feeds a text holds.
pub open spec fn line_feeds(text: Seq<char>) -> nat
    decreases text.len(),
{
    if text.len() == 0 {
        0
    } else {
        line_feeds(text.drop_first()) + if text[0] == '\n' {
            1nat
        } else {
            0nat
        }
    }
}

proof fn lemma_line_feeds_skip(text: Seq<char>, i: int)
    requires
        0 <= i < text.len(),
        text[i] == '\n',
        forall|j: int| 0 <= j < i ==> text[j] != '\n',
    ensures
        line_feeds(text) == 1 + line_feeds(text.skip(i + 1)),
    decreases i,
{
    if i == 0 {
        assert(text.drop_first() =~= text.skip(1));
    } else {
        let rest = text.drop_first();
        assert(rest[i - 1] == '\n');
        assert forall|j: int| 0 <= j < i - 1 implies rest[j] != '\n' by {
            assert(rest[j] == text[j + 1]);
        }
        lemma_line_feeds_skip(rest, i - 1);
        assert(rest.skip(i) =~= text.skip(i + 1));
    }
}

proof fn lemma_no_line_feeds(text: Seq<char>)
    requires
        forall|j: int| 0 <= j < text.len() ==> text[j] != '\n',
    ensures
        line_feeds(text) == 0,
    decreases text.len(),
{
    if text.len() > 0 {
        let rest = text.drop_first();
        assert forall|j: int| 0 <= j < rest.len() implies rest[j] != '\n' by {
            assert(rest[j] == text[j + 1]);
        }
        lemma_no_line_feeds(rest);
    }
}

proof fn lemma_line_starts_behind(before: Seq<char>, rest: Seq<char>)
    requires
        before.len() == 0 || before.last() == '\n',
    ensures
        line_start(before + rest, line_feeds(before)) == Some(before.len() as int),
    decreases before.len(),
{
    if before.len() > 0 {
        text::lemma_first_index(before, '\n');
        assert(before[before.len() - 1] == '\n');
        let i = text::first_index(before, '\n')->0;
        let all = before + rest;
        text::lemma_first_index_is(all, '\n', i);
        lemma_line_feeds_skip(before, i);
        let tail = before.skip(i + 1);
        if tail.len() > 0 {
            assert(tail.last() == before.last());
        }
        lemma_line_starts_behind(tail, rest);
        assert(all.skip(i + 1) =~= tail + rest);
    }
}

proof fn lemma_column_behind(front: Seq<char>, rest: Seq<char>, more: nat)
    requires
        forall|j: int| 0 <= j < front.len() ==> #[trigger] front[j] != '\n' && front[j] != '\r',
    ensures
        column(front + rest, text::utf16_units(front) + more) == match column(rest, more) {
            Ok(n) => Ok::<int, Fault>(front.len() + n),
            Err(fault) => Err::<int, Fault>(fault),
        },
    decreases front.len(),
{
    if front.len() == 0 {
        assert(front + rest =~= rest);
    } else {
        let tail = front.drop_first();
        lemma_units_front(front);
        assert forall|j: int| 0 <= j < tail.len() implies #[trigger] tail[j] != '\n' && tail[j]
            != '\r' by {
            assert(tail[j] == front[j + 1]);
        }
        lemma_column_behind(tail, rest, more);
        let all = front + rest;
        assert(all[0] == front[0]);
        assert(front[0] != '\n' && front[0] != '\r');
        assert(all.skip(1) =~= tail + rest);
    }
}

/// A position counts line feeds, and UTF-16 units from the last of them: it is the
/// place behind a text of that many line feeds and a piece of line of that many
/// units, whatever follows.
pub proof fn law_positions_count_lines_and_units(
    before: Seq<char>,
    front: Seq<char>,
    rest: Seq<char>,
)
    requires
        before.len() == 0 || before.last() == '\n',
        forall|j: int| 0 <= j < front.len() ==> #[trigger] front[j] != '\n' && front[j] != '\r',
    ensures
        place(before + front + rest, line_feeds(before), text::utf16_units(front)) == Ok::<
            int,
            Fault,
        >((before.len() + front.len()) as int),
{
    let all = before + front + rest;
    assert(all =~= before + (front + rest));
    lemma_line_starts_behind(before, front + rest);
    assert(all.skip(before.len() as int) =~= front + rest);
    lemma_column_behind(front, rest, 0);
}

/// A column beyond the end of its line has no place, and neither has one within a
/// character of two units.
pub proof fn law_columns_stay_on_their_line(
    before: Seq<char>,
    front: Seq<char>,
    rest: Seq<char>,
    more: nat,
)
    requires
        before.len() == 0 || before.last() == '\n',
        forall|j: int| 0 <= j < front.len() ==> #[trigger] front[j] != '\n' && front[j] != '\r',
        more > 0,
    ensures
        rest.len() == 0 || rest[0] == '\n' || rest[0] == '\r' ==> place(
            before + front + rest,
            line_feeds(before),
            text::utf16_units(front) + more,
        ) == Err::<int, Fault>(Fault::CharacterOutOfRange),
        rest.len() > 0 && rest[0] as u32 >= 0x10000 && more == 1 ==> place(
            before + front + rest,
            line_feeds(before),
            text::utf16_units(front) + more,
        ) == Err::<int, Fault>(Fault::SplitsSurrogatePair),
{
    let all = before + front + rest;
    assert(all =~= before + (front + rest));
    lemma_line_starts_behind(before, front + rest);
    assert(all.skip(before.len() as int) =~= front + rest);
    lemma_column_behind(front, rest, more);
}

/// A line beyond the last line feed has no place.
pub proof fn law_lines_stay_in_the_text(text: Seq<char>, line: nat, character: nat)
    requires
        line > line_feeds(text),
    ensures
        place(text, line, character) == Err::<int, Fault>(Fault::LineOutOfRange),
{
    lemma_line_beyond(text, line);
}

proof fn lemma_line_beyond(text: Seq<char>, line: nat)
    requires
        line > line_feeds(text),
    ensures
        line_start(text, line) is None,
    decreases line,
{
    text::lemma_first_index(text, '\n');
    match text::first_index(text, '\n') {
        Some(i) => {
            lemma_line_feeds_skip(text, i);
            lemma_line_beyond(text.skip(i + 1), (line - 1) as nat);
        },
        None => {
            lemma_no_line_feeds(text);
        },
    }
}

/// A JSON position is read by its line and its character, which must both be
/// numbers that are not negative; its place lies in the text.
pub proof fn law_position_in_text(text: Seq<char>, position: JsonView)
    ensures
        position_place(text, position) matches Ok(at) ==> 0 <= at <= text.len(),
        (position.field("line"@) matches JsonView::Int(line) && 0 <= line <= u64::MAX) && (
        position.field("character"@) matches JsonView::Int(character) && 0 <= character
            <= u64::MAX) ==> position_place(text, position) == place(
            text,
            position.field("line"@)->Int_0 as nat,
            position.field("character"@)->Int_0 as nat,
        ),
        !(position.field("line"@) is Int) ==> position_place(text, position) == Err::<int, Fault>(
            Fault::MissingLine,
        ),
        (position.field("line"@) matches JsonView::Int(line) && 0 <= line <= u64::MAX)
            && !(position.field("character"@) is Int) ==> position_place(text, position) == Err::<
            int,
            Fault,
        >(Fault::MissingCharacter),
{
    match position_place(text, position) {
        Ok(_) => {
            law_place_in_text(
                text,
                position.field("line"@)->Int_0 as nat,
                position.field("character"@)->Int_0 as nat,
            );
        },
        Err(_) => {},
    }
}

/// The text of a range is what stands between its places.
pub proof fn law_text_in_range(text: Seq<char>, start: JsonView, end: JsonView)
    ensures
        ({
            let from = position_place(text, start);
            let to = position_place(text, end);
            let part = text_in_range(text, start, end);
            &&& from is Ok && to is Ok && from->Ok_0 <= to->Ok_0 ==> part == Ok::<
                Option<Seq<char>>,
                Fault,
            >(Some(text.subrange(from->Ok_0, to->Ok_0)))
            &&& from is Ok && to is Ok && from->Ok_0 > to->Ok_0 ==> part == Ok::<
                Option<Seq<char>>,
                Fault,
            >(None)
            &&& from matches Err(fault) ==> part == Err::<Option<Seq<char>>, Fault>(fault)
            &&& from is Ok && to is Err ==> part == Err::<Option<Seq<char>>, Fault>(to->Err_0)
        }),
{
}

/// Every edit counts: where edits are made, each has its places and its new text,
/// in the order in which they came.
pub proof fn law_every_edit_counts(text: Seq<char>, edits: Seq<JsonView>)
    ensures
        (forall|i: int| 0 <= i < edits.len() ==> edit_at(text, #[trigger] edits[i]) is Ok)
            <==> edits_at(text, edits) is Ok,
        edits_at(text, edits) matches Ok(found) ==> found.len() == edits.len() && forall|i: int|
            0 <= i < edits.len() ==> {
                let range = (#[trigger] edits[i]).field("range"@);
                &&& position_place(text, range.field("start"@)) == Ok::<int, Fault>(found[i].start)
                &&& position_place(text, range.field("end"@)) == Ok::<int, Fault>(found[i].end)
                &&& edits[i].field("newText"@) == JsonView::Text(found[i].text)
            },
    decreases edits.len(),
{
    if edits.len() > 0 {
        let front = edits.drop_last();
        law_every_edit_counts(text, front);
        let last = edits[edits.len() - 1];
        assert(last == edits.last());
        if edits_at(text, edits) is Ok {
            assert forall|i: int| 0 <= i < edits.len() implies edit_at(
                text,
                #[trigger] edits[i],
            ) is Ok by {
                if i < front.len() {
                    assert(front[i] == edits[i]);
                }
            }
            let found = edits_at(text, edits)->Ok_0;
            assert forall|i: int| 0 <= i < edits.len() implies ({
                let range = (#[trigger] edits[i]).field("range"@);
                &&& position_place(text, range.field("start"@)) == Ok::<int, Fault>(found[i].start)
                &&& position_place(text, range.field("end"@)) == Ok::<int, Fault>(found[i].end)
                &&& edits[i].field("newText"@) == JsonView::Text(found[i].text)
            }) by {
                if i < front.len() {
                    assert(front[i] == edits[i]);
                }
            }
        } else if forall|i: int| 0 <= i < edits.len() ==> edit_at(text, #[trigger] edits[i]) is Ok {
            assert forall|i: int| 0 <= i < front.len() implies edit_at(
                text,
                #[trigger] front[i],
            ) is Ok by {
                assert(front[i] == edits[i]);
            }
            assert(edit_at(text, last) is Ok);
        }
    }
}

/// One edit replaces exactly what stands in its range.
pub proof fn law_one_edit_replaces_its_range(
    before: Seq<char>,
    part: Seq<char>,
    after: Seq<char>,
    edit: JsonView,
)
    requires
        position_place(before + part + after, edit.field("range"@).field("start"@)) == Ok::<
            int,
            Fault,
        >(before.len() as int),
        position_place(before + part + after, edit.field("range"@).field("end"@)) == Ok::<
            int,
            Fault,
        >((before + part).len() as int),
        edit.field("newText"@) is Text,
    ensures
        edited(before + part + after, seq![edit]) == Ok::<Seq<char>, Fault>(
            before + edit.field("newText"@)->Text_0 + after,
        ),
{
    let text = before + part + after;
    let new = edit.field("newText"@)->Text_0;
    let one = EditView { start: before.len() as int, end: (before + part).len() as int, text: new };
    assert(edit_at(text, edit) == Ok::<EditView, Fault>(one));
    let edits = seq![edit];
    assert(edits.drop_last() =~= Seq::<JsonView>::empty());
    assert(edits_at(text, edits.drop_last()) == Ok::<Seq<EditView>, Fault>(Seq::empty()));
    let found = Seq::<EditView>::empty().push(one);
    assert(edits_at(text, edits) == Ok::<Seq<EditView>, Fault>(found));
    assert(found.drop_last() =~= Seq::<EditView>::empty());
    assert(in_order(found.drop_last()) == Seq::<EditView>::empty());
    assert(in_order(found) =~= found);
    assert(disjoint(found));
    assert(found.skip(1) =~= Seq::<EditView>::empty());
    assert(spliced(text, found.skip(1), one.end) == text.skip(one.end));
    assert(spliced(text, found, 0) =~= before + new + after);
}

/// Edits are made exactly if all have places and, ordered by them, none runs
/// backwards or reaches into the next.
pub proof fn law_edits_are_made_unless_they_overlap(text: Seq<char>, edits: Seq<JsonView>)
    ensures
        edited(text, edits) is Ok <==> (edits_at(text, edits) matches Ok(found) && forall|i: int|
            0 <= i < found.len() ==> {
                &&& (#[trigger] in_order(found)[i]).start <= in_order(found)[i].end
                &&& i > 0 ==> in_order(found)[i - 1].end <= in_order(found)[i].start
            }),
        edits_at(text, edits) is Ok && !(edited(text, edits) is Ok) ==> edited(text, edits)
            == Err::<Seq<char>, Fault>(Fault::OverlappingEdits),
{
    match edits_at(text, edits) {
        Ok(found) => {
            law_in_order_sorts(found);
            assert(in_order(found).len() == found.len());
        },
        Err(_) => {},
    }
}

/// Edits that come in order stay as they come, also those at the same place.
pub proof fn law_ordered_edits_stay(edits: Seq<EditView>)
    requires
        forall|i: int, j: int|
            0 <= i < j < edits.len() ==> (#[trigger] edits[i]).start < (#[trigger] edits[j]).start
                || (edits[i].start == edits[j].start && edits[i].end <= edits[j].end),
    ensures
        in_order(edits) == edits,
    decreases edits.len(),
{
    if edits.len() == 0 {
        assert(in_order(edits) =~= edits);
    } else {
        let front = edits.drop_last();
        assert forall|i: int, j: int| 0 <= i < j < front.len() implies (#[trigger] front[i]).start
            < (#[trigger] front[j]).start || (front[i].start == front[j].start && front[i].end
            <= front[j].end) by {
            assert(edits[i] == front[i] && edits[j] == front[j]);
        }
        law_ordered_edits_stay(front);
        if front.len() > 0 {
            assert(edits[edits.len() - 2] == front.last());
            assert(edits[edits.len() - 1] == edits.last());
        }
        assert(front.push(edits.last()) =~= edits);
    }
}

/// A header line gives the length if its key is that of the length, in whatever case,
/// and its value a number; any other key leaves the length as it is.
pub proof fn law_length_headers_are_read(key: Seq<char>, value: Seq<char>, length: Option<nat>)
    requires
        !key.contains(':'),
    ensures
        ({
            let line = encode_utf8(key + seq![':'] + value);
            let own = text::lowered(key) == text::lowered("Content-Length"@);
            &&& !own ==> header_length(line, length) == Ok::<Option<nat>, FailureView>(length)
            &&& own ==> match text::parsed_number(text::trimmed(value)) {
                Some(n) => n <= usize::MAX ==> header_length(line, length) == Ok::<
                    Option<nat>,
                    FailureView,
                >(Some(n)),
                None => header_length(line, length) matches Err(failure) && failure.fault
                    == Fault::InvalidLength,
            }
        }),
{
    let words = key + seq![':'] + value;
    vstd::utf8::encode_utf8_valid_utf8(words);
    vstd::utf8::encode_utf8_decode_utf8(words);
    assert forall|j: int| 0 <= j < key.len() implies words[j] != ':' by {
        assert(words[j] == key[j]);
        assert(key.contains(key[j]));
    }
    text::lemma_first_index_is(words, ':', key.len() as int);
    assert(words.take(key.len() as int) =~= key);
    assert(words.skip(key.len() as int + 1) =~= value);
}

/// A body is read once all of its bytes are there, if it is at most 32 MiB long and
/// JSON.
pub proof fn law_bodies_are_read_whole(bytes: Seq<u8>, at: int, length: nat, ended: bool)
    requires
        0 <= at <= bytes.len(),
    ensures
        body_reading(bytes, at, None, ended) == ReadingView::Failed(
            FailureView::plain(Fault::MissingLength),
        ),
        length > 32 * 1024 * 1024 ==> body_reading(bytes, at, Some(length), ended)
            == ReadingView::Failed(FailureView::plain(Fault::MessageTooLarge)),
        length <= 32 * 1024 * 1024 && at + length > bytes.len() ==> body_reading(
            bytes,
            at,
            Some(length),
            ended,
        ) == if ended {
            ReadingView::Failed(FailureView::plain(Fault::MessageCutShort))
        } else {
            ReadingView::More
        },
        length <= 32 * 1024 * 1024 && at + length <= bytes.len() ==> match json_outcome(
            bytes.subrange(at, at + length),
        ) {
            Ok(value) => body_reading(bytes, at, Some(length), ended) == (ReadingView::Message {
                value,
                length: at + length,
            }),
            Err(words) => body_reading(bytes, at, Some(length), ended) == ReadingView::Failed(
                FailureView { fault: Fault::InvalidJson, detail: words },
            ),
        },
{
}

} // verus!
