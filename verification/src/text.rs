//! Characters, their encoded widths, and the small text operations that the
//! rest of the library is written with.

use vstd::prelude::*;
use vstd::utf8::*;

verus! {

/// `String::push` appends one character.
pub assume_specification[ std::string::String::push ](buffer: &mut std::string::String, ch: char)
    ensures
        final(buffer)@ == old(buffer)@.push(ch),
;

/// `core::str::from_utf8`: the bytes as text, exactly when they are valid
/// UTF-8.
#[verifier::external_body]
fn text_from_utf8(bytes: &[u8]) -> (text: Option<String>)
    ensures
        text is Some <==> valid_utf8(bytes@),
        text matches Some(t) ==> encode_utf8(t@) == bytes@,
{
    core::str::from_utf8(bytes).ok().map(|text| text.to_owned())
}

/// The text that a run of bytes encodes, if it is valid UTF-8.
pub fn decode(bytes: &[u8]) -> (text: Option<String>)
    ensures
        text is Some <==> valid_utf8(bytes@),
        text matches Some(t) ==> encode_utf8(t@) == bytes@ && t@ == decode_utf8(bytes@),
{
    proof {
        broadcast use encode_utf8_decode_utf8;
    }
    text_from_utf8(bytes)
}

// ---------------------------------------------------------------------------
// Encoded widths
// ---------------------------------------------------------------------------
/// How many UTF-16 code units a character takes.
pub open spec fn utf16_width(ch: char) -> nat {
    if (ch as u32) >= 0x10000 {
        2
    } else {
        1
    }
}

/// How many UTF-16 code units a text takes.
pub open spec fn utf16_units(text: Seq<char>) -> nat
    decreases text.len(),
{
    if text.len() == 0 {
        0
    } else {
        utf16_units(text.drop_last()) + utf16_width(text.last())
    }
}

/// How many bytes a text takes.
pub open spec fn byte_len(text: Seq<char>) -> nat {
    encode_utf8(text).len()
}

pub proof fn lemma_encode_concat(a: Seq<char>, b: Seq<char>)
    ensures
        encode_utf8(a + b) == encode_utf8(a) + encode_utf8(b),
        byte_len(a + b) == byte_len(a) + byte_len(b),
    decreases a.len(),
{
    if a.len() == 0 {
        assert(a + b =~= b);
        assert(encode_utf8(a) + encode_utf8(b) =~= encode_utf8(b));
    } else {
        lemma_encode_concat(a.drop_first(), b);
        assert((a + b).drop_first() =~= a.drop_first() + b);
        assert(encode_utf8(a + b) =~= encode_utf8(a) + encode_utf8(b));
    }
}

pub proof fn lemma_encode_injective(a: Seq<char>, b: Seq<char>)
    requires
        encode_utf8(a) == encode_utf8(b),
    ensures
        a == b,
{
    broadcast use encode_utf8_decode_utf8;

    assert(decode_utf8(encode_utf8(a)) == a);
    assert(decode_utf8(encode_utf8(b)) == b);
}

/// The width of one character in bytes is at least its width in UTF-16 units,
/// which is at least one.
pub proof fn lemma_char_widths(ch: char)
    ensures
        1 <= utf16_width(ch) <= encode_scalar(ch as u32).len() <= 4,
        byte_len(seq![ch]) == encode_scalar(ch as u32).len(),
{
    char_is_scalar(ch);
    let s = seq![ch];
    assert(s.drop_first() =~= Seq::<char>::empty());
    reveal_with_fuel(encode_utf8, 2);
    assert(encode_utf8(s) =~= encode_scalar(ch as u32));
}

pub proof fn lemma_units_push(text: Seq<char>, ch: char)
    ensures
        utf16_units(text.push(ch)) == utf16_units(text) + utf16_width(ch),
        byte_len(text.push(ch)) == byte_len(text) + encode_scalar(ch as u32).len(),
{
    assert(text.push(ch).drop_last() =~= text);
    assert(text.push(ch) =~= text + seq![ch]);
    lemma_encode_concat(text, seq![ch]);
    lemma_char_widths(ch);
}

/// A text has at most as many characters as UTF-16 units, and at most as many
/// of those as bytes.
pub proof fn lemma_units_bound(text: Seq<char>)
    ensures
        text.len() <= utf16_units(text) <= byte_len(text),
    decreases text.len(),
{
    if text.len() > 0 {
        lemma_units_bound(text.drop_last());
        lemma_units_push(text.drop_last(), text.last());
        lemma_char_widths(text.last());
        assert(text.drop_last().push(text.last()) =~= text);
    }
}

/// A prefix takes no more bytes and no more units than the whole.
pub proof fn lemma_prefix_widths(text: Seq<char>, n: int)
    requires
        0 <= n <= text.len(),
    ensures
        byte_len(text.take(n)) + byte_len(text.skip(n)) == byte_len(text),
        byte_len(text.take(n)) <= byte_len(text),
        n < text.len() ==> byte_len(text.take(n)) < byte_len(text),
{
    assert(text.take(n) + text.skip(n) =~= text);
    lemma_encode_concat(text.take(n), text.skip(n));
    if n < text.len() {
        lemma_units_bound(text.skip(n));
    }
}

/// `char::len_utf16`, the width of a character in UTF-16 code units.
pub fn char_units(ch: char) -> (n: usize)
    ensures
        n == utf16_width(ch),
{
    if (ch as u32) >= 0x10000 {
        2
    } else {
        1
    }
}

/// The width of a character in bytes.
pub fn char_bytes(ch: char) -> (n: usize)
    ensures
        n == encode_scalar(ch as u32).len(),
{
    proof {
        char_is_scalar(ch);
    }
    let code: u32 = ch as u32;
    if code <= 0x7f {
        1
    } else if code <= 0x7ff {
        2
    } else if code <= 0xffff {
        3
    } else {
        4
    }
}

// ---------------------------------------------------------------------------
// Between texts and character lists
// ---------------------------------------------------------------------------
/// The characters of a text.
pub fn chars_of(text: &str) -> (chars: Vec<char>)
    ensures
        chars@ == text@,
{
    let mut chars: Vec<char> = Vec::new();
    for ch in it: text.chars()
        invariant
            it.seq() == text@,
            chars@ == text@.take(it.index() as int),
    {
        proof {
            assert(text@.take(it.index() as int + 1) =~= text@.take(it.index() as int).push(
                text@[it.index() as int],
            ));
        }
        chars.push(ch);
    }
    proof {
        assert(text@.take(text@.len() as int) =~= text@);
    }
    chars
}

/// The text made of some of the characters of a list.
pub fn text_between(chars: &Vec<char>, from: usize, to: usize) -> (text: String)
    requires
        from <= to <= chars@.len(),
    ensures
        text@ == chars@.subrange(from as int, to as int),
{
    let mut text = String::new();
    let mut i: usize = from;
    while i < to
        invariant
            from <= i <= to <= chars@.len(),
            text@ == chars@.subrange(from as int, i as int),
        decreases to - i,
    {
        text.push(chars[i]);
        proof {
            assert(chars@.subrange(from as int, i + 1) =~= chars@.subrange(
                from as int,
                i as int,
            ).push(chars@[i as int]));
        }
        i = i + 1;
    }
    text
}

/// Whether two texts are the same.
pub fn same(a: &str, b: &str) -> (r: bool)
    ensures
        r == (a@ == b@),
{
    let x = a.as_bytes();
    let y = b.as_bytes();
    if x.len() != y.len() {
        return false;
    }
    let mut i: usize = 0;
    while i < x.len()
        invariant
            x@ == encode_utf8(a@),
            y@ == encode_utf8(b@),
            x@.len() == y@.len(),
            i <= x@.len(),
            forall|j: int| 0 <= j < i ==> x@[j] == y@[j],
        decreases x@.len() - i,
    {
        if x[i] != y[i] {
            return false;
        }
        i = i + 1;
    }
    proof {
        assert(x@ =~= y@);
        lemma_encode_injective(a@, b@);
    }
    true
}

/// Whether an optional text is present and the same as another.
pub fn same_option(a: &Option<String>, b: &Option<String>) -> (r: bool)
    ensures
        r == (option_view(*a) == option_view(*b)),
{
    match (a, b) {
        (Some(x), Some(y)) => same(x.as_str(), y.as_str()),
        (None, None) => true,
        _ => false,
    }
}

/// The model of an optional text.
pub open spec fn option_view(text: Option<String>) -> Option<Seq<char>> {
    match text {
        Some(t) => Some(t@),
        None => None,
    }
}

/// A copy of an optional text.
pub fn copy_option(text: &Option<String>) -> (r: Option<String>)
    ensures
        option_view(r) == option_view(*text),
{
    match text {
        Some(t) => Some(t.as_str().to_owned()),
        None => None,
    }
}

/// The models of a list of texts.
pub open spec fn texts_view(texts: Seq<String>) -> Seq<Seq<char>> {
    texts.map_values(|t: String| t@)
}

/// Two texts, one after the other.
pub fn joined(a: &str, b: &str) -> (r: String)
    ensures
        r@ == a@ + b@,
{
    let mut text = a.to_owned();
    text.append(b);
    text
}

// ---------------------------------------------------------------------------
// Order
// ---------------------------------------------------------------------------
/// The order of texts: by the first character in which they differ, a prefix
/// before anything longer.
pub open spec fn comes_before(a: Seq<char>, b: Seq<char>) -> bool
    decreases a.len(),
{
    if b.len() == 0 {
        false
    } else if a.len() == 0 {
        true
    } else if a[0] != b[0] {
        a[0] < b[0]
    } else {
        comes_before(a.drop_first(), b.drop_first())
    }
}

/// Whether texts stand in order, none twice.
pub open spec fn in_text_order(texts: Seq<Seq<char>>) -> bool {
    forall|i: int, j: int|
        0 <= i < j < texts.len() ==> comes_before(#[trigger] texts[i], #[trigger] texts[j])
}

pub proof fn lemma_order_irreflexive(a: Seq<char>)
    ensures
        !comes_before(a, a),
    decreases a.len(),
{
    if a.len() > 0 {
        lemma_order_irreflexive(a.drop_first());
    }
}

pub proof fn lemma_order_transitive(a: Seq<char>, b: Seq<char>, c: Seq<char>)
    requires
        comes_before(a, b),
        comes_before(b, c),
    ensures
        comes_before(a, c),
    decreases a.len(),
{
    if a.len() > 0 && a[0] == b[0] && b[0] == c[0] {
        lemma_order_transitive(a.drop_first(), b.drop_first(), c.drop_first());
    }
}

pub proof fn lemma_order_total(a: Seq<char>, b: Seq<char>)
    ensures
        comes_before(a, b) || comes_before(b, a) || a == b,
    decreases a.len(),
{
    if a.len() > 0 && b.len() > 0 && a[0] == b[0] {
        lemma_order_total(a.drop_first(), b.drop_first());
        if a.drop_first() == b.drop_first() {
            assert(a =~= seq![a[0]] + a.drop_first());
            assert(b =~= seq![b[0]] + b.drop_first());
        }
    } else if a.len() == 0 && b.len() == 0 {
        assert(a =~= b);
    }
}

/// Whether one text comes before another.
pub fn before(a: &str, b: &str) -> (r: bool)
    ensures
        r == comes_before(a@, b@),
{
    let x = chars_of(a);
    let y = chars_of(b);
    proof {
        assert(a@.skip(0) =~= a@);
        assert(b@.skip(0) =~= b@);
    }
    let mut i: usize = 0;
    while i < x.len() && i < y.len() && x[i] == y[i]
        invariant
            x@ == a@,
            y@ == b@,
            i <= x@.len(),
            i <= y@.len(),
            comes_before(a@, b@) == comes_before(a@.skip(i as int), b@.skip(i as int)),
        decreases x@.len() - i,
    {
        proof {
            assert(a@.skip(i as int).drop_first() =~= a@.skip(i + 1));
            assert(b@.skip(i as int).drop_first() =~= b@.skip(i + 1));
        }
        i = i + 1;
    }
    if i >= y.len() {
        false
    } else if i >= x.len() {
        true
    } else {
        x[i] < y[i]
    }
}

// ---------------------------------------------------------------------------
// Blanks
// ---------------------------------------------------------------------------
/// The characters with the Unicode `White_Space` property.
pub open spec fn is_blank(ch: char) -> bool {
    ||| '\u{9}' <= ch <= '\u{d}'
    ||| ch == '\u{20}'
    ||| ch == '\u{85}'
    ||| ch == '\u{a0}'
    ||| ch == '\u{1680}'
    ||| '\u{2000}' <= ch <= '\u{200a}'
    ||| ch == '\u{2028}'
    ||| ch == '\u{2029}'
    ||| ch == '\u{202f}'
    ||| ch == '\u{205f}'
    ||| ch == '\u{3000}'
}

/// A text without the blanks at its start.
pub open spec fn trim_start(text: Seq<char>) -> Seq<char>
    decreases text.len(),
{
    if text.len() > 0 && is_blank(text[0]) {
        trim_start(text.drop_first())
    } else {
        text
    }
}

/// A text without the blanks at its end.
pub open spec fn trim_end(text: Seq<char>) -> Seq<char>
    decreases text.len(),
{
    if text.len() > 0 && is_blank(text.last()) {
        trim_end(text.drop_last())
    } else {
        text
    }
}

/// A text without the blanks at either end.
pub open spec fn trimmed(text: Seq<char>) -> Seq<char> {
    trim_end(trim_start(text))
}

/// Whether a character is a blank.
pub fn blank(ch: char) -> (r: bool)
    ensures
        r == is_blank(ch),
{
    ('\u{9}' <= ch && ch <= '\u{d}') || ch == '\u{20}' || ch == '\u{85}' || ch == '\u{a0}' || ch
        == '\u{1680}' || ('\u{2000}' <= ch && ch <= '\u{200a}') || ch == '\u{2028}' || ch
        == '\u{2029}' || ch == '\u{202f}' || ch == '\u{205f}' || ch == '\u{3000}'
}

/// A text without the blanks at either end.
pub fn trim(text: &str) -> (r: String)
    ensures
        r@ == trimmed(text@),
{
    let chars = chars_of(text);
    let mut from: usize = 0;
    proof {
        assert(text@.skip(0) =~= text@);
    }
    while from < chars.len() && blank(chars[from])
        invariant
            chars@ == text@,
            from <= chars@.len(),
            trim_start(text@) == trim_start(text@.skip(from as int)),
        decreases chars@.len() - from,
    {
        proof {
            assert(text@.skip(from as int).drop_first() =~= text@.skip(from + 1));
        }
        from = from + 1;
    }
    proof {
        assert(trim_start(text@) == text@.skip(from as int));
        assert(text@.subrange(from as int, text@.len() as int) =~= text@.skip(from as int));
    }
    let mut to: usize = chars.len();
    while to > from && blank(chars[to - 1])
        invariant
            chars@ == text@,
            from <= to <= chars@.len(),
            trimmed(text@) == trim_end(text@.subrange(from as int, to as int)),
        decreases to,
    {
        proof {
            assert(text@.subrange(from as int, to as int).drop_last() =~= text@.subrange(
                from as int,
                to - 1,
            ));
        }
        to = to - 1;
    }
    text_between(&chars, from, to)
}

/// Whether a text has nothing but blanks.
pub fn is_all_blank(text: &str) -> (r: bool)
    ensures
        r == (trimmed(text@).len() == 0),
{
    let rest = trim(text);
    rest.as_str().is_empty()
}

// ---------------------------------------------------------------------------
// Parts of a text
// ---------------------------------------------------------------------------
/// Whether a text starts with another.
pub open spec fn has_prefix(text: Seq<char>, prefix: Seq<char>) -> bool {
    prefix.len() <= text.len() && text.take(prefix.len() as int) == prefix
}

/// Whether a text holds another as a run of its characters.
pub open spec fn holds_run(text: Seq<char>, run: Seq<char>) -> bool {
    exists|i: int|
        0 <= i <= text.len() - run.len() && #[trigger] text.subrange(i, i + run.len()) == run
}

/// Whether the characters from a place on start with the given ones.
fn matches_at(chars: &Vec<char>, from: usize, run: &Vec<char>) -> (r: bool)
    requires
        from <= chars@.len(),
    ensures
        r == (from + run@.len() <= chars@.len() && chars@.subrange(
            from as int,
            from + run@.len(),
        ) == run@),
{
    let total: usize = chars.len();
    if run.len() > total - from {
        return false;
    }
    let mut i: usize = 0;
    while i < run.len()
        invariant
            total == chars@.len(),
            from + run@.len() <= total,
            i <= run@.len(),
            forall|j: int| 0 <= j < i ==> chars@[from + j] == run@[j],
        decreases run@.len() - i,
    {
        if chars[from + i] != run[i] {
            proof {
                assert(chars@.subrange(from as int, from + run@.len())[i as int] != run@[i as int]);
            }
            return false;
        }
        i = i + 1;
    }
    proof {
        assert(chars@.subrange(from as int, from + run@.len()) =~= run@);
    }
    true
}

/// Whether a text starts with another.
pub fn starts_with(text: &str, prefix: &str) -> (r: bool)
    ensures
        r == has_prefix(text@, prefix@),
{
    let chars = chars_of(text);
    let run = chars_of(prefix);
    proof {
        if prefix@.len() <= text@.len() {
            assert(text@.subrange(0, prefix@.len() as int) =~= text@.take(prefix@.len() as int));
        }
    }
    matches_at(&chars, 0, &run)
}

/// What follows a prefix, if the text starts with it.
pub fn strip_prefix(text: &str, prefix: &str) -> (r: Option<String>)
    ensures
        r is Some <==> has_prefix(text@, prefix@),
        r matches Some(rest) ==> rest@ == text@.skip(prefix@.len() as int),
{
    if starts_with(text, prefix) {
        let chars = chars_of(text);
        let run = chars_of(prefix);
        proof {
            assert(text@.subrange(prefix@.len() as int, text@.len() as int) =~= text@.skip(
                prefix@.len() as int,
            ));
        }
        Some(text_between(&chars, run.len(), chars.len()))
    } else {
        None
    }
}

/// Whether a text holds another as a run of its characters.
pub fn contains(text: &str, run: &str) -> (r: bool)
    ensures
        r == holds_run(text@, run@),
{
    let chars = chars_of(text);
    let wanted = chars_of(run);
    if wanted.len() > chars.len() {
        return false;
    }
    let last: usize = chars.len() - wanted.len();
    let mut i: usize = 0;
    while i <= last
        invariant
            chars@ == text@,
            wanted@ == run@,
            last == chars@.len() - wanted@.len(),
            i <= last + 1,
            forall|j: int| 0 <= j < i ==> #[trigger] text@.subrange(j, j + run@.len()) != run@,
        decreases last + 1 - i,
    {
        if matches_at(&chars, i, &wanted) {
            return true;
        }
        if i == last {
            return false;
        }
        i = i + 1;
    }
    false
}

/// A character, in lower case if it is an ASCII letter.
pub open spec fn lower(ch: char) -> char {
    if 'A' <= ch <= 'Z' {
        (ch as u8 + 32) as char
    } else {
        ch
    }
}

/// A text with its ASCII letters in lower case.
pub open spec fn lowered(text: Seq<char>) -> Seq<char> {
    text.map_values(|ch: char| lower(ch))
}

/// A character, in lower case if it is an ASCII letter.
pub fn lower_char(ch: char) -> (r: char)
    ensures
        r == lower(ch),
{
    if 'A' <= ch && ch <= 'Z' {
        (ch as u8 + 32) as char
    } else {
        ch
    }
}

/// Whether two texts are the same but for the case of ASCII letters.
pub fn same_ignoring_case(a: &str, b: &str) -> (r: bool)
    ensures
        r == (lowered(a@) == lowered(b@)),
{
    let x = chars_of(a);
    let y = chars_of(b);
    if x.len() != y.len() {
        proof {
            assert(lowered(a@).len() != lowered(b@).len());
        }
        return false;
    }
    let mut i: usize = 0;
    while i < x.len()
        invariant
            x@ == a@,
            y@ == b@,
            x@.len() == y@.len(),
            i <= x@.len(),
            forall|j: int| 0 <= j < i ==> lower(#[trigger] x@[j]) == lower(y@[j]),
        decreases x@.len() - i,
    {
        if lower_char(x[i]) != lower_char(y[i]) {
            proof {
                assert(lowered(a@)[i as int] != lowered(b@)[i as int]);
            }
            return false;
        }
        i = i + 1;
    }
    proof {
        assert(lowered(a@) =~= lowered(b@));
    }
    true
}

/// The place of the first `ch` in a text.
pub open spec fn first_index(text: Seq<char>, ch: char) -> Option<int>
    decreases text.len(),
{
    if text.len() == 0 {
        None
    } else if text[0] == ch {
        Some(0)
    } else {
        match first_index(text.drop_first(), ch) {
            Some(i) => Some(i + 1),
            None => None,
        }
    }
}

/// What [`first_index`] finds is the first one.
pub proof fn lemma_first_index(text: Seq<char>, ch: char)
    ensures
        match first_index(text, ch) {
            Some(i) => 0 <= i < text.len() && text[i] == ch && forall|j: int|
                0 <= j < i ==> text[j] != ch,
            None => forall|j: int| 0 <= j < text.len() ==> text[j] != ch,
        },
    decreases text.len(),
{
    if text.len() > 0 && text[0] != ch {
        lemma_first_index(text.drop_first(), ch);
        assert forall|j: int| 0 < j < text.len() implies text[j] == text.drop_first()[j - 1] by {}
        match first_index(text.drop_first(), ch) {
            Some(i) => {
                assert(text.drop_first()[i] == text[i + 1]);
            },
            None => {
                assert forall|j: int| 0 <= j < text.len() implies text[j] != ch by {
                    if j > 0 {
                        assert(text.drop_first()[j - 1] == text[j]);
                    }
                }
            },
        }
    }
}

/// A first `ch` at a place is what [`first_index`] finds.
pub proof fn lemma_first_index_is(text: Seq<char>, ch: char, i: int)
    requires
        0 <= i < text.len(),
        text[i] == ch,
        forall|j: int| 0 <= j < i ==> text[j] != ch,
    ensures
        first_index(text, ch) == Some(i),
{
    lemma_first_index(text, ch);
    match first_index(text, ch) {
        Some(k) => {
            if k < i {
                assert(text[k] != ch);
            } else if i < k {
                assert(text[i] != ch);
            }
        },
        None => {
            assert(text[i] != ch);
        },
    }
}

/// The place of the first `ch` from a place on, in a list of characters.
pub fn find_from(chars: &Vec<char>, from: usize, ch: char) -> (r: Option<usize>)
    requires
        from <= chars@.len(),
    ensures
        match r {
            Some(i) => first_index(chars@.skip(from as int), ch) == Some(i - from) && from <= i
                < chars@.len(),
            None => first_index(chars@.skip(from as int), ch) is None,
        },
{
    let mut i: usize = from;
    while i < chars.len()
        invariant
            from <= i <= chars@.len(),
            forall|j: int| from <= j < i ==> chars@[j] != ch,
        decreases chars@.len() - i,
    {
        if chars[i] == ch {
            proof {
                lemma_first_index_is(chars@.skip(from as int), ch, i - from);
            }
            return Some(i);
        }
        i = i + 1;
    }
    proof {
        lemma_first_index(chars@.skip(from as int), ch);
    }
    None
}

/// A text without the carriage return that it may end with.
pub open spec fn without_return(text: Seq<char>) -> Seq<char> {
    if text.len() > 0 && text.last() == '\r' {
        text.drop_last()
    } else {
        text
    }
}

/// The lines of a text, without what ends them.
pub open spec fn lines_of(text: Seq<char>) -> Seq<Seq<char>>
    decreases text.len(),
    via lines_progress
{
    if text.len() == 0 {
        Seq::empty()
    } else {
        match first_index(text, '\n') {
            Some(i) => seq![without_return(text.take(i))] + lines_of(text.skip(i + 1)),
            None => seq![text],
        }
    }
}

#[via_fn]
proof fn lines_progress(text: Seq<char>) {
    lemma_first_index(text, '\n');
}

/// The lines of a text, without what ends them.
pub fn lines(text: &str) -> (r: Vec<String>)
    ensures
        texts_view(r@) == lines_of(text@),
{
    let chars = chars_of(text);
    let total: usize = chars.len();
    let mut out: Vec<String> = Vec::new();
    let mut from: usize = 0;
    proof {
        assert(text@.skip(0) =~= text@);
        assert(texts_view(out@) + lines_of(text@) =~= lines_of(text@));
    }
    while from < total
        invariant
            chars@ == text@,
            total == chars@.len(),
            from <= total,
            texts_view(out@) + lines_of(text@.skip(from as int)) == lines_of(text@),
        decreases total - from,
    {
        let ghost before = texts_view(out@);
        let ghost rest = text@.skip(from as int);
        match find_from(&chars, from, '\n') {
            Some(i) => {
                let end: usize = if i > from && chars[i - 1] == '\r' {
                    i - 1
                } else {
                    i
                };
                let line = text_between(&chars, from, end);
                proof {
                    let whole = rest.take(i - from);
                    assert(whole =~= text@.subrange(from as int, i as int));
                    if whole.len() > 0 {
                        assert(whole.last() == text@[i - 1]);
                        assert(whole.drop_last() =~= text@.subrange(from as int, i - 1));
                    }
                    assert(line@ == without_return(whole));
                    assert(rest.skip(i - from + 1) =~= text@.skip(i + 1));
                }
                let ghost made = line@;
                out.push(line);
                proof {
                    assert(texts_view(out@) =~= before.push(made));
                    assert(texts_view(out@) + lines_of(text@.skip(i + 1)) =~= before + lines_of(
                        rest,
                    ));
                }
                from = i + 1;
            },
            None => {
                let line = text_between(&chars, from, total);
                proof {
                    assert(line@ =~= rest);
                }
                out.push(line);
                proof {
                    assert(texts_view(out@) =~= before + seq![rest]);
                }
                return out;
            },
        }
    }
    proof {
        assert(text@.skip(from as int) =~= Seq::<char>::empty());
        assert(texts_view(out@) + Seq::<Seq<char>>::empty() =~= texts_view(out@));
    }
    out
}

/// A text with every `from` replaced by `to`.
pub fn replace_char(text: &str, from: char, to: char) -> (r: String)
    ensures
        r@ == text@.map_values(
            |c: char|
                if c == from {
                    to
                } else {
                    c
                },
        ),
{
    let chars = chars_of(text);
    let mut r = String::new();
    let mut i: usize = 0;
    while i < chars.len()
        invariant
            chars@ == text@,
            i <= chars@.len(),
            r@.len() == i,
            forall|j: int|
                0 <= j < i ==> #[trigger] r@[j] == (if text@[j] == from {
                    to
                } else {
                    text@[j]
                }),
        decreases chars@.len() - i,
    {
        if chars[i] == from {
            r.push(to);
        } else {
            r.push(chars[i]);
        }
        i = i + 1;
    }
    proof {
        assert(r@ =~= text@.map_values(
            |c: char|
                if c == from {
                    to
                } else {
                    c
                },
        ));
    }
    r
}

/// Texts put together with a separator between them.
pub open spec fn join_with(parts: Seq<Seq<char>>, separator: Seq<char>) -> Seq<char>
    decreases parts.len(),
{
    if parts.len() == 0 {
        Seq::empty()
    } else if parts.len() == 1 {
        parts[0]
    } else {
        join_with(parts.drop_last(), separator) + separator + parts.last()
    }
}

/// Texts put together with a separator between them.
pub fn join(parts: &Vec<String>, separator: &str) -> (r: String)
    ensures
        r@ == join_with(texts_view(parts@), separator@),
{
    let mut r = String::new();
    let mut i: usize = 0;
    let ghost all = texts_view(parts@);
    while i < parts.len()
        invariant
            all == texts_view(parts@),
            i <= parts@.len(),
            r@ == join_with(all.take(i as int), separator@),
        decreases parts@.len() - i,
    {
        proof {
            assert(all.take(i + 1).drop_last() =~= all.take(i as int));
            assert(all.take(i + 1).last() == parts@[i as int]@);
            if i == 0 {
                assert(r@ + parts@[0]@ =~= parts@[0]@);
            }
        }
        if i > 0 {
            r.append(separator);
        }
        r.append(parts[i].as_str());
        i = i + 1;
    }
    proof {
        assert(all.take(parts@.len() as int) =~= all);
    }
    r
}

// ---------------------------------------------------------------------------
// Numbers in decimal
// ---------------------------------------------------------------------------
/// The character of a decimal digit.
pub open spec fn digit_char(digit: nat) -> char {
    (48 + digit) as char
}

/// A number written in decimal.
pub open spec fn decimal(n: nat) -> Seq<char>
    decreases n,
{
    if n < 10 {
        seq![digit_char(n)]
    } else {
        decimal(n / 10).push(digit_char(n % 10))
    }
}

/// Whether a character is a decimal digit.
pub open spec fn is_digit(ch: char) -> bool {
    '0' <= ch <= '9'
}

/// The number that a run of decimal digits writes.
pub open spec fn digits_value(digits: Seq<char>) -> nat
    decreases digits.len(),
{
    if digits.len() == 0 {
        0
    } else {
        digits_value(digits.drop_last()) * 10 + (digits.last() as nat - 48) as nat
    }
}

/// A text without the plus sign that it may start with.
pub open spec fn unsigned_part(text: Seq<char>) -> Seq<char> {
    if text.len() > 0 && text[0] == '+' {
        text.drop_first()
    } else {
        text
    }
}

/// The number that a text writes: decimal digits, at least one, after at most
/// one plus sign.
pub open spec fn parsed_number(text: Seq<char>) -> Option<nat> {
    let digits = unsigned_part(text);
    if digits.len() > 0 && forall|i: int| 0 <= i < digits.len() ==> is_digit(#[trigger] digits[i]) {
        Some(digits_value(digits))
    } else {
        None
    }
}

/// Reading back a number written in decimal gives the number.
pub proof fn lemma_decimal_parses(n: nat)
    ensures
        parsed_number(decimal(n)) == Some(n),
        forall|i: int| 0 <= i < decimal(n).len() ==> is_digit(#[trigger] decimal(n)[i]),
        decimal(n).len() > 0,
        digits_value(decimal(n)) == n,
    decreases n,
{
    if n < 10 {
        let d = decimal(n);
        assert(d.drop_last() =~= Seq::<char>::empty());
        reveal_with_fuel(digits_value, 2);
        assert(is_digit(d[0]));
    } else {
        lemma_decimal_parses(n / 10);
        let d = decimal(n);
        assert(d.drop_last() =~= decimal(n / 10));
        assert forall|i: int| 0 <= i < d.len() implies is_digit(#[trigger] d[i]) by {
            if i < d.len() - 1 {
                assert(d[i] == decimal(n / 10)[i]);
            }
        }
        assert(n == (n / 10) * 10 + n % 10);
    }
    assert(is_digit(decimal(n)[0]));
    assert(decimal(n)[0] != '+');
}

/// A number written in decimal.
pub fn decimal_text(n: u64) -> (text: String)
    ensures
        text@ == decimal(n as nat),
    decreases n,
{
    if n < 10 {
        let mut text = String::new();
        let digit: char = (48u8 + n as u8) as char;
        text.push(digit);
        proof {
            assert(text@ =~= seq![digit_char(n as nat)]);
        }
        text
    } else {
        let mut text = decimal_text(n / 10);
        let digit: char = (48u8 + (n % 10) as u8) as char;
        text.push(digit);
        text
    }
}

/// The number that a text writes, if it is one and at most `limit`.
pub fn parse_number(text: &str, limit: u64) -> (r: Option<u64>)
    ensures
        match r {
            Some(n) => parsed_number(text@) == Some(n as nat) && n <= limit,
            None => parsed_number(text@) is None || parsed_number(text@)->0 > limit,
        },
{
    let chars = chars_of(text);
    let start: usize = if chars.len() > 0 && chars[0] == '+' {
        1
    } else {
        0
    };
    let ghost digits = chars@.skip(start as int);
    proof {
        assert(text@.skip(0) =~= text@);
        assert(text@.len() > 0 ==> text@.skip(1) =~= text@.drop_first());
    }
    if start >= chars.len() {
        return None;
    }
    let mut value: u64 = 0;
    let mut over: bool = false;
    let mut i: usize = start;
    while i < chars.len()
        invariant
            start <= i <= chars@.len(),
            digits == chars@.skip(start as int),
            digits == unsigned_part(text@),
            digits.len() > 0,
            forall|j: int| 0 <= j < i - start ==> is_digit(#[trigger] digits[j]),
            !over ==> value == digits_value(digits.take(i - start)) && value <= limit,
            over ==> digits_value(digits.take(i - start)) > limit,
        decreases chars@.len() - i,
    {
        let ch = chars[i];
        if ch < '0' || ch > '9' {
            proof {
                assert(!is_digit(digits[i - start]));
            }
            return None;
        }
        let digit: u64 = ch as u64 - 48;
        proof {
            assert(digits.take(i - start + 1).drop_last() =~= digits.take(i - start));
            assert(digits[i - start] == ch);
        }
        if !over {
            if value > limit / 10 || (value == limit / 10 && digit > limit % 10) {
                over = true;
            } else {
                value = value * 10 + digit;
            }
        }
        i = i + 1;
    }
    proof {
        assert(digits.take(digits.len() as int) =~= digits);
    }
    if over {
        None
    } else {
        Some(value)
    }
}

/// Trimming takes away blanks at the ends and nothing else: what is left is a run of
/// the text that starts and ends with no blank, and all before and behind it is blank.
pub proof fn law_trimming_takes_blanks_only(text: Seq<char>)
    ensures
        exists|from: int, to: int|
            0 <= from <= to <= text.len() && #[trigger] text.subrange(from, to) == trimmed(text)
                && (forall|i: int|
                0 <= i < from || to <= i < text.len() ==> is_blank(#[trigger] text[i])),
        trimmed(text).len() > 0 ==> !is_blank(trimmed(text)[0]) && !is_blank(trimmed(text).last()),
        (forall|i: int| 0 <= i < text.len() ==> is_blank(#[trigger] text[i])) ==> trimmed(text).len()
            == 0,
        (exists|i: int| 0 <= i < text.len() && !is_blank(#[trigger] text[i])) ==> trimmed(text).len()
            > 0,
{
    let start = trim_start(text);
    let from = text.len() - start.len();
    lemma_trim_start_is(text);
    lemma_trim_end_is(start);
    let to = from + trimmed(text).len();
    assert(text.subrange(from, to) =~= trimmed(text)) by {
        assert(start =~= text.skip(from));
    }
    assert forall|i: int| 0 <= i < from || to <= i < text.len() implies is_blank(
        #[trigger] text[i],
    ) by {
        if i >= to {
            assert(start[i - from] == text[i]);
        }
    }
    if trimmed(text).len() > 0 {
        assert(trimmed(text)[0] == start[0]);
    }
    if forall|i: int| 0 <= i < text.len() ==> is_blank(#[trigger] text[i]) {
        if trimmed(text).len() > 0 {
            assert(trimmed(text)[0] == text[from]);
        }
    }
    if exists|i: int| 0 <= i < text.len() && !is_blank(#[trigger] text[i]) {
        let i = choose|i: int| 0 <= i < text.len() && !is_blank(#[trigger] text[i]);
        assert(from <= i < to);
    }
}

proof fn lemma_trim_start_is(text: Seq<char>)
    ensures
        trim_start(text).len() <= text.len(),
        trim_start(text) == text.skip(text.len() - trim_start(text).len()),
        forall|i: int|
            0 <= i < text.len() - trim_start(text).len() ==> is_blank(#[trigger] text[i]),
        trim_start(text).len() > 0 ==> !is_blank(trim_start(text)[0]),
    decreases text.len(),
{
    if text.len() > 0 && is_blank(text[0]) {
        let rest = text.drop_first();
        lemma_trim_start_is(rest);
        let n = rest.len() - trim_start(rest).len();
        assert(rest.skip(n) =~= text.skip(n + 1));
        assert forall|i: int| 0 <= i < n + 1 implies is_blank(#[trigger] text[i]) by {
            if i > 0 {
                assert(rest[i - 1] == text[i]);
            }
        }
    } else {
        assert(text.skip(0) =~= text);
    }
}

proof fn lemma_trim_end_is(text: Seq<char>)
    ensures
        trim_end(text).len() <= text.len(),
        trim_end(text) == text.take(trim_end(text).len() as int),
        forall|i: int| trim_end(text).len() <= i < text.len() ==> is_blank(#[trigger] text[i]),
        trim_end(text).len() > 0 ==> !is_blank(trim_end(text).last()),
    decreases text.len(),
{
    if text.len() > 0 && is_blank(text.last()) {
        let rest = text.drop_last();
        lemma_trim_end_is(rest);
        let n = trim_end(rest).len() as int;
        assert(rest.take(n) =~= text.take(n));
        assert forall|i: int| n <= i < text.len() implies is_blank(#[trigger] text[i]) by {
            if i < rest.len() {
                assert(rest[i] == text[i]);
            }
        }
    } else {
        assert(text.take(text.len() as int) =~= text);
    }
}

/// The lines of texts that end in line feeds are the lines of the one and then those
/// of the other; a line is what stands before its line feed, without a carriage
/// return at its end.
pub proof fn law_lines_end_at_line_feeds(line: Seq<char>, rest: Seq<char>)
    requires
        forall|i: int| 0 <= i < line.len() ==> line[i] != '\n',
    ensures
        lines_of(Seq::empty()) == Seq::<Seq<char>>::empty(),
        line.len() > 0 ==> lines_of(line) == seq![line],
        lines_of(line + seq!['\n'] + rest) == seq![
            if line.len() > 0 && line.last() == '\r' {
                line.drop_last()
            } else {
                line
            },
        ] + lines_of(rest),
{
    let all = line + seq!['\n'] + rest;
    lemma_first_index_is(all, '\n', line.len() as int);
    assert(all.take(line.len() as int) =~= line);
    assert(all.skip(line.len() as int + 1) =~= rest);
    lemma_first_index(line, '\n');
}

/// Joined texts stand one after the other, with the separator between them.
pub proof fn law_joined_texts(parts: Seq<Seq<char>>, more: Seq<char>, separator: Seq<char>)
    ensures
        join_with(Seq::empty(), separator) == Seq::<char>::empty(),
        join_with(seq![more], separator) == more,
        parts.len() > 0 ==> join_with(parts.push(more), separator) == join_with(parts, separator)
            + separator + more,
{
    assert(parts.push(more).drop_last() =~= parts);
}

/// A text in lower case differs in its ASCII letters only.
pub proof fn law_lower_case(text: Seq<char>, i: int)
    requires
        0 <= i < text.len(),
    ensures
        lowered(text).len() == text.len(),
        'A' <= text[i] <= 'Z' ==> lowered(text)[i] as u32 == text[i] as u32 + 32,
        !('A' <= text[i] <= 'Z') ==> lowered(text)[i] == text[i],
{
}

/// A text is a number if it is decimal digits, with at most one plus sign before them;
/// a further digit is worth one and makes the others worth ten times as much.
pub proof fn law_numbers_are_decimal(digits: Seq<char>, more: char)
    requires
        digits.len() > 0,
        forall|i: int| 0 <= i < digits.len() ==> '0' <= #[trigger] digits[i] <= '9',
        '0' <= more <= '9',
    ensures
        parsed_number(digits) is Some,
        parsed_number(digits.push(more)) == Some(
            parsed_number(digits)->0 * 10 + (more as nat - 48) as nat,
        ),
        parsed_number(seq!['+'] + digits) == parsed_number(digits),
        parsed_number(seq![more]) == Some((more as nat - 48) as nat),
        parsed_number(Seq::empty()) is None,
        parsed_number(digits + seq!['x']) is None,
{
    assert(is_digit(digits[0]));
    let longer = digits.push(more);
    assert(longer.drop_last() =~= digits);
    assert(longer[0] == digits[0]);
    assert forall|i: int| 0 <= i < longer.len() implies is_digit(#[trigger] longer[i]) by {
        if i < digits.len() {
            assert(longer[i] == digits[i]);
        }
    }
    assert((seq!['+'] + digits).drop_first() =~= digits);
    let one = seq![more];
    assert(one.drop_last() =~= Seq::<char>::empty());
    assert(is_digit(one[0]));
    reveal_with_fuel(digits_value, 2);
    let wrong = digits + seq!['x'];
    assert(wrong[0] == digits[0]);
    assert(wrong[digits.len() as int] == 'x');
    assert(!is_digit(wrong[digits.len() as int]));
}

} // verus!
