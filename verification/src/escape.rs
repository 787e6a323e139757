//! Paths as texts, also where their bytes are none. A byte that belongs to no
//! character is written as a null character and two hexadecimal digits; so is
//! the null byte, which no path of a file holds.

use crate::text;
use vstd::prelude::*;
use vstd::utf8::*;

verus! {

/// Whether bytes are a text without the null character.
pub open spec fn is_plain_text(bytes: Seq<u8>) -> bool {
    valid_utf8(bytes) && !decode_utf8(bytes).contains('\0')
}

/// How many bytes the first character takes; none if there is none.
pub open spec fn first_width(bytes: Seq<u8>) -> Option<int> {
    if bytes.len() >= 1 && is_plain_text(bytes.take(1)) {
        Some(1)
    } else if bytes.len() >= 2 && is_plain_text(bytes.take(2)) {
        Some(2)
    } else if bytes.len() >= 3 && is_plain_text(bytes.take(3)) {
        Some(3)
    } else if bytes.len() >= 4 && is_plain_text(bytes.take(4)) {
        Some(4)
    } else {
        None
    }
}

/// A hexadecimal digit.
pub open spec fn hex_digit(n: nat) -> char {
    if n < 10 {
        (48 + n) as char
    } else {
        (55 + n) as char
    }
}

/// The number that a hexadecimal digit stands for.
pub open spec fn hex_value(ch: char) -> Option<nat> {
    if '0' <= ch <= '9' {
        Some((ch as nat - 48) as nat)
    } else if 'A' <= ch <= 'F' {
        Some((ch as nat - 55) as nat)
    } else {
        None
    }
}

/// A byte that belongs to no character.
pub open spec fn mark(byte: u8) -> Seq<char> {
    seq!['\0', hex_digit(byte as nat / 16), hex_digit(byte as nat % 16)]
}

/// The text of a path.
pub open spec fn path_text(bytes: Seq<u8>) -> Seq<char>
    decreases bytes.len(),
{
    if bytes.len() == 0 {
        Seq::empty()
    } else {
        match first_width(bytes) {
            Some(n) => decode_utf8(bytes.take(n)) + path_text(bytes.skip(n)),
            None => mark(bytes[0]) + path_text(bytes.skip(1)),
        }
    }
}

/// The byte that a text starts with a mark of, if it does.
pub open spec fn marked_byte(text: Seq<char>) -> Option<u8> {
    if text.len() >= 3 && text[0] == '\0' {
        match (hex_value(text[1]), hex_value(text[2])) {
            (Some(high), Some(low)) => Some((high * 16 + low) as u8),
            _ => None,
        }
    } else {
        None
    }
}

/// The bytes of a path.
pub open spec fn path_bytes(text: Seq<char>) -> Seq<u8>
    decreases text.len(),
{
    if text.len() == 0 {
        Seq::empty()
    } else {
        match marked_byte(text) {
            Some(byte) => seq![byte] + path_bytes(text.skip(3)),
            None => encode_utf8(text.take(1)) + path_bytes(text.skip(1)),
        }
    }
}

proof fn lemma_hex(byte: u8)
    ensures
        hex_value(hex_digit(byte as nat / 16)) == Some(byte as nat / 16),
        hex_value(hex_digit(byte as nat % 16)) == Some(byte as nat % 16),
        byte as nat / 16 * 16 + byte as nat % 16 == byte as nat,
{
}

proof fn lemma_encode_front(text: Seq<char>)
    requires
        text.len() > 0,
    ensures
        encode_utf8(text) == encode_utf8(text.take(1)) + encode_utf8(text.skip(1)),
{
    let first = text.take(1);
    assert(first.drop_first() =~= Seq::<char>::empty());
    assert(text.drop_first() =~= text.skip(1));
    assert(encode_utf8(first.drop_first()) =~= Seq::<u8>::empty());
    assert(encode_utf8(first) =~= encode_scalar(text[0] as u32));
}

/// Characters keep their bytes.
proof fn lemma_plain_front(plain: Seq<char>, rest: Seq<char>)
    requires
        !plain.contains('\0'),
    ensures
        path_bytes(plain + rest) == encode_utf8(plain) + path_bytes(rest),
    decreases plain.len(),
{
    if plain.len() == 0 {
        assert(plain + rest =~= rest);
        assert(encode_utf8(plain) + path_bytes(rest) =~= path_bytes(rest));
    } else {
        let all = plain + rest;
        assert(plain.contains(plain[0]));
        assert(all[0] == plain[0]);
        assert(marked_byte(all) is None);
        let tail = plain.skip(1);
        assert(!tail.contains('\0')) by {
            if tail.contains('\0') {
                let i = choose|i: int| 0 <= i < tail.len() && tail[i] == '\0';
                assert(plain[i + 1] == '\0');
            }
        }
        lemma_plain_front(tail, rest);
        assert(all.skip(1) =~= tail + rest);
        assert(all.take(1) =~= plain.take(1));
        lemma_encode_front(plain);
        assert(path_bytes(all) =~= encode_utf8(plain) + path_bytes(rest));
    }
}

/// The text of a path gives its bytes back, whatever they are.
pub proof fn law_paths_keep_their_bytes(bytes: Seq<u8>)
    ensures
        path_bytes(path_text(bytes)) == bytes,
    decreases bytes.len(),
{
    if bytes.len() > 0 {
        match first_width(bytes) {
            Some(n) => {
                let front = bytes.take(n);
                let rest = bytes.skip(n);
                law_paths_keep_their_bytes(rest);
                lemma_plain_front(decode_utf8(front), path_text(rest));
                decode_utf8_encode_utf8(front);
                assert(front + rest =~= bytes);
            },
            None => {
                let rest = bytes.skip(1);
                law_paths_keep_their_bytes(rest);
                lemma_hex(bytes[0]);
                let all = mark(bytes[0]) + path_text(rest);
                assert(all[0] == '\0');
                assert(all[1] == hex_digit(bytes[0] as nat / 16));
                assert(all[2] == hex_digit(bytes[0] as nat % 16));
                assert(marked_byte(all) == Some(bytes[0]));
                assert(all.skip(3) =~= path_text(rest));
                assert(seq![bytes[0]] + rest =~= bytes);
            },
        }
    }
}

/// A text without the null character is the text of its own bytes.
pub proof fn law_plain_paths_are_texts(text: Seq<char>)
    requires
        !text.contains('\0'),
    ensures
        path_text(encode_utf8(text)) == text,
        path_bytes(text) == encode_utf8(text),
    decreases text.len(),
{
    assert(text + Seq::<char>::empty() =~= text);
    lemma_plain_front(text, Seq::empty());
    assert(encode_utf8(text) + path_bytes(Seq::<char>::empty()) =~= encode_utf8(text));
    if text.len() > 0 {
        let bytes = encode_utf8(text);
        let first = text.take(1);
        let tail = text.skip(1);
        assert(text.contains(text[0]));
        assert(!tail.contains('\0')) by {
            if tail.contains('\0') {
                let i = choose|i: int| 0 <= i < tail.len() && tail[i] == '\0';
                assert(text[i + 1] == '\0');
            }
        }
        law_plain_paths_are_texts(tail);
        lemma_encode_front(text);
        lemma_first_width(text);
        let n = first_width(bytes)->0;
        assert(bytes.take(n) =~= encode_utf8(first));
        assert(bytes.skip(n) =~= encode_utf8(tail));
        encode_utf8_decode_utf8(first);
        assert(first + tail =~= text);
    } else {
        assert(encode_utf8(text) =~= Seq::<u8>::empty());
        assert(path_text(encode_utf8(text)) =~= text);
    }
}

/// The first character of a text is found by its bytes.
proof fn lemma_first_width(text: Seq<char>)
    requires
        text.len() > 0,
        text[0] != '\0',
    ensures
        first_width(encode_utf8(text)) == Some(encode_utf8(text.take(1)).len() as int),
{
    let bytes = encode_utf8(text);
    let first = text.take(1);
    let front = encode_utf8(first);
    let n = front.len() as int;
    lemma_encode_front(text);
    encode_utf8_valid_utf8(first);
    encode_utf8_decode_utf8(first);
    encode_utf8_first_scalar(first);
    assert(first.drop_first() =~= Seq::<char>::empty());
    assert(front =~= encode_scalar(text[0] as u32)) by {
        assert(encode_utf8(first.drop_first()) =~= Seq::<u8>::empty());
    }
    assert(bytes.take(n) =~= front);
    assert(!first.contains('\0')) by {
        if first.contains('\0') {
            let i = choose|i: int| 0 <= i < first.len() && first[i] == '\0';
            assert(i == 0);
        }
    }
    assert(is_plain_text(bytes.take(n)));
    char_is_scalar(text[0]);
    assert(1 <= n <= 4);
    assert(n == length_of_first_scalar(front)) by {
        assert(front.len() > 0);
    }
    assert forall|k: int| 1 <= k < n implies !valid_utf8(#[trigger] bytes.take(k)) by {
        assert(bytes.take(k)[0] == front[0]);
        assert(bytes.take(k).len() == k);
    }
}

/// The text that bytes are, if it holds no null character.
fn plain_text(bytes: &[u8]) -> (r: Option<String>)
    ensures
        r is Some <==> is_plain_text(bytes@),
        r matches Some(text) ==> text@ == decode_utf8(bytes@) && encode_utf8(text@) == bytes@
            && !text@.contains('\0'),
{
    let words = match text::decode(bytes) {
        Some(words) => words,
        None => {
            return None;
        },
    };
    let chars = text::chars_of(words.as_str());
    proof {
        assert(chars@.skip(0) =~= chars@);
        text::lemma_first_index(chars@, '\0');
    }
    match text::find_from(&chars, 0, '\0') {
        Some(i) => {
            proof {
                assert(words@[i as int] == '\0');
            }
            None
        },
        None => {
            proof {
                if words@.contains('\0') {
                    let i = choose|i: int| 0 <= i < words@.len() && words@[i] == '\0';
                    assert(chars@[i] != '\0');
                }
            }
            Some(words)
        },
    }
}

/// The first character, with how many bytes it takes.
fn first_char(bytes: &[u8]) -> (r: Option<(String, usize)>)
    ensures
        match r {
            Some((text, n)) => first_width(bytes@) == Some(n as int) && n <= bytes@.len()
                && text@ == decode_utf8(bytes@.take(n as int)),
            None => first_width(bytes@) is None,
        },
{
    let mut n: usize = 1;
    while n <= 4 && n <= bytes.len()
        invariant
            1 <= n <= 5,
            n <= bytes@.len() + 1,
            forall|k: int| 1 <= k < n ==> !is_plain_text(#[trigger] bytes@.take(k)),
        decreases 5 - n,
    {
        proof {
            assert(bytes@.subrange(0, n as int) =~= bytes@.take(n as int));
        }
        match plain_text(vstd::slice::slice_subrange(bytes, 0, n)) {
            Some(text) => {
                return Some((text, n));
            },
            None => {},
        }
        n = n + 1;
    }
    None
}

fn hex_char(n: u8) -> (r: char)
    requires
        n < 16,
    ensures
        r == hex_digit(n as nat),
{
    if n < 10 {
        (48u8 + n) as char
    } else {
        (55u8 + n) as char
    }
}

/// The text of a path.
pub fn text_of_path(bytes: &[u8]) -> (r: String)
    ensures
        r@ == path_text(bytes@),
{
    match plain_text(bytes) {
        Some(text) => {
            proof {
                law_plain_paths_are_texts(text@);
            }
            return text;
        },
        None => {},
    }
    let mut out = String::new();
    let total: usize = bytes.len();
    let mut at: usize = 0;
    proof {
        assert(bytes@.skip(0) =~= bytes@);
        assert(out@ + path_text(bytes@) =~= path_text(bytes@));
    }
    while at < total
        invariant
            total == bytes@.len(),
            at <= total,
            out@ + path_text(bytes@.skip(at as int)) == path_text(bytes@),
        decreases total - at,
    {
        let rest = vstd::slice::slice_subrange(bytes, at, total);
        let ghost before = out@;
        proof {
            assert(rest@ =~= bytes@.skip(at as int));
        }
        match first_char(rest) {
            Some((text, n)) => {
                out.append(text.as_str());
                proof {
                    assert(rest@.skip(n as int) =~= bytes@.skip(at + n));
                    assert(out@ + path_text(rest@.skip(n as int)) =~= before + path_text(rest@));
                }
                at = at + n;
            },
            None => {
                let byte: u8 = bytes[at];
                out.push('\0');
                out.push(hex_char(byte / 16));
                out.push(hex_char(byte % 16));
                proof {
                    assert(rest@[0] == byte);
                    assert(rest@.skip(1) =~= bytes@.skip(at + 1));
                    assert(out@ =~= before + mark(byte));
                    assert(out@ + path_text(rest@.skip(1)) =~= before + path_text(rest@));
                }
                at = at + 1;
            },
        }
    }
    proof {
        assert(bytes@.skip(at as int) =~= Seq::<u8>::empty());
        assert(out@ + path_text(bytes@.skip(at as int)) =~= out@);
    }
    out
}

fn hex_number(ch: char) -> (r: Option<u8>)
    ensures
        match r {
            Some(n) => hex_value(ch) == Some(n as nat) && n < 16,
            None => hex_value(ch) is None,
        },
{
    if '0' <= ch && ch <= '9' {
        Some((ch as u32 - 48) as u8)
    } else if 'A' <= ch && ch <= 'F' {
        Some((ch as u32 - 55) as u8)
    } else {
        None
    }
}

/// The byte that stands marked at a place, if one does.
fn read_mark(chars: &Vec<char>, at: usize) -> (r: Option<u8>)
    requires
        at <= chars@.len(),
    ensures
        r == marked_byte(chars@.skip(at as int)),
{
    let ghost rest = chars@.skip(at as int);
    if chars.len() - at < 3 || chars[at] != '\0' {
        return None;
    }
    proof {
        assert(rest[1] == chars@[at + 1]);
        assert(rest[2] == chars@[at + 2]);
    }
    match (hex_number(chars[at + 1]), hex_number(chars[at + 2])) {
        (Some(high), Some(low)) => Some(high * 16 + low),
        _ => None,
    }
}

/// The bytes of a path.
pub fn bytes_of_path(path: &str) -> (r: Vec<u8>)
    ensures
        r@ == path_bytes(path@),
{
    let chars = text::chars_of(path);
    let mut out: Vec<u8> = Vec::new();
    let mut at: usize = 0;
    proof {
        assert(chars@.skip(0) =~= chars@);
        assert(out@ + path_bytes(chars@) =~= path_bytes(chars@));
    }
    while at < chars.len()
        invariant
            chars@ == path@,
            at <= chars@.len(),
            out@ + path_bytes(chars@.skip(at as int)) == path_bytes(path@),
        decreases chars@.len() - at,
    {
        let ghost rest = chars@.skip(at as int);
        let ghost before = out@;
        match read_mark(&chars, at) {
            Some(byte) => {
                out.push(byte);
                proof {
                    assert(rest.skip(3) =~= chars@.skip(at + 3));
                    assert(out@ + path_bytes(rest.skip(3)) =~= before + path_bytes(rest));
                }
                at = at + 3;
            },
            None => {
                let one = text::text_between(&chars, at, at + 1);
                out.extend_from_slice(one.as_str().as_bytes());
                proof {
                    assert(one@ =~= rest.take(1));
                    assert(rest.skip(1) =~= chars@.skip(at + 1));
                    assert(out@ =~= before + encode_utf8(one@));
                    assert(out@ + path_bytes(rest.skip(1)) =~= before + path_bytes(rest));
                }
                at = at + 1;
            },
        }
    }
    proof {
        assert(chars@.skip(at as int) =~= Seq::<char>::empty());
        assert(out@ + path_bytes(chars@.skip(at as int)) =~= out@);
    }
    out
}

/// Bytes as text, with marks in place of what is none.
pub uninterp spec fn lossy_text(bytes: Seq<u8>) -> Seq<char>;

/// `String::from_utf8_lossy`: the text that the bytes are, if they are one, else
/// one with replacement characters, which depends on the bytes alone.
#[verifier::external_body]
pub(crate) fn text_from_utf8_lossy(bytes: &[u8]) -> (r: String)
    ensures
        r@ == lossy_text(bytes@),
        valid_utf8(bytes@) ==> r@ == decode_utf8(bytes@),
{
    String::from_utf8_lossy(bytes).into_owned()
}

/// A path as it is shown.
pub open spec fn shown(path: Seq<char>) -> Seq<char> {
    if path.contains('\0') {
        lossy_text(path_bytes(path))
    } else {
        path
    }
}

/// A path as it is shown: with replacement characters where it is no text.
pub fn show(path: &str) -> (r: String)
    ensures
        r@ == shown(path@),
{
    let bytes = path.as_bytes();
    match plain_text(bytes) {
        Some(_) => {
            proof {
                encode_utf8_decode_utf8(path@);
            }
            path.to_owned()
        },
        None => {
            proof {
                encode_utf8_valid_utf8(path@);
                encode_utf8_decode_utf8(path@);
            }
            text_from_utf8_lossy(bytes_of_path(path).as_slice())
        },
    }
}

} // verus!
