//! Paths of a Unix file system, as texts. What stands in a text for bytes that
//! are none, [`crate::escape`] tells.

use crate::text;
use vstd::prelude::*;

verus! {

/// Where the piece that starts at a place ends: at the next slash, or at the
/// end.
pub open spec fn piece_end(path: Seq<char>, at: int) -> int
    decreases path.len() - at,
{
    if at >= path.len() || path[at] == '/' {
        at
    } else {
        piece_end(path, at + 1)
    }
}

/// Whether a piece counts: it is not empty, and not a dot unless the path
/// starts with it.
pub open spec fn counts(path: Seq<char>, at: int, end: int) -> bool {
    at < end && !(at > 0 && path.subrange(at, end) == "."@)
}

/// Where the components from a place on stand.
pub open spec fn spans_from(path: Seq<char>, at: int) -> Seq<(int, int)>
    decreases path.len() - at,
    when 0 <= at <= path.len()
    via piece_end_progress
{
    let end = piece_end(path, at);
    let here = if counts(path, at, end) {
        seq![(at, end)]
    } else {
        Seq::empty()
    };
    if end >= path.len() {
        here
    } else {
        here + spans_from(path, end + 1)
    }
}

#[via_fn]
proof fn piece_end_progress(path: Seq<char>, at: int) {
    lemma_piece_end(path, at);
}

proof fn lemma_piece_end(path: Seq<char>, at: int)
    requires
        0 <= at <= path.len(),
    ensures
        at <= piece_end(path, at) <= path.len(),
    decreases path.len() - at,
{
    if at < path.len() && path[at] != '/' {
        lemma_piece_end(path, at + 1);
    }
}

/// Whether a path starts at the root.
pub open spec fn is_rooted(path: Seq<char>) -> bool {
    path.len() > 0 && path[0] == '/'
}

/// Where the components of a path stand, the root among them.
pub open spec fn spans(path: Seq<char>) -> Seq<(int, int)> {
    if is_rooted(path) {
        seq![(0int, 1int)] + spans_from(path, 0)
    } else {
        spans_from(path, 0)
    }
}

/// The components of a path: the root as a slash, then the names. Repeated
/// slashes and dots within a path do not count.
pub open spec fn components(path: Seq<char>) -> Seq<Seq<char>> {
    spans(path).map_values(|span: (int, int)| path.subrange(span.0, span.1))
}

/// Whether a component is a name, not the root, a dot or two dots.
pub open spec fn is_name(component: Seq<char>) -> bool {
    component != "/"@ && component != "."@ && component != ".."@
}

/// The last component, if it is a name.
pub open spec fn file_name_of(path: Seq<char>) -> Option<Seq<char>> {
    let all = components(path);
    if all.len() > 0 && is_name(all.last()) {
        Some(all.last())
    } else {
        None
    }
}

/// The place of the last `ch` in a text.
pub open spec fn last_index(text: Seq<char>, ch: char) -> Option<int>
    decreases text.len(),
{
    if text.len() == 0 {
        None
    } else if text.last() == ch {
        Some(text.len() - 1)
    } else {
        last_index(text.drop_last(), ch)
    }
}

/// What follows the last dot of a file name, unless that dot starts it.
pub open spec fn extension_of(path: Seq<char>) -> Option<Seq<char>> {
    match file_name_of(path) {
        Some(name) => match last_index(name, '.') {
            Some(dot) => if dot > 0 {
                Some(name.skip(dot + 1))
            } else {
                None
            },
            None => None,
        },
        None => None,
    }
}

/// The path without its last component, if that is not the root.
pub open spec fn parent_of(path: Seq<char>) -> Option<Seq<char>> {
    let all = spans(path);
    if all.len() == 0 || components(path).last() == "/"@ {
        None
    } else if all.len() == 1 {
        Some(Seq::empty())
    } else {
        Some(path.take(all[all.len() - 2].1))
    }
}

/// Whether the components of a path start with those of another.
pub open spec fn lies_in(path: Seq<char>, base: Seq<char>) -> bool {
    let inner = components(path);
    let outer = components(base);
    outer.len() <= inner.len() && inner.take(outer.len() as int) == outer
}

/// What follows the components of `base` in a path that lies in it.
pub open spec fn relative_to(path: Seq<char>, base: Seq<char>) -> Option<Seq<char>> {
    let all = spans(path);
    let n = components(base).len();
    if !lies_in(path, base) {
        None
    } else if n == all.len() {
        Some(Seq::empty())
    } else {
        Some(path.subrange(all[n as int].0, all.last().1))
    }
}

/// A path seen from a directory.
pub open spec fn joined_to(base: Seq<char>, path: Seq<char>) -> Seq<char> {
    if is_rooted(path) {
        path
    } else if base.len() == 0 || base.last() == '/' {
        base + path
    } else {
        base.push('/') + path
    }
}

/// A path and the directories above it, nearest first.
pub open spec fn ancestors_of(path: Seq<char>) -> Seq<Seq<char>>
    decreases path.len(),
    via parent_is_shorter
{
    match parent_of(path) {
        Some(above) => seq![path] + ancestors_of(above),
        None => seq![path],
    }
}

#[via_fn]
proof fn parent_is_shorter(path: Seq<char>) {
    lemma_parent(path);
}

/// The components stand in the path, one after the other.
proof fn lemma_spans_from(path: Seq<char>, at: int)
    requires
        0 <= at <= path.len(),
    ensures
        forall|i: int|
            0 <= i < spans_from(path, at).len() ==> {
                let span = #[trigger] spans_from(path, at)[i];
                at <= span.0 < span.1 <= path.len() && counts(path, span.0, span.1)
                    && forall|k: int| span.0 <= k < span.1 ==> path[k] != '/'
            },
        forall|i: int, j: int|
            0 <= i < j < spans_from(path, at).len() ==> (#[trigger] spans_from(path, at)[i]).1 < (
            #[trigger] spans_from(path, at)[j]).0,
    decreases path.len() - at,
{
    lemma_piece_end(path, at);
    lemma_no_slash(path, at);
    let end = piece_end(path, at);
    if end < path.len() {
        lemma_spans_from(path, end + 1);
        let rest = spans_from(path, end + 1);
        let all = spans_from(path, at);
        if counts(path, at, end) {
            assert(all =~= seq![(at, end)] + rest);
            assert forall|i: int| 0 <= i < all.len() implies {
                let span = #[trigger] all[i];
                at <= span.0 < span.1 <= path.len() && counts(path, span.0, span.1)
                    && forall|k: int| span.0 <= k < span.1 ==> path[k] != '/'
            } by {
                if i > 0 {
                    assert(all[i] == rest[i - 1]);
                }
            }
            assert forall|i: int, j: int| 0 <= i < j < all.len() implies (#[trigger] all[i]).1 < (
            #[trigger] all[j]).0 by {
                assert(all[j] == rest[j - 1]);
                if i > 0 {
                    assert(all[i] == rest[i - 1]);
                }
            }
        } else {
            assert(all =~= rest);
        }
    }
}

proof fn lemma_no_slash(path: Seq<char>, at: int)
    requires
        0 <= at <= path.len(),
    ensures
        forall|k: int| at <= k < piece_end(path, at) ==> path[k] != '/',
        piece_end(path, at) < path.len() ==> path[piece_end(path, at)] == '/',
    decreases path.len() - at,
{
    if at < path.len() && path[at] != '/' {
        lemma_no_slash(path, at + 1);
    }
}

proof fn lemma_spans(path: Seq<char>)
    ensures
        forall|i: int|
            0 <= i < spans(path).len() ==> {
                let span = #[trigger] spans(path)[i];
                0 <= span.0 < span.1 <= path.len()
            },
        forall|i: int, j: int|
            0 <= i < j < spans(path).len() ==> (#[trigger] spans(path)[i]).1 <= (
            #[trigger] spans(path)[j]).0,
{
    lemma_spans_from(path, 0);
    if is_rooted(path) {
        let rest = spans_from(path, 0);
        let all = spans(path);
        assert forall|i: int| 0 <= i < all.len() implies {
            let span = #[trigger] all[i];
            0 <= span.0 < span.1 <= path.len()
        } by {
            if i > 0 {
                assert(all[i] == rest[i - 1]);
            }
        }
        assert forall|i: int, j: int| 0 <= i < j < all.len() implies (#[trigger] all[i]).1 <= (
        #[trigger] all[j]).0 by {
            assert(all[j] == rest[j - 1]);
            if i > 0 {
                assert(all[i] == rest[i - 1]);
            } else {
                if rest[j - 1].0 == 0 {
                    assert(path[0] != '/');
                }
            }
        }
    }
}

/// A directory above a path is shorter than the path.
proof fn lemma_parent(path: Seq<char>)
    ensures
        parent_of(path) matches Some(above) ==> above.len() < path.len(),
{
    lemma_spans(path);
    let all = spans(path);
    if all.len() > 0 {
        assert(all.last().0 < all.last().1);
        if all.len() > 1 {
            assert(all[all.len() - 2].1 <= all[all.len() - 1].0);
        }
    }
}

/// The components of a path, by place.
fn find_spans(chars: &Vec<char>) -> (r: Vec<(usize, usize)>)
    ensures
        r@.len() == spans(chars@).len(),
        forall|i: int|
            0 <= i < r@.len() ==> (#[trigger] r@[i]).0 as int == spans(chars@)[i].0
                && r@[i].1 as int == spans(chars@)[i].1,
        forall|i: int| 0 <= i < r@.len() ==> (#[trigger] r@[i]).0 < r@[i].1 <= chars@.len(),
{
    let total: usize = chars.len();
    let mut out: Vec<(usize, usize)> = Vec::new();
    if total > 0 && chars[0] == '/' {
        out.push((0, 1));
    }
    let ghost view = |s: (usize, usize)| (s.0 as int, s.1 as int);
    let mut at: usize = 0;
    proof {
        assert(out@.map_values(view) + spans_from(chars@, 0) =~= spans(chars@));
        reveal_strlit(".");
        assert("."@ =~= seq!['.']);
    }
    loop
        invariant_except_break
            out@.map_values(view) + spans_from(chars@, at as int) == spans(chars@),
        invariant
            total == chars@.len(),
            at <= total,
            view == (|s: (usize, usize)| (s.0 as int, s.1 as int)),
            "."@ == seq!['.'],
        ensures
            out@.map_values(view) == spans(chars@),
        decreases total - at,
    {
        let mut end: usize = at;
        while end < total && chars[end] != '/'
            invariant
                total == chars@.len(),
                at <= end <= total,
                piece_end(chars@, at as int) == piece_end(chars@, end as int),
            decreases total - end,
        {
            end = end + 1;
        }
        let ghost before = out@.map_values(view);
        let dot: bool = end - at == 1 && chars[at] == '.';
        proof {
            let piece = chars@.subrange(at as int, end as int);
            if dot {
                assert(piece =~= seq!['.']);
            } else {
                if piece == seq!['.'] {
                    assert(piece.len() == 1);
                    assert(seq!['.'][0] == '.');
                    assert(piece[0] == chars@[at as int]);
                }
            }
            assert(counts(chars@, at as int, end as int) == (at < end && !(at > 0 && dot)));
        }
        if at < end && !(at > 0 && dot) {
            out.push((at, end));
            proof {
                assert(out@.map_values(view) =~= before.push((at as int, end as int)));
            }
        }
        proof {
            if end >= total {
                assert(out@.map_values(view) =~= before + spans_from(chars@, at as int));
            } else {
                assert(out@.map_values(view) + spans_from(chars@, end + 1) =~= before
                    + spans_from(chars@, at as int));
            }
        }
        if end >= total {
            break;
        }
        at = end + 1;
    }
    proof {
        lemma_spans(chars@);
        assert forall|i: int| 0 <= i < out@.len() implies (#[trigger] out@[i]).0 as int
            == spans(chars@)[i].0 && out@[i].1 as int == spans(chars@)[i].1 by {
            assert(out@.map_values(view)[i] == view(out@[i]));
        }
    }
    out
}

/// The components of a path.
pub fn components_list(path: &str) -> (r: Vec<String>)
    ensures
        text::texts_view(r@) == components(path@),
{
    let chars = text::chars_of(path);
    let places = find_spans(&chars);
    let mut out: Vec<String> = Vec::new();
    let mut i: usize = 0;
    while i < places.len()
        invariant
            chars@ == path@,
            places@.len() == spans(path@).len(),
            forall|j: int|
                0 <= j < places@.len() ==> (#[trigger] places@[j]).0 as int == spans(path@)[j].0
                    && places@[j].1 as int == spans(path@)[j].1,
            forall|j: int|
                0 <= j < places@.len() ==> (#[trigger] places@[j]).0 < places@[j].1 <= chars@.len(),
            i <= places@.len(),
            out@.len() == i,
            forall|j: int| 0 <= j < i ==> #[trigger] out@[j]@ == components(path@)[j],
        decreases places@.len() - i,
    {
        out.push(text::text_between(&chars, places[i].0, places[i].1));
        i = i + 1;
    }
    proof {
        assert(text::texts_view(out@) =~= components(path@));
    }
    out
}

/// Whether a path starts at the root.
pub fn is_absolute(path: &str) -> (r: bool)
    ensures
        r == is_rooted(path@),
{
    let chars = text::chars_of(path);
    chars.len() > 0 && chars[0] == '/'
}

/// The last component of a path, if it is a name.
pub fn file_name(path: &str) -> (r: Option<String>)
    ensures
        text::option_view(r) == file_name_of(path@),
{
    let mut all = components_list(path);
    let ghost parts = components(path@);
    proof {
        assert(text::texts_view(all@).len() == parts.len());
        assert(all@.len() > 0 ==> all@.last()@ == text::texts_view(all@).last());
    }
    match all.pop() {
        Some(last) => if text::same(last.as_str(), "/") || text::same(last.as_str(), ".")
            || text::same(last.as_str(), "..") {
            None
        } else {
            Some(last)
        },
        None => None,
    }
}

/// The extension of a path's file name.
pub fn extension(path: &str) -> (r: Option<String>)
    ensures
        text::option_view(r) == extension_of(path@),
{
    match file_name(path) {
        None => None,
        Some(name) => {
            let chars = text::chars_of(name.as_str());
            let mut n: usize = chars.len();
            proof {
                assert(chars@.take(chars@.len() as int) =~= chars@);
            }
            while n > 0 && chars[n - 1] != '.'
                invariant
                    n <= chars@.len(),
                    last_index(chars@, '.') == last_index(chars@.take(n as int), '.'),
                decreases n,
            {
                proof {
                    assert(chars@.take(n as int).drop_last() =~= chars@.take(n - 1));
                }
                n = n - 1;
            }
            proof {
                if n > 0 {
                    assert(chars@.take(n as int).last() == '.');
                    assert(chars@.subrange(n as int, chars@.len() as int) =~= chars@.skip(
                        n as int,
                    ));
                }
            }
            if n > 1 {
                Some(text::text_between(&chars, n, chars.len()))
            } else {
                None
            }
        },
    }
}

/// The path without its last component, if that is not the root.
pub fn parent(path: &str) -> (r: Option<String>)
    ensures
        text::option_view(r) == parent_of(path@),
{
    let chars = text::chars_of(path);
    let places = find_spans(&chars);
    proof {
        reveal_strlit("/");
        assert("/"@ =~= seq!['/']);
        lemma_spans(path@);
    }
    if places.len() == 0 {
        return None;
    }
    let (from, to) = places[places.len() - 1];
    let ghost last = path@.subrange(from as int, to as int);
    proof {
        assert(components(path@).last() == last);
        if to - from == 1 && path@[from as int] == '/' {
            assert(last =~= seq!['/']);
        } else if last == seq!['/'] {
            assert(last.len() == 1);
            assert(seq!['/'][0] == '/');
            assert(last[0] == path@[from as int]);
        }
    }
    if to - from == 1 && chars[from] == '/' {
        return None;
    }
    if places.len() == 1 {
        let none = String::new();
        proof {
            assert(none@ =~= Seq::<char>::empty());
        }
        return Some(none);
    }
    let end: usize = places[places.len() - 2].1;
    proof {
        assert(path@.subrange(0, end as int) =~= path@.take(end as int));
    }
    Some(text::text_between(&chars, 0, end))
}

/// How many components of a path are those of `base`, if it lies in it.
fn inner_start(path: &str, base: &str) -> (r: Option<usize>)
    ensures
        match r {
            Some(n) => lies_in(path@, base@) && n == components(base@).len(),
            None => !lies_in(path@, base@),
        },
{
    let inner = components_list(path);
    let outer = components_list(base);
    let ghost a = components(path@);
    let ghost b = components(base@);
    proof {
        assert(text::texts_view(inner@) == a);
        assert(text::texts_view(outer@) == b);
    }
    if outer.len() > inner.len() {
        return None;
    }
    let mut i: usize = 0;
    while i < outer.len()
        invariant
            text::texts_view(inner@) == a,
            text::texts_view(outer@) == b,
            a == components(path@),
            b == components(base@),
            outer@.len() <= inner@.len(),
            i <= outer@.len(),
            forall|j: int| 0 <= j < i ==> #[trigger] a[j] == b[j],
        decreases outer@.len() - i,
    {
        proof {
            assert(a[i as int] == inner@[i as int]@);
            assert(b[i as int] == outer@[i as int]@);
        }
        if !text::same(inner[i].as_str(), outer[i].as_str()) {
            proof {
                assert(a.take(b.len() as int)[i as int] != b[i as int]);
            }
            return None;
        }
        i = i + 1;
    }
    proof {
        assert(a.take(b.len() as int) =~= b);
    }
    Some(outer.len())
}

/// Whether a path lies in a directory, or is it.
pub fn starts_with(path: &str, base: &str) -> (r: bool)
    ensures
        r == lies_in(path@, base@),
{
    inner_start(path, base).is_some()
}

/// What follows a directory in a path that lies in it.
pub fn strip_prefix(path: &str, base: &str) -> (r: Option<String>)
    ensures
        text::option_view(r) == relative_to(path@, base@),
{
    match inner_start(path, base) {
        None => None,
        Some(n) => {
            let chars = text::chars_of(path);
            let places = find_spans(&chars);
            proof {
                lemma_spans(path@);
                assert(components(path@).len() == spans(path@).len());
            }
            if n == places.len() {
                let none = String::new();
                proof {
                    assert(none@ =~= Seq::<char>::empty());
                }
                Some(none)
            } else {
                let last: usize = places.len() - 1;
                proof {
                    if n < last {
                        assert(spans(path@)[n as int].1 <= spans(path@)[last as int].0);
                    }
                }
                Some(text::text_between(&chars, places[n].0, places[last].1))
            }
        },
    }
}

/// A path seen from a directory.
pub fn join(base: &str, path: &str) -> (r: String)
    ensures
        r@ == joined_to(base@, path@),
{
    if is_absolute(path) {
        return path.to_owned();
    }
    let chars = text::chars_of(base);
    if chars.len() == 0 || chars[chars.len() - 1] == '/' {
        text::joined(base, path)
    } else {
        let mut start = base.to_owned();
        start.push('/');
        text::joined(start.as_str(), path)
    }
}

/// A path and the directories above it, nearest first.
pub fn ancestors(path: &str) -> (r: Vec<String>)
    ensures
        text::texts_view(r@) == ancestors_of(path@),
{
    let mut out: Vec<String> = Vec::new();
    let mut here = path.to_owned();
    proof {
        assert(text::texts_view(out@) + ancestors_of(path@) =~= ancestors_of(path@));
    }
    loop
        invariant
            text::texts_view(out@) + ancestors_of(here@) == ancestors_of(path@),
        decreases here@.len(),
    {
        let ghost before = text::texts_view(out@);
        let above = parent(here.as_str());
        proof {
            lemma_parent(here@);
        }
        let ghost now = here@;
        out.push(here);
        proof {
            assert(text::texts_view(out@) =~= before.push(now));
        }
        match above {
            Some(next) => {
                proof {
                    assert(text::texts_view(out@) + ancestors_of(next@) =~= before + (seq![now]
                        + ancestors_of(next@)));
                }
                here = next;
            },
            None => {
                proof {
                    assert(text::texts_view(out@) =~= before + seq![now]);
                }
                return out;
            },
        }
    }
}

/// Whether a text is a component that a directory can hold.
pub open spec fn is_entry(name: Seq<char>) -> bool {
    name.len() > 0 && !name.contains('/') && name != "."@
}

proof fn lemma_piece_end_at(path: Seq<char>, at: int, end: int)
    requires
        0 <= at <= end <= path.len(),
        forall|k: int| at <= k < end ==> path[k] != '/',
        end == path.len() || path[end] == '/',
    ensures
        piece_end(path, at) == end,
    decreases end - at,
{
    if at < end {
        lemma_piece_end_at(path, at + 1, end);
    }
}

proof fn lemma_spans_joined(base: Seq<char>, name: Seq<char>, at: int)
    requires
        base.len() > 0,
        is_entry(name),
        0 <= at <= base.len(),
    ensures
        ({
            let path = joined_to(base, name);
            let from = path.len() - name.len();
            spans_from(path, at) == spans_from(base, at).push((from, path.len() as int))
        }),
    decreases base.len() - at,
{
    assert(!is_rooted(name)) by {
        if is_rooted(name) {
            assert(name.contains(name[0]));
        }
    }
    let path = joined_to(base, name);
    let from = path.len() - name.len();
    assert(path.subrange(from, path.len() as int) =~= name);
    assert forall|k: int| from <= k < path.len() implies path[k] != '/' by {
        assert(path[k] == name[k - from]);
        assert(name.contains(name[k - from]));
    }
    lemma_piece_end(base, at);
    lemma_no_slash(base, at);
    let end = piece_end(base, at);
    assert forall|k: int| 0 <= k < base.len() implies path[k] == base[k] by {}
    if end < base.len() {
        lemma_piece_end_at(path, at, end);
        assert(path.subrange(at, end) =~= base.subrange(at, end));
        lemma_spans_joined(base, name, end + 1);
        assert(spans_from(path, at) =~= spans_from(base, at).push((from, path.len() as int)));
    } else if base.last() == '/' {
        // The last piece of the base is empty.
        assert(at == base.len()) by {
            if at < base.len() {
                assert(base[base.len() - 1] != '/');
            }
        }
        lemma_piece_end_at(path, at, path.len() as int);
        assert(spans_from(base, at) =~= Seq::<(int, int)>::empty());
        assert(spans_from(path, at) =~= seq![(from, path.len() as int)]);
    } else {
        assert(path[base.len() as int] == '/');
        lemma_piece_end_at(path, at, base.len() as int);
        lemma_piece_end_at(path, from, path.len() as int);
        assert(path.subrange(at, end) =~= base.subrange(at, end));
        assert(spans_from(path, from) =~= seq![(from, path.len() as int)]);
        assert(spans_from(path, at) =~= spans_from(base, at).push((from, path.len() as int)));
    }
}

/// What a directory holds has the directory's components and one more, its name. So
/// its name is found again, it lies in the directory, and seen from there it is its
/// name.
pub proof fn law_entries_lie_in_their_directory(base: Seq<char>, name: Seq<char>)
    requires
        base.len() > 0,
        is_entry(name),
    ensures
        components(joined_to(base, name)) == components(base).push(name),
        lies_in(joined_to(base, name), base),
        relative_to(joined_to(base, name), base) == Some(name),
        name != ".."@ ==> file_name_of(joined_to(base, name)) == Some(name),
{
    let path = joined_to(base, name);
    let from = path.len() - name.len();
    lemma_spans_joined(base, name, 0);
    assert(!is_rooted(name)) by {
        if is_rooted(name) {
            assert(name.contains(name[0]));
        }
    }
    assert(path[0] == base[0]);
    assert(spans(path) =~= spans(base).push((from, path.len() as int)));
    assert(path.subrange(from, path.len() as int) =~= name);
    lemma_spans(base);
    assert forall|i: int| 0 <= i < spans(base).len() implies components(path)[i] == components(
        base,
    )[i] by {
        let span = spans(base)[i];
        assert(spans(path)[i] == span);
        assert(path.subrange(span.0, span.1) =~= base.subrange(span.0, span.1));
    }
    assert(components(path) =~= components(base).push(name));
    assert(components(path).take(components(base).len() as int) =~= components(base));
    reveal_strlit("/");
    assert("/"@[0] == '/');
    if name == "/"@ {
        assert(name.contains(name[0]));
    }
}

/// The directory of what it holds is the directory itself.
pub proof fn law_parent_of_an_entry(above: Seq<char>, dir: Seq<char>, name: Seq<char>)
    requires
        above.len() > 0,
        is_entry(dir),
        is_entry(name),
    ensures
        parent_of(joined_to(joined_to(above, dir), name)) == Some(joined_to(above, dir)),
        parent_of("/"@ + name) == Some("/"@),
        parent_of("/"@) is None,
{
    let base = joined_to(above, dir);
    let path = joined_to(base, name);
    law_entries_lie_in_their_directory(above, dir);
    law_entries_lie_in_their_directory(base, name);
    lemma_spans_joined(above, dir, 0);
    lemma_spans_joined(base, name, 0);
    assert(!is_rooted(dir) && !is_rooted(name)) by {
        if is_rooted(dir) {
            assert(dir.contains(dir[0]));
        }
        if is_rooted(name) {
            assert(name.contains(name[0]));
        }
    }
    reveal_strlit("/");
    assert("/"@ =~= seq!['/']);
    assert(base[0] == above[0] && path[0] == base[0]);
    let from = base.len() - dir.len();
    assert(spans(base) =~= spans(above).push((from, base.len() as int)));
    assert(spans(path) =~= spans(base).push((path.len() - name.len(), path.len() as int)));
    assert(name != "/"@) by {
        if name == "/"@ {
            assert(name.contains(name[0]));
        }
    }
    assert(components(path).last() == name);
    assert(path.take(base.len() as int) =~= base);
    // The root.
    let root = "/"@;
    let top = joined_to(root, name);
    assert(top =~= root + name);
    law_entries_lie_in_their_directory(root, name);
    lemma_spans_joined(root, name, 0);
    lemma_piece_end_at(root, 0, 0);
    lemma_piece_end_at(root, 1, 1);
    assert(spans_from(root, 1) =~= Seq::<(int, int)>::empty());
    assert(spans_from(root, 0) =~= Seq::<(int, int)>::empty());
    assert(spans(root) =~= seq![(0int, 1int)]);
    assert(spans(top) =~= seq![(0int, 1int), (1int, top.len() as int)]);
    assert(components(top).last() == name);
    assert(top.take(1) =~= root);
    assert(components(root)[0] =~= root);
}

/// The extension of a file is what follows the last dot of its name, if something
/// stands before that dot.
pub proof fn law_extensions_follow_the_last_dot(
    base: Seq<char>,
    stem: Seq<char>,
    extension: Seq<char>,
)
    requires
        base.len() > 0,
        stem.len() > 0,
        !stem.contains('/'),
        !extension.contains('/'),
        !extension.contains('.'),
        stem.push('.') + extension != ".."@,
    ensures
        extension_of(joined_to(base, stem.push('.') + extension)) == Some(extension),
{
    let name = stem.push('.') + extension;
    assert(is_entry(name)) by {
        if name.contains('/') {
            let i = choose|i: int| 0 <= i < name.len() && name[i] == '/';
            if i < stem.len() {
                assert(stem[i] == '/');
            } else {
                assert(extension[i - stem.len() - 1] == '/');
            }
        }
        reveal_strlit(".");
        assert("."@.len() == 1);
    }
    law_entries_lie_in_their_directory(base, name);
    assert(name.skip(stem.len() as int + 1) =~= extension);
    lemma_last_index(name, '.', stem.len() as int, extension);
}

proof fn lemma_last_index(text: Seq<char>, ch: char, at: int, rest: Seq<char>)
    requires
        0 <= at < text.len(),
        text[at] == ch,
        text.skip(at + 1) == rest,
        !rest.contains(ch),
    ensures
        last_index(text, ch) == Some(at),
    decreases text.len(),
{
    if at < text.len() - 1 {
        assert(rest[rest.len() - 1] == text.last());
        assert(rest.contains(rest[rest.len() - 1]));
        let shorter = text.drop_last();
        let less = rest.drop_last();
        assert(shorter.skip(at + 1) =~= less);
        assert(!less.contains(ch)) by {
            if less.contains(ch) {
                let i = choose|i: int| 0 <= i < less.len() && less[i] == ch;
                assert(rest[i] == ch);
            }
        }
        lemma_last_index(shorter, ch, at, less);
    }
}

/// The directories above a path are its parent, the parent of that, and so on to the
/// end.
pub proof fn law_ancestors_are_parents(path: Seq<char>, i: int)
    ensures
        ancestors_of(path).len() > 0,
        ancestors_of(path)[0] == path,
        0 <= i < ancestors_of(path).len() - 1 ==> parent_of(ancestors_of(path)[i]) == Some(
            ancestors_of(path)[i + 1],
        ),
        parent_of(ancestors_of(path).last()) is None,
    decreases path.len(),
{
    lemma_parent(path);
    match parent_of(path) {
        Some(above) => {
            law_ancestors_are_parents(above, i - 1);
            law_ancestors_are_parents(above, 0);
            let all = ancestors_of(path);
            let rest = ancestors_of(above);
            assert(all =~= seq![path] + rest);
            assert(all.last() == rest.last());
            if 0 < i < all.len() - 1 {
                assert(all[i] == rest[i - 1]);
                assert(all[i + 1] == rest[i]);
            } else if i == 0 {
                assert(all[1] == rest[0]);
            }
        },
        None => {},
    }
}

/// An absolute path stays as it is, from wherever it is seen; any other is put behind
/// the directory, with one slash between them.
pub proof fn law_joined_paths(base: Seq<char>, path: Seq<char>)
    ensures
        path.len() > 0 && path[0] == '/' ==> joined_to(base, path) == path,
        !(path.len() > 0 && path[0] == '/') && base.len() > 0 && base.last() != '/' ==> joined_to(
            base,
            path,
        ) == base + seq!['/'] + path,
        !(path.len() > 0 && path[0] == '/') && !(base.len() > 0 && base.last() != '/')
            ==> joined_to(base, path) == base + path,
{
    assert(base.push('/') + path =~= base + seq!['/'] + path);
}

/// A path lies in another exactly if its components are those of the other and perhaps
/// more; names that merely start alike do not count.
pub proof fn law_lying_in_a_directory(path: Seq<char>, base: Seq<char>, rest: Seq<Seq<char>>)
    ensures
        components(path) == components(base) + rest ==> lies_in(path, base),
        lies_in(path, base) ==> components(path) == components(base) + components(path).skip(
            components(base).len() as int,
        ),
        lies_in(path, base) <==> relative_to(path, base) is Some,
        lies_in(path, path),
        relative_to(path, path) == Some(Seq::<char>::empty()),
{
    if components(path) == components(base) + rest {
        assert(components(path).take(components(base).len() as int) =~= components(base));
    }
    if lies_in(path, base) {
        let n = components(base).len() as int;
        assert(components(path) =~= components(path).take(n) + components(path).skip(n));
    }
    assert(components(path).take(components(path).len() as int) =~= components(path));
}

/// The components of a path are its pieces between slashes, but for empty ones, and for
/// dots that do not start it; an absolute path starts with the root.
pub proof fn law_components_are_pieces(first: Seq<char>, second: Seq<char>)
    requires
        is_entry(first),
        is_entry(second),
    ensures
        components("/"@ + first) == seq!["/"@, first],
        components(first + "/"@ + second) == components(first).push(second),
        components("/"@) == seq!["/"@],
        components(first) == seq![first],
{
    reveal_strlit("/");
    assert("/"@ =~= seq!['/']);
    let root = "/"@;
    lemma_piece_end_at(root, 0, 0);
    lemma_piece_end_at(root, 1, 1);
    assert(spans_from(root, 1) =~= Seq::<(int, int)>::empty());
    assert(spans_from(root, 0) =~= Seq::<(int, int)>::empty());
    assert(spans(root) =~= seq![(0int, 1int)]);
    assert(root.subrange(0, 1) =~= root);
    assert(components(root) =~= seq![root]);
    assert(!is_rooted(first) && !is_rooted(second)) by {
        if is_rooted(first) {
            assert(first.contains(first[0]));
        }
        if is_rooted(second) {
            assert(second.contains(second[0]));
        }
    }
    law_entries_lie_in_their_directory(root, first);
    assert(joined_to(root, first) =~= root + first);
    assert(components(root).push(first) =~= seq![root, first]);
    assert(first.last() != '/') by {
        assert(first.contains(first.last()));
    }
    law_entries_lie_in_their_directory(first, second);
    assert(joined_to(first, second) =~= first + root + second);
    assert forall|k: int| 0 <= k < first.len() implies first[k] != '/' by {
        assert(first.contains(first[k]));
    }
    lemma_piece_end_at(first, 0, first.len() as int);
    assert(first.subrange(0, first.len() as int) =~= first);
    assert(spans_from(first, 0) =~= seq![(0int, first.len() as int)]);
    assert(components(first) =~= seq![first]);
}

} // verus!
