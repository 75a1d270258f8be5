//! Searching, splitting, trimming and joining of character sequences.
//!
//! Every executable function here works on a slice of characters and is
//! specified by a function on `Seq<char>` of the same meaning.

use vstd::prelude::*;
use vstd::slice::slice_subrange;

verus! {

/// Whether `pattern` stands in `text` at position `at`.
pub open spec fn occurs_at(text: Seq<char>, pattern: Seq<char>, at: int) -> bool {
    &&& 0 <= at
    &&& at + pattern.len() <= text.len()
    &&& text.subrange(at, at + pattern.len()) == pattern
}

/// The position of the leftmost occurrence of `pattern` in `text` that begins
/// at `from` or later, if there is one.
pub open spec fn find_from(text: Seq<char>, pattern: Seq<char>, from: int) -> Option<int>
    decreases text.len() + 1 - from,
{
    if from < 0 || from + pattern.len() > text.len() {
        None
    } else if occurs_at(text, pattern, from) {
        Some(from)
    } else {
        find_from(text, pattern, from + 1)
    }
}

/// What `find_from` returns is an occurrence, and the first one from `from` on.
pub proof fn lemma_find_from_is_leftmost(text: Seq<char>, pattern: Seq<char>, from: int)
    requires
        0 <= from,
    ensures
        match find_from(text, pattern, from) {
            Some(at) => {
                &&& from <= at
                &&& occurs_at(text, pattern, at)
                &&& forall|j: int| from <= j < at ==> !occurs_at(text, pattern, j)
            },
            None => forall|j: int| from <= j ==> !occurs_at(text, pattern, j),
        },
    decreases text.len() + 1 - from,
{
    if from + pattern.len() > text.len() {
    } else if occurs_at(text, pattern, from) {
    } else {
        lemma_find_from_is_leftmost(text, pattern, from + 1);
    }
}

/// Where `pattern` does not occur from `from` up to `to`, the search from
/// `from` finds what the search from `to` finds.
pub proof fn lemma_find_from_skips(text: Seq<char>, pattern: Seq<char>, from: int, to: int)
    requires
        0 <= from <= to,
        forall|j: int| from <= j < to ==> !occurs_at(text, pattern, j),
    ensures
        find_from(text, pattern, from) == find_from(text, pattern, to),
    decreases to - from,
{
    if from < to {
        if from + pattern.len() <= text.len() {
            lemma_find_from_skips(text, pattern, from + 1, to);
        }
    }
}

/// Tells whether `pattern` stands in `text` at position `at`.
pub fn matches_at(text: &[char], pattern: &[char], at: usize) -> (found: bool)
    ensures
        found == occurs_at(text@, pattern@, at as int),
{
    if pattern.len() > text.len() || at > text.len() - pattern.len() {
        return false;
    }
    let mut k: usize = 0;
    while k < pattern.len()
        invariant
            k <= pattern.len(),
            at + pattern.len() <= text.len(),
            forall|j: int| 0 <= j < k ==> text@[at + j] == pattern@[j],
        decreases pattern.len() - k,
    {
        if text[at + k] != pattern[k] {
            assert(text@.subrange(at as int, at + pattern.len())[k as int] != pattern@[k as int]);
            return false;
        }
        k += 1;
    }
    assert(text@.subrange(at as int, at + pattern.len()) =~= pattern@);
    true
}

/// Finds the leftmost occurrence of `pattern` in `text` that begins at `from`
/// or later.
pub fn find(text: &[char], pattern: &[char], from: usize) -> (found: Option<usize>)
    ensures
        match found {
            Some(at) => find_from(text@, pattern@, from as int) == Some(at as int),
            None => find_from(text@, pattern@, from as int) is None,
        },
{
    if pattern.len() > text.len() {
        return None;
    }
    let last: usize = text.len() - pattern.len();
    let mut at: usize = from;
    while at <= last
        invariant
            from <= at,
            last == text.len() - pattern.len(),
            find_from(text@, pattern@, from as int) == find_from(text@, pattern@, at as int),
        decreases last + 1 - at,
    {
        if matches_at(text, pattern, at) {
            return Some(at);
        }
        if at == last {
            assert(find_from(text@, pattern@, at + 1) is None);
            return None;
        }
        at += 1;
    }
    None
}

/// The pieces into which the occurrences of `sep` cut `text` from position
/// `from` on. Occurrences are taken from the left and do not overlap; a text
/// that ends in `sep` has an empty last piece. An empty `sep` cuts nowhere.
/// (The two bounds on `at` hold of every occurrence that `find_from` gives;
/// they stand in the guard to show that the cutting ends.)
pub open spec fn split_from(text: Seq<char>, sep: Seq<char>, from: int) -> Seq<Seq<char>>
    decreases text.len() - from,
{
    match find_from(text, sep, from) {
        Some(at) if sep.len() > 0 && from <= at && at + sep.len() <= text.len() => seq![
            text.subrange(from, at),
        ] + split_from(text, sep, at + sep.len()),
        _ => seq![text.subrange(from, text.len() as int)],
    }
}

/// The pieces into which the occurrences of `sep` cut `text`.
pub open spec fn split_on(text: Seq<char>, sep: Seq<char>) -> Seq<Seq<char>> {
    split_from(text, sep, 0)
}

/// As `split_from`, but with no more than `limit` pieces: once `limit - 1`
/// pieces are cut off, the rest of the text is the last piece, uncut.
pub open spec fn split_limited_from(text: Seq<char>, sep: Seq<char>, from: int, limit: nat) -> Seq<
    Seq<char>,
>
    decreases limit,
{
    if limit == 0 {
        Seq::empty()
    } else {
        match find_from(text, sep, from) {
            Some(at) if limit > 1 && sep.len() > 0 => seq![text.subrange(from, at)]
                + split_limited_from(text, sep, at + sep.len(), (limit - 1) as nat),
            _ => seq![text.subrange(from, text.len() as int)],
        }
    }
}

/// The pieces into which the first `limit - 1` occurrences of `sep` cut `text`.
pub open spec fn split_limited(text: Seq<char>, sep: Seq<char>, limit: nat) -> Seq<Seq<char>> {
    split_limited_from(text, sep, 0, limit)
}

/// A split has one piece at least.
pub proof fn lemma_split_has_a_piece(text: Seq<char>, sep: Seq<char>)
    ensures
        split_on(text, sep).len() >= 1,
{
}

/// A limited split has no more pieces than its limit allows, and one piece at
/// least unless the limit is 0.
pub proof fn lemma_split_limited_len(text: Seq<char>, sep: Seq<char>, from: int, limit: nat)
    ensures
        split_limited_from(text, sep, from, limit).len() <= limit,
        limit > 0 ==> split_limited_from(text, sep, from, limit).len() >= 1,
    decreases limit,
{
    if limit > 1 {
        match find_from(text, sep, from) {
            Some(at) => {
                lemma_split_limited_len(text, sep, at + sep.len(), (limit - 1) as nat);
            },
            None => {},
        }
    }
}

/// The last piece of a text is what stands behind its last separator. Here
/// the text is `above`, a separator and `below`; no separator begins after
/// that one, and none that begins in `above` reaches beyond it.
pub proof fn lemma_last_piece(above: Seq<char>, sep: Seq<char>, below: Seq<char>, from: int)
    requires
        sep.len() > 0,
        0 <= from <= above.len(),
        forall|j: int| above.len() < j ==> !occurs_at(above + sep + below, sep, j),
        forall|j: int|
            0 <= j < above.len() && occurs_at(above + sep + below, sep, j) ==> j + sep.len()
                <= above.len(),
    ensures
        split_from(above + sep + below, sep, from).len() > 0,
        split_from(above + sep + below, sep, from).last() == below,
    decreases above.len() - from,
{
    let text = above + sep + below;
    let end = above.len() as int;
    assert(text.subrange(end, end + sep.len()) =~= sep);
    assert(occurs_at(text, sep, end));
    lemma_find_from_is_leftmost(text, sep, from);
    let at = find_from(text, sep, from)->0;
    assert(from <= at <= end);
    let rest = split_from(text, sep, at + sep.len());
    if at == end {
        lemma_find_from_is_leftmost(text, sep, end + sep.len());
        assert(find_from(text, sep, end + sep.len()) is None);
        assert(text.subrange(end + sep.len(), text.len() as int) =~= below);
        assert(rest =~= seq![below]);
    } else {
        lemma_last_piece(above, sep, below, at + sep.len());
    }
    assert(split_from(text, sep, from) =~= seq![text.subrange(from, at)] + rest);
}

/// The character sequences that a list of pieces holds.
pub open spec fn texts(pieces: Seq<&[char]>) -> Seq<Seq<char>> {
    pieces.map_values(|piece: &[char]| piece@)
}

/// Cuts `text` at every occurrence of `sep`, or nowhere where `sep` is empty.
pub fn split<'a>(text: &'a [char], sep: &[char]) -> (pieces: Vec<&'a [char]>)
    ensures
        texts(pieces@) == split_on(text@, sep@),
{
    let mut pieces: Vec<&'a [char]> = Vec::new();
    let mut start: usize = 0;
    while sep.len() > 0
        invariant
            start <= text.len(),
            split_on(text@, sep@) == texts(pieces@) + split_from(text@, sep@, start as int),
        ensures
            start <= text.len(),
            split_on(text@, sep@) == texts(pieces@) + seq![
                text@.subrange(start as int, text.len() as int),
            ],
        decreases text.len() - start,
    {
        let found = find(text, sep, start);
        proof {
            lemma_find_from_is_leftmost(text@, sep@, start as int);
        }
        match found {
            Some(at) => {
                let ghost before = texts(pieces@);
                pieces.push(slice_subrange(text, start, at));
                assert(texts(pieces@) =~= before + seq![text@.subrange(start as int, at as int)]);
                start = at + sep.len();
            },
            None => {
                break ;
            },
        }
    }
    let ghost before = texts(pieces@);
    pieces.push(slice_subrange(text, start, text.len()));
    assert(texts(pieces@) =~= before + seq![text@.subrange(start as int, text.len() as int)]);
    pieces
}

/// Cuts `text` at the first `limit - 1` occurrences of `sep`, or nowhere
/// where `sep` is empty; gives no piece where `limit` is 0.
pub fn splitn<'a>(text: &'a [char], sep: &[char], limit: usize) -> (pieces: Vec<&'a [char]>)
    ensures
        texts(pieces@) == split_limited(text@, sep@, limit as nat),
{
    let mut pieces: Vec<&'a [char]> = Vec::new();
    if limit == 0 {
        assert(texts(pieces@) =~= Seq::<Seq<char>>::empty());
        return pieces;
    }
    let mut start: usize = 0;
    while sep.len() > 0 && pieces.len() + 1 < limit
        invariant
            start <= text.len(),
            pieces.len() < limit,
            split_limited(text@, sep@, limit as nat) == texts(pieces@) + split_limited_from(
                text@,
                sep@,
                start as int,
                (limit - pieces.len()) as nat,
            ),
        ensures
            start <= text.len(),
            split_limited(text@, sep@, limit as nat) == texts(pieces@) + seq![
                text@.subrange(start as int, text.len() as int),
            ],
        decreases limit - pieces.len(),
    {
        let found = find(text, sep, start);
        proof {
            lemma_find_from_is_leftmost(text@, sep@, start as int);
        }
        match found {
            Some(at) => {
                let ghost before = texts(pieces@);
                pieces.push(slice_subrange(text, start, at));
                assert(texts(pieces@) =~= before + seq![text@.subrange(start as int, at as int)]);
                start = at + sep.len();
            },
            None => {
                break ;
            },
        }
    }
    let ghost before = texts(pieces@);
    pieces.push(slice_subrange(text, start, text.len()));
    assert(texts(pieces@) =~= before + seq![text@.subrange(start as int, text.len() as int)]);
    pieces
}

/// Whether `text` is a single line: it holds no carriage return and no line
/// feed.
pub open spec fn is_line(text: Seq<char>) -> bool {
    forall|i: int| 0 <= i < text.len() ==> #[trigger] text[i] != '\r' && text[i] != '\n'
}

/// Whether `c` is white space: a character with the Unicode property
/// `White_Space`.
pub open spec fn is_whitespace(c: char) -> bool {
    let code = c as u32;
    ||| 0x09 <= code <= 0x0D
    ||| code == 0x20
    ||| code == 0x85
    ||| code == 0xA0
    ||| code == 0x1680
    ||| 0x2000 <= code <= 0x200A
    ||| code == 0x2028
    ||| code == 0x2029
    ||| code == 0x202F
    ||| code == 0x205F
    ||| code == 0x3000
}

/// Tells whether `c` is white space.
pub fn is_white(c: char) -> (white: bool)
    ensures
        white == is_whitespace(c),
{
    let code: u32 = c as u32;
    (0x09 <= code && code <= 0x0D) || code == 0x20 || code == 0x85 || code == 0xA0 || code
        == 0x1680 || (0x2000 <= code && code <= 0x200A) || code == 0x2028 || code == 0x2029 || code
        == 0x202F || code == 0x205F || code == 0x3000
}

/// `text` without the white space it begins with.
pub open spec fn trim_start(text: Seq<char>) -> Seq<char>
    decreases text.len(),
{
    if text.len() > 0 && is_whitespace(text[0]) {
        trim_start(text.skip(1))
    } else {
        text
    }
}

/// `text` without the white space it ends with.
pub open spec fn trim_end(text: Seq<char>) -> Seq<char>
    decreases text.len(),
{
    if text.len() > 0 && is_whitespace(text.last()) {
        trim_end(text.drop_last())
    } else {
        text
    }
}

/// `text` without the white space around it.
pub open spec fn trimmed(text: Seq<char>) -> Seq<char> {
    trim_end(trim_start(text))
}

/// What `trim_end` leaves does not end in white space.
proof fn lemma_trim_end_last(text: Seq<char>)
    ensures
        trim_end(text).len() > 0 ==> !is_whitespace(trim_end(text).last()),
    decreases text.len(),
{
    if text.len() > 0 && is_whitespace(text.last()) {
        lemma_trim_end_last(text.drop_last());
    }
}

/// What is left of a text after trimming does not end in white space.
pub proof fn lemma_trimmed_end(text: Seq<char>)
    ensures
        trimmed(text).len() > 0 ==> !is_whitespace(trimmed(text).last()),
{
    lemma_trim_end_last(trim_start(text));
}

/// Removes the white space around `text`.
pub fn trim(text: &[char]) -> (inner: &[char])
    ensures
        inner@ == trimmed(text@),
{
    let mut start: usize = 0;
    assert(text@.skip(0) =~= text@);
    while start < text.len() && is_white(text[start])
        invariant
            start <= text.len(),
            trim_start(text@) == trim_start(text@.skip(start as int)),
        decreases text.len() - start,
    {
        assert(text@.skip(start as int).skip(1) =~= text@.skip(start + 1));
        start += 1;
    }
    assert(trim_start(text@) == text@.skip(start as int));
    let mut end: usize = text.len();
    assert(text@.skip(start as int) =~= text@.subrange(start as int, end as int));
    while end > start && is_white(text[end - 1])
        invariant
            start <= end <= text.len(),
            trimmed(text@) == trim_end(text@.subrange(start as int, end as int)),
        decreases end - start,
    {
        assert(text@.subrange(start as int, end as int).drop_last() =~= text@.subrange(
            start as int,
            end - 1,
        ));
        end -= 1;
    }
    slice_subrange(text, start, end)
}

/// The pieces of `parts` in one text, with `sep` between each two neighbours.
pub open spec fn joined(parts: Seq<Seq<char>>, sep: Seq<char>) -> Seq<char>
    decreases parts.len(),
{
    if parts.len() == 0 {
        Seq::empty()
    } else if parts.len() == 1 {
        parts[0]
    } else {
        joined(parts.drop_last(), sep) + sep + parts.last()
    }
}

/// A piece put before a list that is not empty is joined to it by one
/// separator.
proof fn lemma_joined_after_first(first: Seq<char>, rest: Seq<Seq<char>>, sep: Seq<char>)
    requires
        rest.len() > 0,
    ensures
        joined(seq![first] + rest, sep) == first + sep + joined(rest, sep),
    decreases rest.len(),
{
    let all = seq![first] + rest;
    if rest.len() == 1 {
        assert(all.drop_last() =~= seq![first]);
        assert(joined(seq![first], sep) == first);
        assert(joined(rest, sep) == rest[0]);
        assert(joined(all, sep) =~= first + sep + joined(rest, sep));
    } else {
        assert(all.drop_last() =~= seq![first] + rest.drop_last());
        lemma_joined_after_first(first, rest.drop_last(), sep);
        assert(joined(all, sep) =~= first + sep + joined(rest, sep));
    }
}

/// Joined with the separator, the pieces from `from` on give back the text
/// from `from` on.
pub proof fn lemma_join_undoes_split_from(text: Seq<char>, sep: Seq<char>, from: int)
    requires
        0 <= from <= text.len(),
    ensures
        joined(split_from(text, sep, from), sep) == text.skip(from),
    decreases text.len() - from,
{
    lemma_find_from_is_leftmost(text, sep, from);
    match find_from(text, sep, from) {
        Some(at) if sep.len() > 0 => {
            let rest = split_from(text, sep, at + sep.len());
            lemma_join_undoes_split_from(text, sep, at + sep.len());
            lemma_joined_after_first(text.subrange(from, at), rest, sep);
            assert(text.subrange(from, at) + sep + text.skip(at + sep.len()) =~= text.skip(from));
        },
        _ => {},
    }
}

/// Appends the characters of `more` to `text`.
fn extend(text: &mut Vec<char>, more: &[char])
    ensures
        final(text)@ == old(text)@ + more@,
{
    let mut i: usize = 0;
    while i < more.len()
        invariant
            i <= more.len(),
            text@ == old(text)@ + more@.take(i as int),
        decreases more.len() - i,
    {
        text.push(more[i]);
        i += 1;
    }
}

/// Joins `parts` into one text, with `sep` between each two neighbours.
pub fn join(parts: &[&[char]], sep: &[char]) -> (text: Vec<char>)
    ensures
        text@ == joined(texts(parts@), sep@),
{
    let mut text: Vec<char> = Vec::new();
    let ghost all = texts(parts@);
    let mut i: usize = 0;
    while i < parts.len()
        invariant
            i <= parts.len(),
            all == texts(parts@),
            text@ == joined(all.take(i as int), sep@),
        decreases parts.len() - i,
    {
        if i > 0 {
            extend(&mut text, sep);
        }
        extend(&mut text, parts[i]);
        assert(all.take(i + 1).drop_last() =~= all.take(i as int));
        i += 1;
    }
    assert(all.take(parts.len() as int) =~= all);
    text
}

} // verus!
