//! A request as read from the wire: the method, the path segments, the
//! headers and the body, and the parser that finds them in the bytes.

use crate::strings::{chars_of, decode, spells, string_of};
use crate::text::{
    find_from, join, joined, lemma_find_from_is_leftmost, lemma_find_from_skips,
    lemma_join_undoes_split_from, lemma_split_has_a_piece, lemma_split_limited_len,
    lemma_trimmed_end, occurs_at, split, split_from, split_limited, split_on, splitn, texts, trim,
    trimmed,
};
use vstd::hash_map::StringHashMap;
use vstd::prelude::*;
use vstd::slice::slice_subrange;
use vstd::utf8::{decode_utf8, valid_utf8};

verus! {

/// Why a connection ends without a response.
#[derive(Debug, Clone, Copy, PartialEq, Eq, Structural)]
pub enum ServeError {
    /// The bytes read are not well-formed UTF-8.
    Encoding,
    /// The start line names no method that the server knows.
    Parse,
    /// A file could not be read, created or written.
    Io,
}

impl ServeError {
    /// What went wrong, in words.
    pub open spec fn description(self) -> Seq<char> {
        match self {
            ServeError::Encoding => "the request is not valid UTF-8"@,
            ServeError::Parse => "the request names no known method"@,
            ServeError::Io => "a file could not be read or written"@,
        }
    }

    /// Says in words what went wrong.
    pub fn message(&self) -> (text: &'static str)
        ensures
            text@ == self.description(),
    {
        match self {
            ServeError::Encoding => "the request is not valid UTF-8",
            ServeError::Parse => "the request names no known method",
            ServeError::Io => "a file could not be read or written",
        }
    }
}

/// The request methods that the server knows.
#[derive(Debug, Clone, Copy, PartialEq, Eq, Structural)]
pub enum Method {
    GET,
    POST,
    PUT,
    DELETE,
}

/// The method that a token of the start line names, if any. The names are
/// upper case, and nothing else is accepted: not another case, not an empty
/// token.
pub open spec fn method_of(token: Seq<char>) -> Option<Method> {
    if token == "GET"@ {
        Some(Method::GET)
    } else if token == "POST"@ {
        Some(Method::POST)
    } else if token == "PUT"@ {
        Some(Method::PUT)
    } else if token == "DELETE"@ {
        Some(Method::DELETE)
    } else {
        None
    }
}

/// The method that `token` names.
fn method_named(token: &[char]) -> (method: Result<Method, ServeError>)
    ensures
        method == match method_of(token@) {
            Some(m) => Ok::<Method, ServeError>(m),
            None => Err::<Method, ServeError>(ServeError::Parse),
        },
{
    if spells(token, "GET") {
        Ok(Method::GET)
    } else if spells(token, "POST") {
        Ok(Method::POST)
    } else if spells(token, "PUT") {
        Ok(Method::PUT)
    } else if spells(token, "DELETE") {
        Ok(Method::DELETE)
    } else {
        Err(ServeError::Parse)
    }
}

impl Method {
    /// The method that `method` names: `Parse` for every text but the four
    /// names.
    pub fn from_str(method: &str) -> (found: Result<Method, ServeError>)
        ensures
            found == match method_of(method@) {
                Some(m) => Ok::<Method, ServeError>(m),
                None => Err::<Method, ServeError>(ServeError::Parse),
            },
    {
        let token = chars_of(method);
        method_named(token.as_slice())
    }
}

/// A parsed request.
pub struct Request {
    pub method: Method,
    /// The segments of the request target after its first slash: none, one
    /// or two.
    pub path: Vec<String>,
    /// The headers by name, as received.
    pub headers: StringHashMap<String>,
    pub body: String,
}

/// What a `Request` holds, as mathematical values.
pub struct RequestView {
    pub method: Method,
    pub path: Seq<Seq<char>>,
    pub headers: Map<Seq<char>, Seq<char>>,
    pub body: Seq<char>,
}

impl View for Request {
    type V = RequestView;

    open spec fn view(&self) -> RequestView {
        RequestView {
            method: self.method,
            path: self.path@.map_values(|segment: String| segment@),
            headers: self.headers@.map_values(|value: String| value@),
            body: self.body@,
        }
    }
}

/// The piece at position `at`, or the empty text where there is none.
pub open spec fn piece_or_empty(pieces: Seq<Seq<char>>, at: int) -> Seq<char> {
    if 0 <= at < pieces.len() {
        pieces[at]
    } else {
        Seq::empty()
    }
}

/// The path segments of a request target: the target is cut at its first two
/// slashes, and what stands before the first slash is dropped. A target
/// without a slash has no segment; the second segment keeps any further
/// slash.
pub open spec fn path_segments(target: Seq<char>) -> Seq<Seq<char>> {
    split_limited(target, "/"@, 3).skip(1)
}

/// The name of a header line: what stands before its first `": "`, the whole
/// line where there is none.
pub open spec fn header_name(line: Seq<char>) -> Seq<char> {
    piece_or_empty(split_on(line, ": "@), 0)
}

/// The value of a header line: what stands between its first and its second
/// `": "`; empty where the line has no `": "`.
pub open spec fn header_value(line: Seq<char>) -> Seq<char> {
    piece_or_empty(split_on(line, ": "@), 1)
}

/// The headers that `lines` declare. Where a name comes twice, the later line
/// counts.
pub open spec fn headers_of(lines: Seq<Seq<char>>) -> Map<Seq<char>, Seq<char>>
    decreases lines.len(),
{
    if lines.len() == 0 {
        Map::empty()
    } else {
        headers_of(lines.drop_last()).insert(header_name(lines.last()), header_value(lines.last()))
    }
}

/// The position of the first empty line at `from` or later; the number of
/// lines where there is none.
pub open spec fn blank_line(lines: Seq<Seq<char>>, from: int) -> int
    decreases lines.len() - from,
{
    if from < 0 || from >= lines.len() {
        lines.len() as int
    } else if lines[from].len() == 0 {
        from
    } else {
        blank_line(lines, from + 1)
    }
}

/// The body: the lines after the empty line at `blank`, with their line
/// breaks; empty where no line is empty.
pub open spec fn body_of(lines: Seq<Seq<char>>, blank: int) -> Seq<char> {
    if 0 <= blank < lines.len() {
        joined(lines.skip(blank + 1), "\r\n"@)
    } else {
        Seq::empty()
    }
}

/// The request that a text spells. The white space around the text is
/// dropped and the rest cut into lines at each CR LF. The first line is cut
/// at each single space: its first piece is the method, its second piece the
/// request target (empty where the line has no space). The lines after it,
/// up to the first empty one, are the headers; what follows the empty line
/// is the body.
pub open spec fn parse_text(text: Seq<char>) -> Result<RequestView, ServeError> {
    let lines = split_on(trimmed(text), "\r\n"@);
    let start = split_on(piece_or_empty(lines, 0), " "@);
    let blank = blank_line(lines, 1);
    match method_of(piece_or_empty(start, 0)) {
        None => Err(ServeError::Parse),
        Some(method) => Ok(
            RequestView {
                method,
                path: path_segments(piece_or_empty(start, 1)),
                headers: headers_of(lines.subrange(1, blank)),
                body: body_of(lines, blank),
            },
        ),
    }
}

/// The request that `bytes` spell: `Encoding` where they are not well-formed
/// UTF-8, else what their text spells.
pub open spec fn parse(bytes: Seq<u8>) -> Result<RequestView, ServeError> {
    if valid_utf8(bytes) {
        parse_text(decode_utf8(bytes))
    } else {
        Err(ServeError::Encoding)
    }
}

/// A request target has two path segments at most.
pub proof fn lemma_at_most_two_segments(target: Seq<char>)
    ensures
        path_segments(target).len() <= 2,
{
    lemma_split_limited_len(target, "/"@, 0, 3);
}

/// An empty line stands at a position exactly when a line break stands
/// there and another right behind it.
proof fn lemma_empty_line_is_two_breaks(text: Seq<char>, at: int)
    ensures
        occurs_at(text, "\r\n\r\n"@, at) <==> occurs_at(text, "\r\n"@, at) && occurs_at(
            text,
            "\r\n"@,
            at + 2,
        ),
        occurs_at(text, "\r\n"@, at) ==> text[at] == '\r' && text[at + 1] == '\n',
{
    reveal_strlit("\r\n");
    reveal_strlit("\r\n\r\n");
    let one = "\r\n"@;
    let two = "\r\n\r\n"@;
    if occurs_at(text, one, at) {
        assert(text.subrange(at, at + 2)[0] == '\r' && text.subrange(at, at + 2)[1] == '\n');
    }
    if occurs_at(text, two, at) {
        let found = text.subrange(at, at + 4);
        assert(found[0] == '\r' && found[1] == '\n' && found[2] == '\r' && found[3] == '\n');
        assert(text.subrange(at, at + 2) =~= one);
        assert(text.subrange(at + 2, at + 4) =~= one);
    }
    if occurs_at(text, one, at) && occurs_at(text, one, at + 2) {
        assert(text.subrange(at + 2, at + 4)[0] == '\r' && text.subrange(at + 2, at + 4)[1]
            == '\n');
        assert(text.subrange(at, at + 4) =~= two);
    }
}

/// Behind one more line in front, the first empty line stands one place
/// further on.
proof fn lemma_blank_line_after_first(first: Seq<char>, rest: Seq<Seq<char>>, from: int)
    requires
        0 <= from,
    ensures
        blank_line(seq![first] + rest, from + 1) == blank_line(rest, from) + 1,
    decreases rest.len() - from,
{
    let all = seq![first] + rest;
    if from < rest.len() {
        assert(all[from + 1] == rest[from]);
        if rest[from].len() != 0 {
            lemma_blank_line_after_first(first, rest, from + 1);
        }
    }
}

/// The lines from a line's beginning on: where an empty line comes among
/// them, what the lines after it spell is the text after that empty line;
/// and an empty line comes among them exactly where two line breaks stand
/// one behind the other.
proof fn lemma_lines_after_empty_line(text: Seq<char>, from: int)
    requires
        2 <= from <= text.len(),
        occurs_at(text, "\r\n"@, from - 2),
        text.last() != '\n',
    ensures
        ({
            let lines = split_from(text, "\r\n"@, from);
            let blank = blank_line(lines, 0);
            match find_from(text, "\r\n\r\n"@, from - 2) {
                Some(at) => {
                    &&& 0 <= blank < lines.len()
                    &&& 0 <= at && at + 4 <= text.len()
                    &&& joined(lines.skip(blank + 1), "\r\n"@) == text.skip(at + 4)
                },
                None => blank == lines.len(),
            }
        }),
    decreases text.len() - from,
{
    reveal_strlit("\r\n");
    reveal_strlit("\r\n\r\n");
    let one = "\r\n"@;
    let two = "\r\n\r\n"@;
    let lines = split_from(text, one, from);
    lemma_find_from_is_leftmost(text, one, from);
    lemma_find_from_is_leftmost(text, two, from - 2);
    lemma_empty_line_is_two_breaks(text, from - 2);
    match find_from(text, one, from) {
        None => {
            assert(from < text.len());
            assert(lines =~= seq![text.subrange(from, text.len() as int)]);
            assert(lines[0].len() > 0);
            assert(blank_line(lines, 1) == 1);
            assert(blank_line(lines, 0) == 1);
            assert forall|j: int| from - 2 <= j implies !occurs_at(text, two, j) by {
                lemma_empty_line_is_two_breaks(text, j);
            }
        },
        Some(at) => {
            let rest = split_from(text, one, at + 2);
            assert(lines =~= seq![text.subrange(from, at)] + rest);
            lemma_empty_line_is_two_breaks(text, at);
            if at == from {
                assert(lines[0].len() == 0);
                assert(blank_line(lines, 0) == 0);
                assert(occurs_at(text, two, from - 2));
                assert(find_from(text, two, from - 2) == Some(from - 2));
                assert(lines.skip(1) =~= rest);
                lemma_join_undoes_split_from(text, one, at + 2);
            } else {
                assert(lines[0].len() > 0);
                lemma_blank_line_after_first(text.subrange(from, at), rest, 0);
                assert(blank_line(lines, 0) == blank_line(lines, 1));
                assert forall|j: int| from - 2 <= j < at implies !occurs_at(text, two, j) by {
                    lemma_empty_line_is_two_breaks(text, j);
                    lemma_empty_line_is_two_breaks(text, j + 2);
                }
                lemma_find_from_skips(text, two, from - 2, at);
                lemma_lines_after_empty_line(text, at + 2);
                let blank = blank_line(rest, 0);
                if blank < rest.len() {
                    assert(lines.skip(blank + 2) =~= rest.skip(blank + 1));
                }
            }
        },
    }
}

/// The body of a request is the text after its first empty line. Take the
/// text without the white space around it: where it holds two line breaks
/// one behind the other, the body is all that follows the first such place,
/// line breaks and further empty lines included; where it holds none, the
/// body is empty.
pub proof fn lemma_body_is_text_after_first_empty_line(text: Seq<char>)
    ensures
        ({
            let inner = trimmed(text);
            let lines = split_on(inner, "\r\n"@);
            let body = body_of(lines, blank_line(lines, 1));
            &&& body == match find_from(inner, "\r\n\r\n"@, 0) {
                Some(at) => inner.skip(at + 4),
                None => Seq::empty(),
            }
            &&& parse_text(text) matches Ok(request) ==> request.body == body
        }),
{
    reveal_strlit("\r\n");
    reveal_strlit("\r\n\r\n");
    let one = "\r\n"@;
    let two = "\r\n\r\n"@;
    let inner = trimmed(text);
    let lines = split_on(inner, one);
    lemma_trimmed_end(text);
    lemma_find_from_is_leftmost(inner, one, 0);
    lemma_find_from_is_leftmost(inner, two, 0);
    match find_from(inner, one, 0) {
        None => {
            assert(lines =~= seq![inner.subrange(0, inner.len() as int)]);
            assert(blank_line(lines, 1) == 1);
            assert forall|j: int| 0 <= j implies !occurs_at(inner, two, j) by {
                lemma_empty_line_is_two_breaks(inner, j);
            }
        },
        Some(at) => {
            let rest = split_from(inner, one, at + 2);
            assert(lines =~= seq![inner.subrange(0, at)] + rest);
            lemma_empty_line_is_two_breaks(inner, at);
            assert(inner.len() > 0 && inner.last() != '\n');
            lemma_blank_line_after_first(inner.subrange(0, at), rest, 0);
            assert forall|j: int| 0 <= j < at implies !occurs_at(inner, two, j) by {
                lemma_empty_line_is_two_breaks(inner, j);
            }
            lemma_find_from_skips(inner, two, 0, at);
            lemma_lines_after_empty_line(inner, at + 2);
            let blank = blank_line(rest, 0);
            if blank < rest.len() {
                assert(lines.skip(blank + 2) =~= rest.skip(blank + 1));
            }
        },
    }
}

/// The piece at position `at` as a slice; the empty slice where there is none.
fn piece_at<'a>(pieces: &Vec<&'a [char]>, at: usize) -> (piece: &'a [char])
    ensures
        piece@ == piece_or_empty(texts(pieces@), at as int),
{
    if at < pieces.len() {
        pieces[at]
    } else {
        let empty: &[char] = &[];
        assert(empty@ =~= Seq::<char>::empty());
        empty
    }
}

/// The segments of the request target `target`.
fn segments(target: &[char]) -> (path: Vec<String>)
    ensures
        path@.map_values(|segment: String| segment@) == path_segments(target@),
        path.len() <= 2,
{
    let slash = chars_of("/");
    proof {
        lemma_split_limited_len(target@, "/"@, 0, 3);
    }
    let pieces = splitn(target, slash.as_slice(), 3);
    let mut path: Vec<String> = Vec::new();
    let mut i: usize = 1;
    assert(texts(pieces@).len() == pieces.len());
    while i < pieces.len()
        invariant
            1 <= i <= pieces.len(),
            path@.map_values(|segment: String| segment@) == texts(pieces@).subrange(1, i as int),
        decreases pieces.len() - i,
    {
        let ghost before = path@.map_values(|segment: String| segment@);
        path.push(string_of(pieces[i]));
        assert(path@.map_values(|segment: String| segment@) =~= before.push(pieces@[i as int]@));
        i += 1;
    }
    assert(texts(pieces@).subrange(1, pieces.len() as int) =~= texts(pieces@).skip(1));
    path
}

/// Reads a request from the bytes of a connection.
pub fn parse_request(buffer: &[u8]) -> (parsed: Result<Request, ServeError>)
    ensures
        match parsed {
            Ok(request) => parse(buffer@) == Ok::<RequestView, ServeError>(request@),
            Err(error) => parse(buffer@) == Err::<RequestView, ServeError>(error),
        },
        parsed matches Ok(request) ==> request.path.len() <= 2,
{
    let text = match decode(buffer) {
        Some(text) => text,
        None => {
            return Err(ServeError::Encoding);
        },
    };
    let line_break = chars_of("\r\n");
    let space = chars_of(" ");
    let colon = chars_of(": ");
    let lines = split(trim(text.as_slice()), line_break.as_slice());
    let start = split(piece_at(&lines, 0), space.as_slice());
    let method = match method_named(piece_at(&start, 0)) {
        Ok(method) => method,
        Err(error) => {
            return Err(error);
        },
    };
    let path = segments(piece_at(&start, 1));
    let mut headers: StringHashMap<String> = StringHashMap::new();
    let ghost all = texts(lines@);
    proof {
        lemma_split_has_a_piece(trimmed(text@), "\r\n"@);
        assert(all.len() == lines.len());
    }
    let mut i: usize = 1;
    assert(all.subrange(1, 1) =~= Seq::<Seq<char>>::empty());
    assert(headers@.map_values(|value: String| value@) =~= Map::<Seq<char>, Seq<char>>::empty());
    while i < lines.len() && lines[i].len() != 0
        invariant
            1 <= i <= lines.len(),
            all == texts(lines@),
            colon@ == ": "@,
            blank_line(all, 1) == blank_line(all, i as int),
            headers@.map_values(|value: String| value@) == headers_of(all.subrange(1, i as int)),
        decreases lines.len() - i,
    {
        let parts = split(lines[i], colon.as_slice());
        let name = string_of(piece_at(&parts, 0));
        let value = string_of(piece_at(&parts, 1));
        let ghost before = headers@.map_values(|value: String| value@);
        headers.insert(name, value);
        proof {
            assert(all[i as int] == lines@[i as int]@);
            assert(headers@.map_values(|value: String| value@) =~= before.insert(name@, value@));
            assert(all.subrange(1, i + 1).drop_last() =~= all.subrange(1, i as int));
        }
        i += 1;
    }
    let body = if i < lines.len() {
        let rest = slice_subrange(lines.as_slice(), i + 1, lines.len());
        assert(texts(rest@) =~= all.skip(i + 1));
        string_of(join(rest, line_break.as_slice()).as_slice())
    } else {
        String::new()
    };
    Ok(Request { method, path, headers, body })
}

} // verus!
