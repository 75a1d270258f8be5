//! The text of a response: status line, header block, `Content-Length` and
//! body.

use crate::strings::{
    chars_of, decimal, decimal_value, lemma_decimal_is_line, lemma_decimal_value, push_decimal,
};
use crate::text::{
    find_from, is_line, lemma_find_from_is_leftmost, lemma_last_piece, occurs_at, split_limited,
    split_limited_from, split_on,
};
use vstd::prelude::*;
use vstd::string::StringExecFns;
use vstd::utf8::{encode_utf8, encode_utf8_first_scalar};

verus! {

/// A response before it is written out.
pub struct Response {
    /// The status code.
    pub code: nat,
    /// The header block, as its handler wrote it: header lines with a line
    /// break between each two.
    pub headers: Seq<char>,
    /// The body; empty where the response has none.
    pub body: Seq<char>,
}

/// The reason phrase that goes with a status code: `NOT FOUND` with 404, `OK`
/// with every other code.
pub open spec fn reason_phrase(code: nat) -> Seq<char> {
    if code == 404 {
        "NOT FOUND"@
    } else {
        "OK"@
    }
}

/// The first line of a response with status `code`, without its line break.
pub open spec fn first_line(code: nat) -> Seq<char> {
    "HTTP/1.1 "@ + decimal(code) + " "@ + reason_phrase(code)
}

/// The first line of a response with status `code`, line break included.
pub open spec fn status_line(code: nat) -> Seq<char> {
    first_line(code) + "\r\n"@
}

/// The number of bytes that `text` takes in UTF-8.
pub open spec fn byte_len(text: Seq<char>) -> nat {
    encode_utf8(text).len()
}

/// Whether `text` ends in a line break.
pub open spec fn ends_in_line_break(text: Seq<char>) -> bool {
    text.len() >= 2 && text[text.len() - 2] == '\r' && text[text.len() - 1] == '\n'
}

/// The line that gives the length of `body` in bytes, without its line break.
pub open spec fn content_length_line(body: Seq<char>) -> Seq<char> {
    "Content-Length: "@ + decimal(byte_len(body))
}

/// The text of a response. The status line, the header block as it stands
/// and a line break come first. Where there is a body, the `Content-Length`
/// line, an empty line and the body follow. Where there is none, the text
/// ends with the empty line that closes the headers and has no
/// `Content-Length`: one more line break follows, unless the header block is
/// empty or brings its own final line break, in which case the empty line
/// is there already.
pub open spec fn response_text(code: nat, headers: Seq<char>, body: Seq<char>) -> Seq<char> {
    let top = status_line(code) + headers + "\r\n"@;
    if body.len() > 0 {
        top + content_length_line(body) + "\r\n\r\n"@ + body
    } else if headers.len() > 0 && !ends_in_line_break(headers) {
        top + "\r\n"@
    } else {
        top
    }
}

impl Response {
    /// The text that goes over the wire.
    pub open spec fn text(self) -> Seq<char> {
        response_text(self.code, self.headers, self.body)
    }

    /// The response that tells the client that nothing answers its request:
    /// status 404, no header, no body.
    pub open spec fn not_found() -> Response {
        Response { code: 404, headers: Seq::empty(), body: Seq::empty() }
    }

    /// The head of the response: the first line, the header block where
    /// there is one, and the `Content-Length` line where there is a body,
    /// with a line break between each two and none at the end.
    pub open spec fn head(self) -> Seq<char> {
        first_line(self.code) + (if self.headers.len() > 0 {
            "\r\n"@ + self.headers
        } else {
            Seq::empty()
        }) + (if self.body.len() > 0 {
            "\r\n"@ + content_length_line(self.body)
        } else {
            Seq::empty()
        })
    }
}

/// Begins a response: the status line for `code`.
fn begin_response(code: u16) -> (response: String)
    ensures
        response@ == status_line(code as nat),
{
    let mut response = String::from_str("HTTP/1.1 ");
    push_decimal(&mut response, code as usize);
    response.append(" ");
    if code == 404 {
        response.append("NOT FOUND");
    } else {
        response.append("OK");
    }
    response.append("\r\n");
    response
}

/// Tells whether `text` ends in a line break.
fn has_final_line_break(text: &str) -> (ends: bool)
    ensures
        ends == ends_in_line_break(text@),
{
    let chars = chars_of(text);
    let len = chars.len();
    len >= 2 && chars[len - 2] == '\r' && chars[len - 1] == '\n'
}

/// The text of the response with status `code` that carries `content` under
/// the header block `headers`. The block is taken as it stands. With
/// content, the `Content-Length` line counts its bytes; without, that line
/// and the body are left out and the text ends with the empty line that
/// closes the headers.
pub fn response_with_content(content: &str, headers: &str, code: u8) -> (response: String)
    ensures
        response@ == (Response { code: code as nat, headers: headers@, body: content@ }).text(),
{
    let mut response = begin_response(code as u16);
    response.append(headers);
    response.append("\r\n");
    let length: usize = content.as_bytes().len();
    let block: usize = headers.as_bytes().len();
    proof {
        lemma_empty_text_has_no_bytes(content@);
        lemma_empty_text_has_no_bytes(headers@);
    }
    if length > 0 {
        response.append("Content-Length: ");
        push_decimal(&mut response, length);
        response.append("\r\n\r\n");
        response.append(content);
    } else if block > 0 && !has_final_line_break(headers) {
        response.append("\r\n");
    }
    assert(response@ =~= response_text(code as nat, headers@, content@));
    response
}

/// The text of the 404 response.
pub fn response_with_404() -> (response: String)
    ensures
        response@ == Response::not_found().text(),
        response@ == "HTTP/1.1 404 NOT FOUND\r\n\r\n"@,
{
    let mut response = begin_response(404);
    response.append("\r\n");
    assert(response@ =~= response_text(404, Seq::empty(), Seq::empty()));
    proof {
        lemma_not_found_text();
    }
    response
}

/// A text takes no bytes exactly when it has no characters.
pub proof fn lemma_empty_text_has_no_bytes(text: Seq<char>)
    ensures
        byte_len(text) == 0 <==> text.len() == 0,
{
    if text.len() > 0 {
        encode_utf8_first_scalar(text);
    }
}

/// The 404 response, letter by letter.
pub proof fn lemma_not_found_text()
    ensures
        Response::not_found().text() == "HTTP/1.1 404 NOT FOUND\r\n\r\n"@,
{
    reveal_strlit("HTTP/1.1 ");
    reveal_strlit(" ");
    reveal_strlit("NOT FOUND");
    reveal_strlit("\r\n");
    reveal_strlit("HTTP/1.1 404 NOT FOUND\r\n\r\n");
    reveal_with_fuel(decimal, 3);
    assert(decimal(404) =~= seq!['4', '0', '4']);
    assert(Response::not_found().text() =~= "HTTP/1.1 404 NOT FOUND\r\n\r\n"@);
}

/// Whether no empty line stands in `text` or ends it: every line feed is
/// followed by a character, and that character is no carriage return.
pub open spec fn has_no_empty_line(text: Seq<char>) -> bool {
    forall|i: int|
        0 <= i < text.len() && #[trigger] text[i] == '\n' ==> i + 1 < text.len() && text[i + 1]
            != '\r'
}

/// Whether `headers` is a header block in the form that the handlers of
/// this library write: header lines with a line break between each two, no
/// line break at either end and no empty line. The empty block is one.
pub open spec fn is_header_block(headers: Seq<char>) -> bool {
    &&& headers.len() > 0 ==> headers[0] != '\r'
    &&& has_no_empty_line(headers)
}

/// Two lines written one after the other are a line.
pub proof fn lemma_lines_concat(left: Seq<char>, right: Seq<char>)
    requires
        is_line(left),
        is_line(right),
    ensures
        is_line(left + right),
{
}

/// A header block that follows a text without empty line, after one line
/// break, leaves the whole without empty line.
pub proof fn lemma_next_lines(above: Seq<char>, below: Seq<char>)
    requires
        has_no_empty_line(above),
        is_header_block(below),
        below.len() > 0,
    ensures
        has_no_empty_line(above + "\r\n"@ + below),
{
    reveal_strlit("\r\n");
    let all = above + "\r\n"@ + below;
    assert forall|i: int| 0 <= i < all.len() && #[trigger] all[i] == '\n' implies i + 1
        < all.len() && all[i + 1] != '\r' by {
        if i < above.len() {
            assert(above[i] == '\n');
            assert(all[i + 1] == above[i + 1]);
        } else if i == above.len() + 1 {
            assert(all[i + 1] == below[0]);
        } else if i >= above.len() + 2 {
            let k = i - above.len() - 2;
            assert(below[k] == '\n');
            assert(all[i + 1] == below[k + 1]);
        }
    }
}

/// The first occurrence of an empty line in a text is where its head ends,
/// if the head has none: cut there, the text falls into head and body.
pub proof fn lemma_first_empty_line(head: Seq<char>, body: Seq<char>)
    requires
        has_no_empty_line(head),
    ensures
        find_from(head + "\r\n\r\n"@ + body, "\r\n\r\n"@, 0) == Some(head.len() as int),
        split_limited(head + "\r\n\r\n"@ + body, "\r\n\r\n"@, 2) == seq![head, body],
{
    reveal_strlit("\r\n\r\n");
    let sep = "\r\n\r\n"@;
    let text = head + sep + body;
    let end = head.len() as int;
    assert(text.subrange(end, end + 4) =~= sep);
    assert(occurs_at(text, sep, end));
    assert forall|j: int| 0 <= j < end implies !occurs_at(text, sep, j) by {
        if occurs_at(text, sep, j) {
            let found = text.subrange(j, j + 4);
            assert(found[1] == '\n' && found[2] == '\r');
            assert(text[j + 1] == '\n' && text[j + 2] == '\r');
            if j + 1 < end {
                assert(head[j + 1] == '\n');
                assert(text[j + 2] == head[j + 2]);
            }
        }
    }
    lemma_find_from_is_leftmost(text, sep, 0);
    assert(text.subrange(0, end) =~= head);
    assert(text.subrange(end + 4, text.len() as int) =~= body);
    reveal_with_fuel(split_limited_from, 3);
    assert(split_limited(text, sep, 2) =~= seq![head, body]);
}

/// The framing law. Take a response whose header block is in the handlers'
/// form, and which has a header block if it has a body. Its text is its
/// head, an empty line and its body, and the head holds no empty line: so
/// the first empty line of the text ends the head, and what follows it is
/// exactly the body. Where there is a body, the last line of the head is the
/// `Content-Length` line, and the number on it is the length of the body in
/// bytes; where there is none, the head is the first line and the header
/// block, and nothing follows the empty line.
pub proof fn lemma_body_follows_first_empty_line(response: Response)
    requires
        is_header_block(response.headers),
        response.body.len() > 0 ==> response.headers.len() > 0,
    ensures
        response.text() == response.head() + "\r\n\r\n"@ + response.body,
        has_no_empty_line(response.head()),
        split_limited(response.text(), "\r\n\r\n"@, 2) == seq![response.head(), response.body],
        response.body.len() > 0 ==> {
            &&& response.head() == first_line(response.code) + "\r\n"@ + response.headers + "\r\n"@
                + "Content-Length: "@ + decimal(byte_len(response.body))
            &&& split_on(response.head(), "\r\n"@).last() == "Content-Length: "@ + decimal(
                byte_len(response.body),
            )
            &&& decimal_value(decimal(byte_len(response.body))) == byte_len(response.body)
            &&& byte_len(response.body) > 0
        },
        response.body.len() == 0 ==> response.head() == first_line(response.code) + (
        if response.headers.len() > 0 {
            "\r\n"@ + response.headers
        } else {
            Seq::empty()
        }),
{
    let code = response.code;
    let headers = response.headers;
    let body = response.body;
    reveal_strlit("\r\n");
    reveal_strlit("\r\n\r\n");
    lemma_decimal_value(byte_len(body));
    lemma_empty_text_has_no_bytes(body);
    lemma_first_line_is_line(code);
    lemma_content_length_line_is_line(body);
    let first = first_line(code);
    let length = content_length_line(body);
    assert(has_no_empty_line(first));
    let upper = if headers.len() > 0 {
        first + "\r\n"@ + headers
    } else {
        first
    };
    if headers.len() > 0 {
        lemma_next_lines(first, headers);
    }
    assert(has_no_empty_line(upper));
    if body.len() > 0 {
        reveal_strlit("Content-Length: ");
        assert(length[0] == 'C');
        lemma_next_lines(upper, length);
        assert(response.head() =~= upper + "\r\n"@ + length);
        lemma_last_line(upper, length);
        assert(response.head() =~= first + "\r\n"@ + headers + "\r\n"@ + "Content-Length: "@
            + decimal(byte_len(body)));
    } else {
        assert(response.head() =~= upper);
    }
    assert(response.text() =~= response.head() + "\r\n\r\n"@ + body);
    lemma_first_empty_line(response.head(), body);
}

/// A single line under a text, after one line break, is the last line of the
/// whole.
pub proof fn lemma_last_line(above: Seq<char>, line: Seq<char>)
    requires
        is_line(line),
    ensures
        split_on(above + "\r\n"@ + line, "\r\n"@).last() == line,
{
    reveal_strlit("\r\n");
    let sep = "\r\n"@;
    let text = above + sep + line;
    let end = above.len() as int;
    assert forall|j: int| end < j implies !occurs_at(text, sep, j) by {
        if occurs_at(text, sep, j) {
            assert(text.subrange(j, j + 2)[0] == '\r');
            assert(text[j] == '\r');
            if j >= end + 2 {
                assert(text[j] == line[j - end - 2]);
            }
        }
    }
    assert forall|j: int| 0 <= j < end && occurs_at(text, sep, j) implies j + sep.len()
        <= end by {
        assert(text.subrange(j, j + 2)[1] == '\n');
        assert(text[j + 1] == '\n');
    }
    lemma_last_piece(above, sep, line, 0);
}

/// The first line of a response is a single line.
pub proof fn lemma_first_line_is_line(code: nat)
    ensures
        is_line(first_line(code)),
{
    reveal_strlit("HTTP/1.1 ");
    reveal_strlit(" ");
    reveal_strlit("OK");
    reveal_strlit("NOT FOUND");
    lemma_decimal_is_line(code);
    assert(is_line("HTTP/1.1 "@));
    assert(is_line(" "@));
    assert(is_line("OK"@));
    assert(is_line("NOT FOUND"@));
    assert(is_line(reason_phrase(code)));
    lemma_lines_concat("HTTP/1.1 "@, decimal(code));
    lemma_lines_concat("HTTP/1.1 "@ + decimal(code), " "@);
    lemma_lines_concat("HTTP/1.1 "@ + decimal(code) + " "@, reason_phrase(code));
}

/// The `Content-Length` line is a single line.
pub proof fn lemma_content_length_line_is_line(body: Seq<char>)
    ensures
        is_line(content_length_line(body)),
        is_header_block(content_length_line(body)),
        content_length_line(body).len() > 0,
{
    reveal_strlit("Content-Length: ");
    lemma_decimal_is_line(byte_len(body));
    assert(is_line("Content-Length: "@));
    lemma_lines_concat("Content-Length: "@, decimal(byte_len(body)));
    assert(content_length_line(body)[0] == 'C');
}

} // verus!
