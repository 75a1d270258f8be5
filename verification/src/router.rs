//! From a request to what the server does next: the routing table, the
//! steps it hands to the connection driver, and the answers of the file
//! routes once the driver reports what it found on disk.

use crate::request::{
    parse, parse_request, piece_or_empty, Method, Request, RequestView, ServeError,
};
use crate::response::{
    byte_len, first_line, has_no_empty_line, is_header_block, lemma_body_follows_first_empty_line,
    lemma_next_lines, response_with_404, response_with_content, Response,
};
use crate::strings::{chars_of, decimal, decimal_value, spells};
use crate::text::{is_line, split, split_limited, split_on, texts, trim, trimmed};
use vstd::prelude::*;
use vstd::string::StringExecFns;

verus! {

/// The command line of the server.
#[derive(Debug)]
pub struct Args {
    /// The directory that the file routes serve; without it they answer 404.
    pub directory: Option<String>,
}

/// What the connection driver does next.
#[derive(Debug, PartialEq, Eq)]
pub enum Step {
    /// Send this text; the connection is done.
    Respond(String),
    /// Look for the file `name` under `directory`, read it as text, and hand
    /// what was found to `handle_get_files_request`. The name is the path
    /// segment as the client sent it.
    ReadFile { directory: String, name: String },
    /// Create the file `name` under `directory` with `content`, unless it
    /// exists, and hand what happened to `handle_post_files_request`.
    CreateFile { directory: String, name: String, content: String },
}

/// A `Step` as mathematical values.
pub enum StepView {
    Respond(Seq<char>),
    ReadFile { directory: Seq<char>, name: Seq<char> },
    CreateFile { directory: Seq<char>, name: Seq<char>, content: Seq<char> },
}

impl View for Step {
    type V = StepView;

    open spec fn view(&self) -> StepView {
        match *self {
            Step::Respond(text) => StepView::Respond(text@),
            Step::ReadFile { directory, name } => StepView::ReadFile {
                directory: directory@,
                name: name@,
            },
            Step::CreateFile { directory, name, content } => StepView::CreateFile {
                directory: directory@,
                name: name@,
                content: content@,
            },
        }
    }
}

/// What the driver found when it looked for a file to read.
#[derive(Debug, PartialEq, Eq)]
pub enum FileRead {
    /// No such file.
    Missing,
    /// The file's content, as text.
    Content(String),
    /// The file is there and could not be read.
    Failed,
}

/// A `FileRead` as mathematical values.
pub enum FileReadView {
    Missing,
    Content(Seq<char>),
    Failed,
}

impl View for FileRead {
    type V = FileReadView;

    open spec fn view(&self) -> FileReadView {
        match *self {
            FileRead::Missing => FileReadView::Missing,
            FileRead::Content(text) => FileReadView::Content(text@),
            FileRead::Failed => FileReadView::Failed,
        }
    }
}

/// What happened when the driver was to create a file.
#[derive(Debug, Clone, Copy, PartialEq, Eq, Structural)]
pub enum FileCreated {
    /// The file was there already; nothing was written.
    Exists,
    /// The file was created and the content written.
    Created,
    /// The file could not be created or written.
    Failed,
}

/// What routing decides: a response, or a file to look at first.
pub enum Plan {
    Answer(Response),
    ReadFile { directory: Seq<char>, name: Seq<char> },
    CreateFile { directory: Seq<char>, name: Seq<char>, content: Seq<char> },
}

/// The value of the header `name`; empty where the request has none.
pub open spec fn header_or_empty(headers: Map<Seq<char>, Seq<char>>, name: Seq<char>) -> Seq<char> {
    if headers.contains_key(name) {
        headers[name]
    } else {
        Seq::empty()
    }
}

/// Whether the server offers the content coding `coding`: only `gzip`.
pub open spec fn supported_coding(coding: Seq<char>) -> bool {
    coding == "gzip"@
}

/// The codings that the value of an `Accept-Encoding` header lists: its
/// pieces between commas, each without the white space around it.
pub open spec fn listed_codings(value: Seq<char>) -> Seq<Seq<char>> {
    split_on(value, ","@).map_values(|piece: Seq<char>| trimmed(piece))
}

/// Whether one of the codings that `value` lists is offered by the server.
pub open spec fn lists_supported_coding(value: Seq<char>) -> bool {
    exists|i: int|
        0 <= i < listed_codings(value).len() && supported_coding(
            #[trigger] listed_codings(value)[i],
        )
}

/// The header block of an echo response: the content type, and under it the
/// line `Content-Encoding: gzip` where the request's `Accept-Encoding` header
/// lists that coding. The body is sent as it is all the same: the server
/// advertises the coding and does not apply it.
pub open spec fn echo_headers(headers: Map<Seq<char>, Seq<char>>) -> Seq<char> {
    if headers.contains_key("Accept-Encoding"@) && lists_supported_coding(
        headers["Accept-Encoding"@],
    ) {
        "Content-Type: text/plain"@ + "\r\n"@ + "Content-Encoding: gzip"@
    } else {
        "Content-Type: text/plain"@
    }
}

/// The routing table. The key is the method and the first path segment; a
/// path without segments counts as one empty segment, and a missing second
/// segment as an empty one.
///
/// | method | first segment | plan |
/// |---|---|---|
/// | GET | empty | 200, no header, no body |
/// | GET | `echo` | 200, the second segment as `text/plain` |
/// | GET | `user-agent` | 200, the `User-Agent` header as `text/plain` |
/// | GET | `files` | read the file named by the second segment |
/// | POST | `files` | create the file named by the second segment |
///
/// Everything else is answered with 404, and so are both file routes where
/// no directory is served.
pub open spec fn plan(request: RequestView, directory: Option<Seq<char>>) -> Plan {
    let route = piece_or_empty(request.path, 0);
    let argument = piece_or_empty(request.path, 1);
    match request.method {
        Method::GET => if route == ""@ {
            Plan::Answer(Response { code: 200, headers: Seq::empty(), body: Seq::empty() })
        } else if route == "echo"@ {
            Plan::Answer(
                Response { code: 200, headers: echo_headers(request.headers), body: argument },
            )
        } else if route == "user-agent"@ {
            Plan::Answer(
                Response {
                    code: 200,
                    headers: "Content-Type: text/plain"@,
                    body: header_or_empty(request.headers, "User-Agent"@),
                },
            )
        } else if route == "files"@ {
            match directory {
                Some(directory) => Plan::ReadFile { directory, name: argument },
                None => Plan::Answer(Response::not_found()),
            }
        } else {
            Plan::Answer(Response::not_found())
        },
        Method::POST => if route == "files"@ {
            match directory {
                Some(directory) => Plan::CreateFile {
                    directory,
                    name: argument,
                    content: request.body,
                },
                None => Plan::Answer(Response::not_found()),
            }
        } else {
            Plan::Answer(Response::not_found())
        },
        Method::PUT | Method::DELETE => Plan::Answer(Response::not_found()),
    }
}

/// The step that carries out a plan: an answer is sent as its text.
pub open spec fn step_of(plan: Plan) -> StepView {
    match plan {
        Plan::Answer(response) => StepView::Respond(response.text()),
        Plan::ReadFile { directory, name } => StepView::ReadFile { directory, name },
        Plan::CreateFile { directory, name, content } => StepView::CreateFile {
            directory,
            name,
            content,
        },
    }
}

/// The view of an optional directory.
pub open spec fn directory_view(directory: Option<String>) -> Option<Seq<char>> {
    match directory {
        Some(directory) => Some(directory@),
        None => None,
    }
}

/// The path segment at position `at`; empty where the path is shorter.
fn segment(path: &Vec<String>, at: usize) -> (text: String)
    ensures
        text@ == piece_or_empty(path@.map_values(|segment: String| segment@), at as int),
{
    if at < path.len() {
        path[at].clone()
    } else {
        String::new()
    }
}

/// Tells whether one of the codings that `value` lists is offered by the
/// server.
fn accepts_supported_coding(value: &str) -> (listed: bool)
    ensures
        listed == lists_supported_coding(value@),
{
    let chars = chars_of(value);
    let comma = chars_of(",");
    let pieces = split(chars.as_slice(), comma.as_slice());
    let ghost codings = listed_codings(value@);
    assert(codings.len() == pieces.len()) by {
        assert(texts(pieces@).len() == pieces.len());
    }
    let mut i: usize = 0;
    while i < pieces.len()
        invariant
            i <= pieces.len(),
            codings == listed_codings(value@),
            codings.len() == pieces.len(),
            texts(pieces@) == split_on(value@, ","@),
            forall|j: int| 0 <= j < i ==> !supported_coding(#[trigger] codings[j]),
        decreases pieces.len() - i,
    {
        assert(texts(pieces@)[i as int] == pieces@[i as int]@);
        assert(codings[i as int] == trimmed(pieces@[i as int]@));
        if spells(trim(pieces[i]), "gzip") {
            return true;
        }
        i += 1;
    }
    false
}

/// The header block of an echo response to `request`.
fn echo_header_block(request: &Request) -> (block: String)
    ensures
        block@ == echo_headers(request@.headers),
{
    let mut block = String::from_str("Content-Type: text/plain");
    match request.headers.get("Accept-Encoding") {
        Some(value) => {
            if accepts_supported_coding(value.as_str()) {
                block.append("\r\n");
                block.append("Content-Encoding: gzip");
            }
        },
        None => {},
    }
    assert(block@ =~= echo_headers(request@.headers));
    block
}

/// Routes a parsed request: picks the one handler that the method and the
/// first path segment select, and says what the driver does next.
pub fn route(request: Request, directory: Option<String>) -> (step: Step)
    ensures
        step@ == step_of(plan(request@, directory_view(directory))),
{
    let name = segment(&request.path, 0);
    let key = chars_of(name.as_str());
    let argument = segment(&request.path, 1);
    proof {
        reveal_strlit("");
    }
    match request.method {
        Method::GET => {
            if spells(key.as_slice(), "") {
                Step::Respond(response_with_content("", "", 200))
            } else if spells(key.as_slice(), "echo") {
                let block = echo_header_block(&request);
                Step::Respond(response_with_content(argument.as_str(), block.as_str(), 200))
            } else if spells(key.as_slice(), "user-agent") {
                let agent = match request.headers.get("User-Agent") {
                    Some(agent) => agent.clone(),
                    None => String::new(),
                };
                Step::Respond(
                    response_with_content(agent.as_str(), "Content-Type: text/plain", 200),
                )
            } else if spells(key.as_slice(), "files") {
                match directory {
                    Some(directory) => Step::ReadFile { directory, name: argument },
                    None => Step::Respond(response_with_404()),
                }
            } else {
                Step::Respond(response_with_404())
            }
        },
        Method::POST => {
            if spells(key.as_slice(), "files") {
                match directory {
                    Some(directory) => Step::CreateFile {
                        directory,
                        name: argument,
                        content: request.body,
                    },
                    None => Step::Respond(response_with_404()),
                }
            } else {
                Step::Respond(response_with_404())
            }
        },
        _ => Step::Respond(response_with_404()),
    }
}

/// Handles what was read from a connection: parses the request and routes
/// it. An error ends the connection without a response.
pub fn handle_connection(buffer: &[u8], directory: Option<String>) -> (handled: Result<
    Step,
    ServeError,
>)
    ensures
        match handled {
            Ok(step) => parse(buffer@) matches Ok(request) && step@ == step_of(
                plan(request, directory_view(directory)),
            ),
            Err(error) => parse(buffer@) == Err::<RequestView, ServeError>(error),
        },
{
    match parse_request(buffer) {
        Ok(request) => Ok(route(request, directory)),
        Err(error) => Err(error),
    }
}

/// The answer to a request for a file: 404 where the file is missing; its
/// content as `application/octet-stream` with status 200 where it was read;
/// `Io` where reading failed.
pub open spec fn read_response(found: FileReadView) -> Result<Response, ServeError> {
    match found {
        FileReadView::Missing => Ok(Response::not_found()),
        FileReadView::Content(content) => Ok(
            Response {
                code: 200,
                headers: "Content-Type: application/octet-stream"@,
                body: content,
            },
        ),
        FileReadView::Failed => Err(ServeError::Io),
    }
}

/// The answer to a request to create a file: 404 where the file was there
/// already, since nothing is overwritten; status 201 with the body `Created`
/// where it was created; `Io` where that failed.
pub open spec fn create_response(done: FileCreated) -> Result<Response, ServeError> {
    match done {
        FileCreated::Exists => Ok(Response::not_found()),
        FileCreated::Created => Ok(
            Response { code: 201, headers: "Content-Type: text/plain"@, body: "Created"@ },
        ),
        FileCreated::Failed => Err(ServeError::Io),
    }
}

/// The text of an answer, or the error in its place.
pub open spec fn sent(answer: Result<Response, ServeError>) -> Result<Seq<char>, ServeError> {
    match answer {
        Ok(response) => Ok(response.text()),
        Err(error) => Err(error),
    }
}

/// The view of an answer as the handlers return it.
pub open spec fn answer_view(answer: Result<String, ServeError>) -> Result<Seq<char>, ServeError> {
    match answer {
        Ok(text) => Ok(text@),
        Err(error) => Err(error),
    }
}

/// Answers a `ReadFile` step, given what the driver found.
pub fn handle_get_files_request(found: FileRead) -> (answer: Result<String, ServeError>)
    ensures
        answer_view(answer) == sent(read_response(found@)),
{
    match found {
        FileRead::Missing => Ok(response_with_404()),
        FileRead::Content(content) => Ok(
            response_with_content(content.as_str(), "Content-Type: application/octet-stream", 200),
        ),
        FileRead::Failed => Err(ServeError::Io),
    }
}

/// Answers a `CreateFile` step, given what happened on disk.
pub fn handle_post_files_request(done: FileCreated) -> (answer: Result<String, ServeError>)
    ensures
        answer_view(answer) == sent(create_response(done)),
{
    match done {
        FileCreated::Exists => Ok(response_with_404()),
        FileCreated::Created => Ok(
            response_with_content("Created", "Content-Type: text/plain", 201),
        ),
        FileCreated::Failed => Err(ServeError::Io),
    }
}

/// What a request leads to in the end, where the driver finds `found` when
/// it reads and `done` when it creates.
pub open spec fn outcome(
    request: RequestView,
    directory: Option<Seq<char>>,
    found: FileReadView,
    done: FileCreated,
) -> Result<Response, ServeError> {
    match plan(request, directory) {
        Plan::Answer(response) => Ok(response),
        Plan::ReadFile { .. } => read_response(found),
        Plan::CreateFile { .. } => create_response(done),
    }
}

/// The header blocks that the routes write are in the handlers' form, and
/// no route sends a body without one.
pub proof fn lemma_routes_write_header_blocks(
    request: RequestView,
    directory: Option<Seq<char>>,
    found: FileReadView,
    done: FileCreated,
)
    ensures
        outcome(request, directory, found, done) matches Ok(response) ==> {
            &&& is_header_block(response.headers)
            &&& response.body.len() > 0 ==> response.headers.len() > 0
        },
{
    reveal_strlit("Content-Type: text/plain");
    reveal_strlit("Content-Encoding: gzip");
    reveal_strlit("Content-Type: application/octet-stream");
    reveal_strlit("\r\n");
    let plain = "Content-Type: text/plain"@;
    let coding = "Content-Encoding: gzip"@;
    let stream = "Content-Type: application/octet-stream"@;
    assert(is_line(plain));
    assert(is_line(coding));
    assert(is_line(stream));
    assert(plain[0] == 'C' && coding[0] == 'C' && stream[0] == 'C');
    lemma_next_lines(plain, coding);
    assert((plain + "\r\n"@ + coding)[0] == plain[0]);
    assert(is_header_block(plain + "\r\n"@ + coding));
    assert(is_header_block(Seq::<char>::empty()));
    assert(is_header_block(echo_headers(request.headers)));
    assert(echo_headers(request.headers).len() > 0);
}

/// Whatever the request and whatever is found on disk, the text that is sent
/// falls into head and body at its first empty line. The head holds the
/// status line and the header block. Where there is a body, the head ends
/// with the `Content-Length` line, the number on it is the length of the
/// body in bytes, and exactly the body follows the empty line. Where there
/// is none, the head has no `Content-Length` line and nothing follows the
/// empty line.
pub proof fn lemma_content_length_of_every_response(
    request: RequestView,
    directory: Option<Seq<char>>,
    found: FileReadView,
    done: FileCreated,
)
    ensures
        outcome(request, directory, found, done) matches Ok(response) ==> {
            &&& split_limited(response.text(), "\r\n\r\n"@, 2) == seq![
                response.head(),
                response.body,
            ]
            &&& has_no_empty_line(response.head())
            &&& response.body.len() > 0 ==> {
                &&& split_on(response.head(), "\r\n"@).last() == "Content-Length: "@ + decimal(
                    byte_len(response.body),
                )
                &&& decimal_value(decimal(byte_len(response.body))) == byte_len(response.body)
                &&& response.head() == first_line(response.code) + "\r\n"@ + response.headers
                    + "\r\n"@ + "Content-Length: "@ + decimal(byte_len(response.body))
            }
            &&& response.body.len() == 0 ==> response.head() == first_line(response.code) + (
            if response.headers.len() > 0 {
                "\r\n"@ + response.headers
            } else {
                Seq::empty()
            })
        },
{
    lemma_routes_write_header_blocks(request, directory, found, done);
    match outcome(request, directory, found, done) {
        Ok(response) => {
            lemma_body_follows_first_empty_line(response);
        },
        Err(_) => {},
    }
}

/// Whether the routing table has a handler for `method` on the first path
/// segment `route`.
pub open spec fn is_routed(method: Method, route: Seq<char>) -> bool {
    match method {
        Method::GET => route == ""@ || route == "echo"@ || route == "user-agent"@ || route
            == "files"@,
        Method::POST => route == "files"@,
        Method::PUT | Method::DELETE => false,
    }
}

/// The routing table is complete: a request for which it has no handler is
/// answered with the 404 response, and so is one for a file where no
/// directory is served.
pub proof fn lemma_unrouted_is_not_found(request: RequestView, directory: Option<Seq<char>>)
    ensures
        !is_routed(request.method, piece_or_empty(request.path, 0)) ==> plan(request, directory)
            == Plan::Answer(Response::not_found()),
        piece_or_empty(request.path, 0) == "files"@ && directory is None ==> plan(
            request,
            directory,
        ) == Plan::Answer(Response::not_found()),
{
    reveal_strlit("");
    reveal_strlit("echo");
    reveal_strlit("user-agent");
    reveal_strlit("files");
    assert(""@.len() == 0 && "echo"@.len() == 4 && "user-agent"@.len() == 10 && "files"@.len()
        == 5);
}

/// A GET request changes nothing and can be repeated: it never leads to the
/// creation of a file, and what is sent back depends only on the request, the
/// directory and what the file lookup found. Two runs on the same input send
/// the same bytes, whatever else happened between them.
pub proof fn lemma_get_is_idempotent(
    request: RequestView,
    directory: Option<Seq<char>>,
    found: FileReadView,
    done_once: FileCreated,
    done_again: FileCreated,
)
    requires
        request.method == Method::GET,
    ensures
        !(plan(request, directory) is CreateFile),
        sent(outcome(request, directory, found, done_once)) == sent(
            outcome(request, directory, found, done_again),
        ),
{
}

} // verus!
