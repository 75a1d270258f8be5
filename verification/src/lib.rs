//! A small HTTP/1.1 server, from the bytes read to the bytes sent.
//!
//! `request` parses a request out of a byte buffer, `router` picks the
//! handler and `response` frames what goes back. Reading, writing and the
//! file system stay with the caller: routing hands it a `Step` and takes
//! back what was found.

pub mod request;
pub mod response;
pub mod router;
pub mod strings;
pub mod text;

pub use crate::request::{parse_request, Method, Request, ServeError};
pub use crate::response::{response_with_404, response_with_content};
pub use crate::router::{
    handle_connection, handle_get_files_request, handle_post_files_request, route, Args,
    FileCreated, FileRead, Step,
};
