//! A small HTTP/1.1 GET client: URL decomposition and request serialization,
//! response framing (fixed length and chunked), redirect following with loop
//! and hop-limit detection, and read deadlines. Sockets live outside this
//! crate; everything here works on plain values and is verified.

mod bytes;
mod connection;
mod deadline;
mod error;
mod fields;
mod request;
mod response;
mod text;
mod url;

pub use bytes::parse_number;
pub use connection::{Connection, get_redirect};
pub use deadline::{NANOS_PER_SEC, ReadBudget, deadline_at, read_budget};
pub use error::Error;
pub use fields::Fields;
pub use request::{Request, get};
pub use response::{
    Fault, Fed, Phase, Response, ResponseReader, body_framing, parse_chunk_size,
    parse_header_line, parse_response, parse_status_line,
};
pub use url::{URL, parse_url};
