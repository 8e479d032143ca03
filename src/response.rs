use vstd::prelude::*;
use vstd::utf8::{decode_utf8, encode_utf8, valid_utf8};
use crate::bytes::{
    copy_range, find_byte, lower_bytes, lowered, parse_number, spec_number, trim, trim_bounds,
};
use crate::error::Error;
use crate::fields::{Fields, entries_map, insert_entry};
use crate::text::utf8_text;

verus! {

/// Where the response's framing went wrong.
#[derive(Debug, PartialEq, Eq, Structural, Clone, Copy)]
pub enum Fault {
    /// The status line lacks a field, or its code is not a number.
    MalformedStatusLine,
    /// The status line or a header line is not valid UTF-8.
    InvalidUtf8,
    /// A chunk's size is not a hexadecimal number.
    MalformedChunkLength,
    /// The `Content-Length` value is not a decimal number.
    MalformedContentLength,
    /// The stream ended before the response did.
    UnexpectedEnd,
}

/// What part of the response the reader expects next.
#[derive(Debug, PartialEq, Eq, Structural, Clone, Copy)]
pub enum Phase {
    /// The status line.
    StatusLine,
    /// A header line, or the empty line that ends the head.
    Headers,
    /// The line that gives the next chunk's size.
    ChunkSize,
    /// This many bytes of the current chunk (at least one).
    ChunkData(usize),
    /// The line end after a chunk.
    ChunkEnd,
    /// Trailer lines after the last chunk, up to an empty line.
    Trailers,
    /// This many bytes of a body of declared length (at least one).
    Fixed(usize),
    /// The response is complete.
    Done,
    /// The response is malformed.
    Failed(Fault),
}

/// What one byte of input gave.
#[derive(Debug, PartialEq, Eq, Structural, Clone, Copy)]
pub enum Fed {
    /// Nothing yet: the byte belongs to a line still being read.
    Pending,
    /// The head is complete: status and headers can be read.
    Head,
    /// A byte of the body.
    Byte(u8),
    /// The response is complete; the byte was not needed.
    End,
    /// The response is malformed.
    Fault(Fault),
}

/// Position of the first `c` in `s`; the length of `s` when there is none.
pub open spec fn index_of(s: Seq<u8>, c: u8) -> nat
    decreases s.len(),
{
    if s.len() == 0 {
        0
    } else if s[0] == c {
        0
    } else {
        1 + index_of(s.drop_first(), c)
    }
}

proof fn lemma_index_of(s: Seq<u8>, c: u8, k: int)
    requires
        0 <= k <= s.len(),
        forall|j: int| 0 <= j < k ==> s[j] != c,
        k == s.len() || s[k] == c,
    ensures
        index_of(s, c) == k,
    decreases k,
{
    if k > 0 {
        let t = s.drop_first();
        assert forall|j: int| 0 <= j < k - 1 implies t[j] != c by {
            assert(t[j] == s[j + 1]);
        }
        lemma_index_of(t, c, k - 1);
    } else if s.len() > 0 {
        assert(s[0] == c);
    }
}

/// Position of the first `c` in `s` at or after `from`; the length of `s`
/// when there is none.
fn index_from(s: &[u8], c: u8, from: usize) -> (r: usize)
    requires
        from <= s.len(),
    ensures
        from <= r <= s.len(),
        r - from == index_of(s@.subrange(from as int, s.len() as int), c),
{
    let ghost t = s@.subrange(from as int, s.len() as int);
    match find_byte(s, c, from) {
        Some(k) => {
            proof {
                assert forall|j: int| 0 <= j < k - from implies t[j] != c by {
                    assert(t[j] == s@[j + from]);
                }
                lemma_index_of(t, c, k - from);
            }
            k
        },
        None => {
            proof {
                assert forall|j: int| 0 <= j < s.len() - from implies t[j] != c by {
                    assert(t[j] == s@[j + from]);
                }
                lemma_index_of(t, c, s.len() - from);
            }
            s.len()
        },
    }
}

/// A line without the carriage return that may end it.
pub open spec fn line_of(buf: Seq<u8>) -> Seq<u8> {
    if buf.len() > 0 && buf.last() == 13 {
        buf.drop_last()
    } else {
        buf
    }
}

/// The status line `version code reason`: the code as a number, the reason
/// as text (empty when the line has a single space).
pub open spec fn spec_status_line(l: Seq<u8>) -> Result<(i32, Seq<char>), Fault> {
    let i = index_of(l, 32);
    if !valid_utf8(l) {
        Err(Fault::InvalidUtf8)
    } else if i == l.len() {
        Err(Fault::MalformedStatusLine)
    } else {
        let rest = l.subrange(i as int + 1, l.len() as int);
        let j = index_of(rest, 32);
        let code = rest.subrange(0, j as int);
        let reason = if j < rest.len() {
            rest.subrange(j as int + 1, rest.len() as int)
        } else {
            Seq::empty()
        };
        match spec_number(code, 10) {
            Some(n) => if n > i32::MAX {
                Err(Fault::MalformedStatusLine)
            } else if !valid_utf8(reason) {
                Err(Fault::InvalidUtf8)
            } else {
                Ok((n as i32, decode_utf8(reason)))
            },
            None => Err(Fault::MalformedStatusLine),
        }
    }
}

/// A header line `Key: value`: the key with ASCII letters lower-cased, the
/// value without surrounding white space. A line without a colon is no
/// header and gives `None`.
pub open spec fn spec_header_line(l: Seq<u8>) -> Result<Option<(Seq<char>, Seq<char>)>, Fault> {
    let i = index_of(l, 58);
    if !valid_utf8(l) {
        Err(Fault::InvalidUtf8)
    } else if i == l.len() {
        Ok(None)
    } else {
        let k = lower_bytes(l.subrange(0, i as int));
        let v = trim(l.subrange(i as int + 1, l.len() as int));
        if valid_utf8(k) && valid_utf8(v) {
            Ok(Some((decode_utf8(k), decode_utf8(v))))
        } else {
            Err(Fault::InvalidUtf8)
        }
    }
}

/// A chunk-size line: a hexadecimal number, with anything from a `;` on
/// (a chunk extension) left out.
pub open spec fn spec_chunk_size(l: Seq<u8>) -> Result<usize, Fault> {
    let t = trim(l.subrange(0, index_of(l, 59) as int));
    match spec_number(t, 16) {
        Some(n) => if n <= usize::MAX {
            Ok(n as usize)
        } else {
            Err(Fault::MalformedChunkLength)
        },
        None => Err(Fault::MalformedChunkLength),
    }
}

pub open spec fn transfer_encoding_key() -> Seq<char> {
    seq!['t', 'r', 'a', 'n', 's', 'f', 'e', 'r', '-', 'e', 'n', 'c', 'o', 'd', 'i', 'n', 'g']
}

pub open spec fn chunked_word() -> Seq<char> {
    seq!['c', 'h', 'u', 'n', 'k', 'e', 'd']
}

pub open spec fn content_length_key() -> Seq<char> {
    seq!['c', 'o', 'n', 't', 'e', 'n', 't', '-', 'l', 'e', 'n', 'g', 't', 'h']
}

/// How the body is framed, from the headers: chunked when
/// `transfer-encoding` is `chunked`; else the `content-length` bytes; else
/// no body at all.
pub open spec fn spec_framing(h: Map<Seq<char>, Seq<char>>) -> Result<Phase, Fault> {
    if h.contains_key(transfer_encoding_key()) && h[transfer_encoding_key()] == chunked_word() {
        Ok(Phase::ChunkSize)
    } else if h.contains_key(content_length_key()) {
        match spec_number(encode_utf8(h[content_length_key()]), 10) {
            Some(n) => if n > usize::MAX {
                Err(Fault::MalformedContentLength)
            } else if n == 0 {
                Ok(Phase::Done)
            } else {
                Ok(Phase::Fixed(n as usize))
            },
            None => Err(Fault::MalformedContentLength),
        }
    } else {
        Ok(Phase::Done)
    }
}

/// Reads a status line.
pub fn parse_status_line(l: &[u8]) -> (r: Result<(i32, String), Fault>)
    ensures
        match r {
            Ok((code, reason)) => spec_status_line(l@) == Ok::<(i32, Seq<char>), Fault>(
                (code, reason@),
            ),
            Err(f) => spec_status_line(l@) == Err::<(i32, Seq<char>), Fault>(f),
        },
{
    if utf8_text(l).is_err() {
        return Err(Fault::InvalidUtf8);
    }
    let i = index_from(l, 32, 0);
    assert(l@.subrange(0, l@.len() as int) =~= l@);
    if i == l.len() {
        return Err(Fault::MalformedStatusLine);
    }
    let ghost rest = l@.subrange(i + 1, l@.len() as int);
    let j = index_from(l, 32, i + 1);
    assert(rest =~= l@.subrange(i + 1, l.len() as int));
    let code = copy_range(l, i + 1, j);
    assert(code@ =~= rest.subrange(0, j - i - 1));
    let reason = if j < l.len() {
        let v = copy_range(l, j + 1, l.len());
        assert(v@ =~= rest.subrange(j - i, rest.len() as int));
        v
    } else {
        let v: Vec<u8> = Vec::new();
        assert(v@ =~= Seq::<u8>::empty());
        v
    };
    match parse_number(code.as_slice(), 10) {
        Some(n) => {
            if n > 0x7fff_ffff {
                return Err(Fault::MalformedStatusLine);
            }
            match utf8_text(reason.as_slice()) {
                Ok(t) => Ok((n as i32, t.to_owned())),
                Err(_) => Err(Fault::InvalidUtf8),
            }
        },
        None => {
            proof {
                if spec_number(code@, 10) is Some {
                    assert(spec_number(code@, 10)->0 > u64::MAX);
                }
            }
            Err(Fault::MalformedStatusLine)
        },
    }
}

/// Reads a header line.
pub fn parse_header_line(l: &[u8]) -> (r: Result<Option<(String, String)>, Fault>)
    ensures
        match r {
            Ok(Some((k, v))) => spec_header_line(l@) == Ok::<
                Option<(Seq<char>, Seq<char>)>,
                Fault,
            >(Some((k@, v@))),
            Ok(None) => spec_header_line(l@) == Ok::<Option<(Seq<char>, Seq<char>)>, Fault>(None),
            Err(f) => spec_header_line(l@) == Err::<Option<(Seq<char>, Seq<char>)>, Fault>(f),
        },
{
    if utf8_text(l).is_err() {
        return Err(Fault::InvalidUtf8);
    }
    let i = index_from(l, 58, 0);
    assert(l@.subrange(0, l@.len() as int) =~= l@);
    if i == l.len() {
        return Ok(None);
    }
    let key = lowered(l, 0, i);
    let (a, b) = trim_bounds(l, i + 1, l.len());
    let value = copy_range(l, a, b);
    match utf8_text(key.as_slice()) {
        Ok(k) => match utf8_text(value.as_slice()) {
            Ok(v) => Ok(Some((k.to_owned(), v.to_owned()))),
            Err(_) => Err(Fault::InvalidUtf8),
        },
        Err(_) => Err(Fault::InvalidUtf8),
    }
}

/// Reads a chunk-size line.
pub fn parse_chunk_size(l: &[u8]) -> (r: Result<usize, Fault>)
    ensures
        r == spec_chunk_size(l@),
{
    let i = index_from(l, 59, 0);
    assert(l@.subrange(0, l@.len() as int) =~= l@);
    let (a, b) = trim_bounds(l, 0, i);
    let digits = copy_range(l, a, b);
    match parse_number(digits.as_slice(), 16) {
        Some(n) => {
            if n > usize::MAX as u64 {
                return Err(Fault::MalformedChunkLength);
            }
            Ok(n as usize)
        },
        None => {
            proof {
                if spec_number(digits@, 16) is Some {
                    assert(spec_number(digits@, 16)->0 > u64::MAX);
                }
            }
            Err(Fault::MalformedChunkLength)
        },
    }
}

/// Decides how the body is framed, from the response's headers.
pub fn body_framing(headers: &Fields) -> (r: Result<Phase, Fault>)
    ensures
        r == spec_framing(headers@),
{
    let te = "transfer-encoding";
    let cl = "content-length";
    let ch = "chunked";
    proof {
        reveal_strlit("transfer-encoding");
        reveal_strlit("content-length");
        reveal_strlit("chunked");
    }
    assert(te@ =~= transfer_encoding_key());
    assert(cl@ =~= content_length_key());
    assert(ch@ =~= chunked_word());
    if let Some(v) = headers.get(te) {
        if crate::fields::str_eq(v.as_str(), ch) {
            return Ok(Phase::ChunkSize);
        }
    }
    match headers.get(cl) {
        Some(v) => match parse_number(v.as_str().as_bytes(), 10) {
            Some(n) => {
                if n > usize::MAX as u64 {
                    Err(Fault::MalformedContentLength)
                } else if n == 0 {
                    Ok(Phase::Done)
                } else {
                    Ok(Phase::Fixed(n as usize))
                }
            },
            None => {
                proof {
                    let d = encode_utf8(v@);
                    if spec_number(d, 10) is Some {
                        assert(spec_number(d, 10)->0 > u64::MAX);
                    }
                }
                Err(Fault::MalformedContentLength)
            },
        },
        None => Ok(Phase::Done),
    }
}

/// What a response reader holds, as plain values.
pub struct ReaderView {
    pub phase: Phase,
    /// The bytes of the line being read.
    pub line: Seq<u8>,
    pub status_code: i32,
    pub reason: Seq<char>,
    pub headers: Seq<(Seq<char>, Seq<char>)>,
}

/// A reader that has seen nothing yet.
pub open spec fn initial_view() -> ReaderView {
    ReaderView {
        phase: Phase::StatusLine,
        line: Seq::empty(),
        status_code: 0,
        reason: Seq::empty(),
        headers: Seq::empty(),
    }
}

pub open spec fn fail_with(m: ReaderView, f: Fault) -> (ReaderView, Fed) {
    (ReaderView { phase: Phase::Failed(f), ..m }, Fed::Fault(f))
}

/// What a complete line `l` does to the reader (whose line buffer has
/// already been emptied).
pub open spec fn spec_on_line(m: ReaderView, l: Seq<u8>) -> (ReaderView, Fed) {
    match m.phase {
        Phase::StatusLine => match spec_status_line(l) {
            Ok((c, r)) => (
                ReaderView { phase: Phase::Headers, status_code: c, reason: r, ..m },
                Fed::Pending,
            ),
            Err(f) => fail_with(m, f),
        },
        Phase::Headers => if l.len() == 0 {
            match spec_framing(entries_map(m.headers)) {
                Ok(p) => (ReaderView { phase: p, ..m }, Fed::Head),
                Err(f) => fail_with(m, f),
            }
        } else {
            match spec_header_line(l) {
                Ok(Some((k, v))) => (
                    ReaderView { headers: insert_entry(m.headers, k, v), ..m },
                    Fed::Pending,
                ),
                Ok(None) => (m, Fed::Pending),
                Err(f) => fail_with(m, f),
            }
        },
        Phase::ChunkSize => match spec_chunk_size(l) {
            Ok(n) => if n == 0 {
                (ReaderView { phase: Phase::Trailers, ..m }, Fed::Pending)
            } else {
                (ReaderView { phase: Phase::ChunkData(n), ..m }, Fed::Pending)
            },
            Err(f) => fail_with(m, f),
        },
        Phase::ChunkEnd => (ReaderView { phase: Phase::ChunkSize, ..m }, Fed::Pending),
        Phase::Trailers => if l.len() == 0 {
            (ReaderView { phase: Phase::Done, ..m }, Fed::End)
        } else {
            (m, Fed::Pending)
        },
        _ => (m, Fed::Pending),
    }
}

/// What one byte does to the reader: in a line, it is kept until the line
/// feed that ends the line; in a body, it comes out.
pub open spec fn spec_step(m: ReaderView, b: u8) -> (ReaderView, Fed) {
    match m.phase {
        Phase::Done => (m, Fed::End),
        Phase::Failed(f) => (m, Fed::Fault(f)),
        Phase::Fixed(n) => (
            ReaderView {
                phase: if n <= 1 {
                    Phase::Done
                } else {
                    Phase::Fixed((n - 1) as usize)
                },
                ..m
            },
            Fed::Byte(b),
        ),
        Phase::ChunkData(n) => (
            ReaderView {
                phase: if n <= 1 {
                    Phase::ChunkEnd
                } else {
                    Phase::ChunkData((n - 1) as usize)
                },
                ..m
            },
            Fed::Byte(b),
        ),
        _ => if b == 10 {
            spec_on_line(ReaderView { line: Seq::empty(), ..m }, line_of(m.line))
        } else {
            (ReaderView { line: m.line.push(b), ..m }, Fed::Pending)
        },
    }
}

/// How the stream's end is taken: a complete response is fine, a malformed
/// one keeps its fault, anything else ended too early.
pub open spec fn spec_finish(m: ReaderView) -> Result<(), Fault> {
    match m.phase {
        Phase::Done => Ok(()),
        Phase::Failed(f) => Err(f),
        _ => Err(Fault::UnexpectedEnd),
    }
}

/// Reads an HTTP/1.1 response one byte at a time: status line, headers,
/// then a body of declared length or in chunks. It never asks for a byte
/// past the end of the response.
pub struct ResponseReader {
    phase: Phase,
    line: Vec<u8>,
    status_code: i32,
    reason_phrase: String,
    headers: Fields,
}

impl View for ResponseReader {
    type V = ReaderView;

    closed spec fn view(&self) -> ReaderView {
        ReaderView {
            phase: self.phase,
            line: self.line@,
            status_code: self.status_code,
            reason: self.reason_phrase@,
            headers: self.headers.entries(),
        }
    }
}

impl ResponseReader {
    /// A reader at the start of a response.
    pub fn new() -> (r: ResponseReader)
        ensures
            r@ == initial_view(),
    {
        let r = ResponseReader {
            phase: Phase::StatusLine,
            line: Vec::new(),
            status_code: 0,
            reason_phrase: String::new(),
            headers: Fields::new(),
        };
        assert(r@.line =~= Seq::<u8>::empty());
        r
    }

    fn on_line(&mut self, l: Vec<u8>) -> (r: Fed)
        requires
            old(self)@.line == Seq::<u8>::empty(),
        ensures
            (final(self)@, r) == spec_on_line(old(self)@, l@),
    {
        match self.phase {
            Phase::StatusLine => match parse_status_line(l.as_slice()) {
                Ok((c, reason)) => {
                    self.phase = Phase::Headers;
                    self.status_code = c;
                    self.reason_phrase = reason;
                    Fed::Pending
                },
                Err(f) => {
                    self.phase = Phase::Failed(f);
                    Fed::Fault(f)
                },
            },
            Phase::Headers => {
                if l.len() == 0 {
                    match body_framing(&self.headers) {
                        Ok(p) => {
                            self.phase = p;
                            Fed::Head
                        },
                        Err(f) => {
                            self.phase = Phase::Failed(f);
                            Fed::Fault(f)
                        },
                    }
                } else {
                    match parse_header_line(l.as_slice()) {
                        Ok(Some((k, v))) => {
                            let mut h = Fields::new();
                            core::mem::swap(&mut h, &mut self.headers);
                            self.headers = h.insert(k, v);
                            Fed::Pending
                        },
                        Ok(None) => Fed::Pending,
                        Err(f) => {
                            self.phase = Phase::Failed(f);
                            Fed::Fault(f)
                        },
                    }
                }
            },
            Phase::ChunkSize => match parse_chunk_size(l.as_slice()) {
                Ok(n) => {
                    if n == 0 {
                        self.phase = Phase::Trailers;
                    } else {
                        self.phase = Phase::ChunkData(n);
                    }
                    Fed::Pending
                },
                Err(f) => {
                    self.phase = Phase::Failed(f);
                    Fed::Fault(f)
                },
            },
            Phase::ChunkEnd => {
                self.phase = Phase::ChunkSize;
                Fed::Pending
            },
            Phase::Trailers => {
                if l.len() == 0 {
                    self.phase = Phase::Done;
                    Fed::End
                } else {
                    Fed::Pending
                }
            },
            _ => Fed::Pending,
        }
    }

    /// Takes the next byte of the stream.
    pub fn feed(&mut self, b: u8) -> (r: Fed)
        ensures
            (final(self)@, r) == spec_step(old(self)@, b),
    {
        match self.phase {
            Phase::Done => Fed::End,
            Phase::Failed(f) => Fed::Fault(f),
            Phase::Fixed(n) => {
                self.phase = if n <= 1 {
                    Phase::Done
                } else {
                    Phase::Fixed(n - 1)
                };
                Fed::Byte(b)
            },
            Phase::ChunkData(n) => {
                self.phase = if n <= 1 {
                    Phase::ChunkEnd
                } else {
                    Phase::ChunkData(n - 1)
                };
                Fed::Byte(b)
            },
            _ => {
                if b == 10 {
                    let mut l: Vec<u8> = Vec::new();
                    core::mem::swap(&mut l, &mut self.line);
                    if l.len() > 0 && l[l.len() - 1] == 13 {
                        l.pop();
                    }
                    assert(self@.line =~= Seq::<u8>::empty());
                    self.on_line(l)
                } else {
                    self.line.push(b);
                    Fed::Pending
                }
            },
        }
    }

    /// What the end of the stream means at this point.
    pub fn finish(&self) -> (r: Result<(), Fault>)
        ensures
            r == spec_finish(self@),
    {
        match self.phase {
            Phase::Done => Ok(()),
            Phase::Failed(f) => Err(f),
            _ => Err(Fault::UnexpectedEnd),
        }
    }

    /// Whether the response is complete.
    pub fn is_done(&self) -> (r: bool)
        ensures
            r == (self@.phase == Phase::Done),
    {
        self.phase == Phase::Done
    }

    /// The part of the response expected next.
    pub fn phase(&self) -> (r: Phase)
        ensures
            r == self@.phase,
    {
        self.phase
    }

    /// The status code; meaningful once the head is read.
    pub fn status_code(&self) -> (r: i32)
        ensures
            r == self@.status_code,
    {
        self.status_code
    }

    /// The reason phrase; meaningful once the head is read.
    pub fn reason_phrase(&self) -> (r: &String)
        ensures
            r@ == self@.reason,
    {
        &self.reason_phrase
    }

    /// The headers read so far, names lower-cased.
    pub fn headers(&self) -> (r: &Fields)
        ensures
            r.entries() == self@.headers,
    {
        &self.headers
    }
}

/// The body bytes that one output carries.
pub open spec fn emitted(f: Fed) -> Seq<u8> {
    match f {
        Fed::Byte(b) => seq![b],
        _ => Seq::empty(),
    }
}

/// The reader after taking each byte of `s` in turn, and the body bytes
/// that came out on the way.
pub open spec fn spec_run(m: ReaderView, s: Seq<u8>) -> (ReaderView, Seq<u8>)
    decreases s.len(),
{
    if s.len() == 0 {
        (m, Seq::empty())
    } else {
        let (m1, body) = spec_run(m, s.drop_last());
        let (m2, out) = spec_step(m1, s.last());
        (m2, body + emitted(out))
    }
}

/// The error of the library that a fault stands for.
pub open spec fn fault_error(f: Fault, e: Error) -> bool {
    match f {
        Fault::MalformedStatusLine => e is IoError,
        Fault::UnexpectedEnd => e is IoError,
        Fault::InvalidUtf8 => e is InvalidUtf8InResponse,
        Fault::MalformedChunkLength => e is MalformedChunkLength,
        Fault::MalformedContentLength => e is MalformedContentLength,
    }
}

/// Relies on `std::io::Error::new`: an error of kind `InvalidData` that
/// carries `msg`.
#[verifier::external_body]
fn invalid_data(msg: &'static str) -> std::io::Error {
    std::io::Error::new(std::io::ErrorKind::InvalidData, msg)
}

impl Fault {
    /// The error of the library that this fault stands for.
    pub fn into_error(self) -> (r: Error)
        ensures
            fault_error(self, r),
    {
        match self {
            Fault::MalformedStatusLine => Error::IoError(invalid_data("malformed status line")),
            Fault::UnexpectedEnd => Error::IoError(
                invalid_data("the stream ended before the response did"),
            ),
            Fault::InvalidUtf8 => Error::InvalidUtf8InResponse,
            Fault::MalformedChunkLength => Error::MalformedChunkLength,
            Fault::MalformedContentLength => Error::MalformedContentLength,
        }
    }
}

/// An HTTP response, read in full.
#[derive(Debug)]
pub struct Response {
    /// The status code of the response, eg. 404.
    pub status_code: i32,
    /// The reason phrase of the response, eg. "Not Found".
    pub reason_phrase: String,
    /// The headers of the response, names lower-cased.
    pub headers: Fields,
    body: Vec<u8>,
}

impl Response {
    pub closed spec fn body(&self) -> Seq<u8> {
        self.body@
    }

    pub closed spec fn code(&self) -> i32 {
        self.status_code
    }

    pub closed spec fn reason(&self) -> Seq<char> {
        self.reason_phrase@
    }

    pub closed spec fn header_entries(&self) -> Seq<(Seq<char>, Seq<char>)> {
        self.headers.entries()
    }

    /// Builds the response from a reader that has taken the whole stream
    /// and the body bytes that came out of it.
    pub fn create(reader: ResponseReader, body: Vec<u8>) -> (r: Result<Response, Error>)
        ensures
            r is Ok <==> spec_finish(reader@) is Ok,
            match r {
                Ok(resp) => resp.code() == reader@.status_code && resp.reason() == reader@.reason
                    && resp.header_entries() == reader@.headers && resp.body() == body@,
                Err(e) => fault_error(spec_finish(reader@)->Err_0, e),
            },
    {
        match reader.finish() {
            Ok(()) => {
                let ResponseReader { phase: _, line: _, status_code, reason_phrase, headers } =
                    reader;
                Ok(Response { status_code, reason_phrase, headers, body })
            },
            Err(f) => Err(f.into_error()),
        }
    }

    /// The body as text: fails with [`Error::InvalidUtf8InBody`] unless it
    /// is valid UTF-8 in its entirety.
    pub fn as_str(&self) -> (r: Result<&str, Error>)
        ensures
            r is Ok <==> valid_utf8(self.body()),
            match r {
                Ok(t) => t@ == decode_utf8(self.body()),
                Err(e) => e is InvalidUtf8InBody,
            },
    {
        match utf8_text(self.body.as_slice()) {
            Ok(t) => Ok(t),
            Err(e) => Err(Error::InvalidUtf8InBody(e)),
        }
    }

    /// The body's bytes.
    pub fn as_bytes(&self) -> (r: &[u8])
        ensures
            r@ == self.body(),
    {
        self.body.as_slice()
    }

    /// The body's bytes, taken out of the response.
    pub fn into_bytes(self) -> (r: Vec<u8>)
        ensures
            r@ == self.body(),
    {
        self.body
    }
}

impl Clone for Response {
    fn clone(&self) -> (r: Response)
        ensures
            r.code() == self.code(),
            r.reason() == self.reason(),
            r.header_entries() == self.header_entries(),
            r.body() == self.body(),
    {
        let mut body: Vec<u8> = Vec::new();
        let mut i: usize = 0;
        while i < self.body.len()
            invariant
                i <= self.body.len(),
                body@ == self.body@.take(i as int),
            decreases self.body.len() - i,
        {
            body.push(self.body[i]);
            i += 1;
            assert(body@ =~= self.body@.take(i as int));
        }
        assert(self.body@.take(i as int) =~= self.body@);
        Response {
            status_code: self.status_code,
            reason_phrase: self.reason_phrase.clone(),
            headers: self.headers.clone(),
            body,
        }
    }
}

/// Reads a whole response from its bytes: what a reader gives when each
/// byte is fed to it in turn and the stream then ends.
pub fn parse_response(bytes: &[u8]) -> (r: Result<Response, Error>)
    ensures
        r is Ok <==> spec_finish(spec_run(initial_view(), bytes@).0) is Ok,
        match r {
            Ok(resp) => {
                let m = spec_run(initial_view(), bytes@).0;
                &&& resp.code() == m.status_code
                &&& resp.reason() == m.reason
                &&& resp.header_entries() == m.headers
                &&& resp.body() == spec_run(initial_view(), bytes@).1
            },
            Err(e) => fault_error(spec_finish(spec_run(initial_view(), bytes@).0)->Err_0, e),
        },
{
    let mut reader = ResponseReader::new();
    let mut body: Vec<u8> = Vec::new();
    let mut i: usize = 0;
    assert(bytes@.take(0) =~= Seq::<u8>::empty());
    assert(body@ =~= Seq::<u8>::empty());
    while i < bytes.len()
        invariant
            i <= bytes.len(),
            (reader@, body@) == spec_run(initial_view(), bytes@.take(i as int)),
        decreases bytes.len() - i,
    {
        let ghost prev = body@;
        let out = reader.feed(bytes[i]);
        if let Fed::Byte(b) = out {
            body.push(b);
        }
        proof {
            let t = bytes@.take(i + 1);
            assert(t.drop_last() =~= bytes@.take(i as int));
            assert(body@ =~= prev + emitted(out));
        }
        i += 1;
    }
    assert(bytes@.take(bytes.len() as int) =~= bytes@);
    Response::create(reader, body)
}

/// A body of declared length `n` is exactly the next `n` bytes of the
/// stream: with `n` bytes or more the response is complete and the bytes
/// past them are left out; with fewer, all of them come out and the end of
/// the stream is an error, not a short success.
pub proof fn lemma_fixed_length_body(m: ReaderView, s: Seq<u8>)
    requires
        m.phase matches Phase::Fixed(n) && n > 0,
    ensures
        ({
            let n = m.phase->Fixed_0 as int;
            let (m2, body) = spec_run(m, s);
            &&& s.len() >= n ==> body == s.take(n) && m2.phase == Phase::Done
            &&& s.len() < n ==> body == s && spec_finish(m2) == Err::<(), Fault>(Fault::UnexpectedEnd)
        }),
{
    lemma_fixed_prefix(m, s, s.len() as int);
    assert(s.take(s.len() as int) =~= s);
}

proof fn lemma_fixed_prefix(m: ReaderView, s: Seq<u8>, k: int)
    requires
        m.phase matches Phase::Fixed(n) && n > 0,
        0 <= k <= s.len(),
    ensures
        ({
            let n = m.phase->Fixed_0 as int;
            let (m2, body) = spec_run(m, s.take(k));
            &&& k >= n ==> body == s.take(n) && m2.phase == Phase::Done
            &&& k < n ==> body == s.take(k) && m2.phase == Phase::Fixed((n - k) as usize)
        }),
    decreases k,
{
    let n = m.phase->Fixed_0 as int;
    if k == 0 {
        assert(s.take(0) =~= Seq::<u8>::empty());
    } else {
        lemma_fixed_prefix(m, s, k - 1);
        let t = s.take(k);
        assert(t.drop_last() =~= s.take(k - 1));
        if k - 1 < n {
            assert(s.take(k) =~= s.take(k - 1) + seq![s[k - 1]]);
        }
    }
}

/// Running over `a` then `b` is running over `a + b`.
pub proof fn lemma_run_concat(m: ReaderView, a: Seq<u8>, b: Seq<u8>)
    ensures
        spec_run(m, a + b) == ({
            let (m1, x) = spec_run(m, a);
            let (m2, y) = spec_run(m1, b);
            (m2, x + y)
        }),
    decreases b.len(),
{
    if b.len() == 0 {
        assert(a + b =~= a);
        let (m1, x) = spec_run(m, a);
        assert(x + Seq::<u8>::empty() =~= x);
    } else {
        lemma_run_concat(m, a, b.drop_last());
        assert((a + b).drop_last() =~= a + b.drop_last());
        assert((a + b).last() == b.last());
        let (m1, x) = spec_run(m, a);
        let (m2, y) = spec_run(m1, b.drop_last());
        let (m3, out) = spec_step(m2, b.last());
        assert(x + y + emitted(out) =~= x + (y + emitted(out)));
    }
}

/// A response whose headers declare `Content-Length: n` (and no chunked
/// encoding) has as body exactly the `n` bytes after the empty line that
/// ends the head; fewer bytes before the stream ends is an error.
pub proof fn lemma_content_length_response(m: ReaderView, s: Seq<u8>)
    requires
        m.phase == Phase::Headers,
        m.line.len() == 0,
        spec_framing(entries_map(m.headers)) matches Ok(Phase::Fixed(n)),
    ensures
        ({
            let n = spec_framing(entries_map(m.headers))->Ok_0->Fixed_0 as int;
            let (m2, body) = spec_run(m, seq![13u8, 10u8] + s);
            &&& s.len() >= n ==> body == s.take(n) && spec_finish(m2) == Ok::<(), Fault>(())
            &&& s.len() < n ==> body == s && spec_finish(m2) == Err::<(), Fault>(Fault::UnexpectedEnd)
        }),
{
    let head_end = seq![13u8, 10u8];
    lemma_run_concat(m, head_end, s);
    assert(seq![13u8].drop_last() =~= Seq::<u8>::empty());
    assert(spec_run(m, Seq::<u8>::empty()) == (m, Seq::<u8>::empty()));
    let (m0, x0) = spec_run(m, seq![13u8]);
    assert(x0 =~= Seq::<u8>::empty());
    assert(head_end.drop_last() =~= seq![13u8]);
    assert(m0.line =~= seq![13u8]);
    assert(line_of(m0.line) =~= Seq::<u8>::empty());
    let (m1, x) = spec_run(m, head_end);
    assert(x =~= Seq::<u8>::empty());
    lemma_fixed_length_body(m1, s);
}

} // verus!
