//! Reading one HTTP request: a request line, header lines up to an empty
//! line, and a body of the declared length.
//!
//! The connection is read by the caller, a line or a body at a time; what
//! each piece means is decided here. `parse_req` does the same over a whole
//! input held in memory.

use vstd::prelude::*;
use vstd::slice::slice_subrange;
use vstd::string::*;
use vstd::utf8::*;
use crate::headers::{field_model, header_value, headers_model, spec_header_value, FieldModel};
use crate::number::{parse_usize, spec_parse_usize, IntErrorKind};
use crate::space::{after_first_token, first_token, next_token, trim, trimmed};
use crate::text::{
    append_bytes, bytes_eq, find_byte, index_of_byte, lemma_ascii_is_utf8, lemma_digits_ascii,
    numeral, spec_numeral, string_of, to_ascii_uppercase, upper,
};
use crate::utf8::{
    lemma_cut_after_ascii, lemma_utf8_fault_unique, str_from_utf8, substr, utf8_fault_of,
    Utf8Fault,
};

verus! {

/// The most bytes that the request line and the header lines may take
/// together.
pub const MAX_HEADER: usize = 8192;

/// The longest body accepted, in bytes: 100 KiB.
pub const MAX_BODY: usize = 102_400;

/// A request as read from a connection.
#[derive(Debug, Clone, PartialEq, Eq)]
pub struct HttpRequest {
    /// `GET` or `POST`, in upper case.
    pub method: String,
    /// The path as sent: the second token of the request line, untouched.
    pub path: String,
    /// The header fields in the order sent, names and values trimmed.
    pub headers: Vec<(String, String)>,
    /// The body.
    pub body: String,
}

/// Why no request could be read.
#[derive(Debug, Clone, PartialEq, Eq)]
pub enum ReqParseError {
    /// The input ended, or the header region was used up, before the
    /// headers were complete.
    ConnectionClosed,
    /// The method is neither `GET` nor `POST`.
    InvalidMethod,
    /// The request line has fewer than two tokens.
    InvalidReqLine,
    /// Reading failed; the text describes how.
    IoError(String),
    /// The declared body length is over `MAX_BODY`.
    OversizedBody,
    /// The `Content-Length` value is not a number that fits.
    ParseIntError(IntErrorKind),
    /// The body is not UTF-8.
    Utf8Error(Utf8Fault),
}

/// The model of a request: every text as its bytes.
pub struct RequestModel {
    pub method: Seq<u8>,
    pub path: Seq<u8>,
    pub headers: Seq<FieldModel>,
    pub body: Seq<u8>,
}

/// The model of an error: the description of an I/O failure as its bytes.
pub enum ErrorModel {
    ConnectionClosed,
    InvalidMethod,
    InvalidReqLine,
    IoError(Seq<u8>),
    OversizedBody,
    ParseIntError(IntErrorKind),
    Utf8Error(Utf8Fault),
}

impl View for HttpRequest {
    type V = RequestModel;

    open spec fn view(&self) -> RequestModel {
        RequestModel {
            method: encode_utf8(self.method@),
            path: encode_utf8(self.path@),
            headers: headers_model(self.headers@),
            body: encode_utf8(self.body@),
        }
    }
}

impl View for ReqParseError {
    type V = ErrorModel;

    open spec fn view(&self) -> ErrorModel {
        match self {
            ReqParseError::ConnectionClosed => ErrorModel::ConnectionClosed,
            ReqParseError::InvalidMethod => ErrorModel::InvalidMethod,
            ReqParseError::InvalidReqLine => ErrorModel::InvalidReqLine,
            ReqParseError::IoError(text) => ErrorModel::IoError(encode_utf8(text@)),
            ReqParseError::OversizedBody => ErrorModel::OversizedBody,
            ReqParseError::ParseIntError(kind) => ErrorModel::ParseIntError(*kind),
            ReqParseError::Utf8Error(fault) => ErrorModel::Utf8Error(*fault),
        }
    }
}

/// What is known once the request line is read, and while header lines
/// are read.
pub struct RequestHead {
    method: String,
    path: String,
    headers: Vec<(String, String)>,
    budget: usize,
}

/// The model of a `RequestHead`: `budget` is what is left of the header
/// region.
pub struct HeadModel {
    pub method: Seq<u8>,
    pub path: Seq<u8>,
    pub headers: Seq<FieldModel>,
    pub budget: nat,
}

impl View for RequestHead {
    type V = HeadModel;

    closed spec fn view(&self) -> HeadModel {
        HeadModel {
            method: encode_utf8(self.method@),
            path: encode_utf8(self.path@),
            headers: headers_model(self.headers@),
            budget: self.budget as nat,
        }
    }
}

/// A request whose headers are complete and whose body is still to come.
pub struct PendingBody {
    method: String,
    path: String,
    headers: Vec<(String, String)>,
    len: usize,
}

/// The model of a `PendingBody`: `len` is the declared body length.
pub struct PendingModel {
    pub method: Seq<u8>,
    pub path: Seq<u8>,
    pub headers: Seq<FieldModel>,
    pub len: nat,
}

impl View for PendingBody {
    type V = PendingModel;

    closed spec fn view(&self) -> PendingModel {
        PendingModel {
            method: encode_utf8(self.method@),
            path: encode_utf8(self.path@),
            headers: headers_model(self.headers@),
            len: self.len as nat,
        }
    }
}

/// What follows a header line.
pub enum HeaderStep {
    /// Another header line is to be read.
    More(RequestHead),
    /// The headers are complete; the body is to be read.
    Body(PendingBody),
}

/// The model of a `HeaderStep`.
pub enum StepModel {
    More(HeadModel),
    Body(PendingModel),
}

impl View for HeaderStep {
    type V = StepModel;

    open spec fn view(&self) -> StepModel {
        match self {
            HeaderStep::More(head) => StepModel::More(head@),
            HeaderStep::Body(pending) => StepModel::Body(pending@),
        }
    }
}

/// What a header line says.
pub enum LineModel {
    /// The empty line that ends the headers.
    End,
    /// A line without a colon, which is passed over.
    Ignored,
    /// A field: its name and its value.
    Field(Seq<u8>, Seq<u8>),
}

/// The description of a line that is not UTF-8.
pub open spec fn invalid_data_text() -> Seq<u8> {
    "stream did not contain valid UTF-8".spec_bytes()
}

/// The description of a body that ends early.
pub open spec fn short_read_text() -> Seq<u8> {
    "failed to fill whole buffer".spec_bytes()
}

/// `line` as far as the header region reaches: its first `limit` bytes.
pub open spec fn capped(line: Seq<u8>, limit: nat) -> Seq<u8> {
    if line.len() > limit {
        line.take(limit as int)
    } else {
        line
    }
}

/// The method and the path of a request line. An empty line means that
/// nothing could be read. The method is the first token in upper case and
/// must be `GET` or `POST`; the path is the second token as it stands.
pub open spec fn spec_request_line(line: Seq<u8>) -> Result<(Seq<u8>, Seq<u8>), ErrorModel> {
    if line.len() == 0 {
        Err(ErrorModel::ConnectionClosed)
    } else if !valid_utf8(line) {
        Err(ErrorModel::IoError(invalid_data_text()))
    } else {
        let method = upper(first_token(line));
        let path = first_token(after_first_token(line));
        if path.len() == 0 {
            Err(ErrorModel::InvalidReqLine)
        } else if method != "GET".spec_bytes() && method != "POST".spec_bytes() {
            Err(ErrorModel::InvalidMethod)
        } else {
            Ok((method, path))
        }
    }
}

/// What a header line says. An empty line means that nothing could be
/// read. The line `\r\n` ends the headers. Any other line is cut at its
/// first colon into a name and a value, both trimmed; without a colon it is
/// passed over.
pub open spec fn spec_header_line(line: Seq<u8>) -> Result<LineModel, ErrorModel> {
    if line.len() == 0 {
        Err(ErrorModel::ConnectionClosed)
    } else if !valid_utf8(line) {
        Err(ErrorModel::IoError(invalid_data_text()))
    } else if line == seq![0x0Du8, 0x0Au8] {
        Ok(LineModel::End)
    } else {
        let colon = find_byte(line, 0x3A, 0);
        if colon >= line.len() {
            Ok(LineModel::Ignored)
        } else {
            Ok(LineModel::Field(trimmed(line.take(colon)), trimmed(line.skip(colon + 1))))
        }
    }
}

/// The body length that the headers declare: the first `Content-Length`
/// field read as a number, 0 without such a field.
pub open spec fn spec_body_length(headers: Seq<FieldModel>) -> Result<nat, ErrorModel> {
    let text = match spec_header_value(headers, "Content-Length".spec_bytes(), 0) {
        Some(value) => value,
        None => "0".spec_bytes(),
    };
    match spec_parse_usize(text) {
        Err(kind) => Err(ErrorModel::ParseIntError(kind)),
        Ok(len) => if len > MAX_BODY {
            Err(ErrorModel::OversizedBody)
        } else {
            Ok(len)
        },
    }
}

/// The state after the request line `line`.
pub open spec fn spec_parse_request_line(line: Seq<u8>) -> Result<HeadModel, ErrorModel> {
    let line = capped(line, MAX_HEADER as nat);
    match spec_request_line(line) {
        Err(e) => Err(e),
        Ok((method, path)) => Ok(
            HeadModel {
                method,
                path,
                headers: Seq::empty(),
                budget: (MAX_HEADER - line.len()) as nat,
            },
        ),
    }
}

/// The state after the header line `line`, read in state `head`.
pub open spec fn spec_parse_header_line(head: HeadModel, line: Seq<u8>) -> Result<
    StepModel,
    ErrorModel,
> {
    let line = capped(line, head.budget);
    let budget = (head.budget - line.len()) as nat;
    match spec_header_line(line) {
        Err(e) => Err(e),
        Ok(LineModel::End) => match spec_body_length(head.headers) {
            Err(e) => Err(e),
            Ok(len) => Ok(
                StepModel::Body(
                    PendingModel {
                        method: head.method,
                        path: head.path,
                        headers: head.headers,
                        len,
                    },
                ),
            ),
        },
        Ok(LineModel::Ignored) => Ok(StepModel::More(HeadModel { budget, ..head })),
        Ok(LineModel::Field(name, value)) => {
            let headers = head.headers.push((name, value));
            Ok(StepModel::More(HeadModel { headers, budget, ..head }))
        },
    }
}

/// The request once the body is there: `available` is what could be read,
/// of which the first `len` bytes are the body. Fewer bytes are a failed
/// read; a body that is not UTF-8 is refused.
pub open spec fn spec_finish(pending: PendingModel, available: Seq<u8>) -> Result<
    RequestModel,
    ErrorModel,
> {
    let body = available.take(pending.len as int);
    if available.len() < pending.len {
        Err(ErrorModel::IoError(short_read_text()))
    } else if !valid_utf8(body) {
        Err(ErrorModel::Utf8Error(utf8_fault_of(body)))
    } else {
        Ok(
            RequestModel {
                method: pending.method,
                path: pending.path,
                headers: pending.headers,
                body,
            },
        )
    }
}

/// The line that a read of at most `limit` bytes yields at `pos`: up to and
/// with the next line feed, or all there is.
pub open spec fn line_at(input: Seq<u8>, pos: int, limit: nat) -> Seq<u8> {
    let rest = capped(input.skip(pos), limit);
    let feed = find_byte(rest, 0x0A, 0);
    if feed < rest.len() {
        rest.take(feed + 1)
    } else {
        rest
    }
}

/// Reads header lines of `input` from `pos` on, starting in state `head`,
/// then the body.
pub open spec fn spec_read_headers(input: Seq<u8>, pos: int, head: HeadModel) -> Result<
    RequestModel,
    ErrorModel,
>
    decreases head.budget,
{
    let line = line_at(input, pos, head.budget);
    match spec_parse_header_line(head, line) {
        Err(e) => Err(e),
        Ok(StepModel::Body(pending)) => spec_finish(pending, input.skip(pos + line.len())),
        Ok(StepModel::More(next)) => spec_read_headers(input, pos + line.len(), next),
    }
}

/// The request that `input` holds, read as a connection that sends `input`
/// and then closes.
pub open spec fn spec_parse_req(input: Seq<u8>) -> Result<RequestModel, ErrorModel> {
    let line = line_at(input, 0, MAX_HEADER as nat);
    match spec_parse_request_line(line) {
        Err(e) => Err(e),
        Ok(head) => spec_read_headers(input, line.len() as int, head),
    }
}

/// A parse result and its model agree.
pub open spec fn agrees<T: View, E: View>(got: Result<T, E>, model: Result<T::V, E::V>) -> bool {
    match got {
        Ok(value) => model == Ok::<T::V, E::V>(value@),
        Err(e) => model == Err::<T::V, E::V>(e@),
    }
}

impl RequestHead {
    /// The most bytes that the next header line may have.
    pub fn line_limit(&self) -> (limit: usize)
        ensures
            limit == self@.budget,
    {
        self.budget
    }
}

impl PendingBody {
    /// The declared length of the body, in bytes.
    pub fn body_len(&self) -> (len: usize)
        ensures
            len == self@.len,
            len <= MAX_BODY,
    {
        proof {
            use_type_invariant(self);
        }
        self.len
    }

    #[verifier::type_invariant]
    spec fn bounded(&self) -> bool {
        self.len <= MAX_BODY
    }
}

/// The first `limit` bytes of `line`, or all of it.
fn cap<'a>(line: &'a [u8], limit: usize) -> (out: &'a [u8])
    ensures
        out@ == capped(line@, limit as nat),
        out.len() <= limit,
{
    if line.len() > limit {
        slice_subrange(line, 0, limit)
    } else {
        line
    }
}

/// The error for a line that is not UTF-8.
fn invalid_data() -> (e: ReqParseError)
    ensures
        e@ == ErrorModel::IoError(invalid_data_text()),
{
    ReqParseError::IoError("stream did not contain valid UTF-8".to_owned())
}

/// Reads the request line. `line` is what a read of at most `MAX_HEADER`
/// bytes gave, up to and with its line feed; bytes beyond that limit are
/// not looked at.
pub fn parse_request_line(line: &[u8]) -> (out: Result<RequestHead, ReqParseError>)
    ensures
        agrees(out, spec_parse_request_line(line@)),
{
    let line = cap(line, MAX_HEADER);
    if line.len() == 0 {
        return Err(ReqParseError::ConnectionClosed);
    }
    let text = match str_from_utf8(line) {
        Ok(text) => text,
        Err(_) => {
            return Err(invalid_data());
        },
    };
    let (first, rest) = next_token(text);
    let (path, _) = next_token(rest);
    if path.as_bytes().len() == 0 {
        return Err(ReqParseError::InvalidReqLine);
    }
    let method = to_ascii_uppercase(first.as_bytes());
    let name = if bytes_eq(method.as_slice(), "GET".as_bytes()) {
        "GET"
    } else if bytes_eq(method.as_slice(), "POST".as_bytes()) {
        "POST"
    } else {
        return Err(ReqParseError::InvalidMethod);
    };
    let headers: Vec<(String, String)> = Vec::new();
    proof {
        assert(headers_model(headers@) == Seq::<FieldModel>::empty());
    }
    Ok(
        RequestHead {
            method: name.to_owned(),
            path: path.to_owned(),
            headers,
            budget: MAX_HEADER - line.len(),
        },
    )
}

/// The body length that `headers` declare.
fn body_length(headers: &[(String, String)]) -> (out: Result<usize, ReqParseError>)
    ensures
        match out {
            Ok(len) => spec_body_length(headers_model(headers@)) == Ok::<nat, ErrorModel>(
                len as nat,
            ) && len <= MAX_BODY,
            Err(e) => spec_body_length(headers_model(headers@)) == Err::<nat, ErrorModel>(e@),
        },
{
    let declared = match header_value(headers, "Content-Length") {
        Some(value) => value,
        None => "0",
    };
    match parse_usize(declared.as_bytes()) {
        Err(kind) => Err(ReqParseError::ParseIntError(kind)),
        Ok(len) => if len > MAX_BODY {
            Err(ReqParseError::OversizedBody)
        } else {
            Ok(len)
        },
    }
}

/// Reads a header line in state `head`. `line` is what a read of at most
/// `head.line_limit()` bytes gave, up to and with its line feed; bytes
/// beyond that limit are not looked at.
pub fn parse_header_line(head: RequestHead, line: &[u8]) -> (out: Result<HeaderStep, ReqParseError>)
    ensures
        agrees(out, spec_parse_header_line(head@, line@)),
{
    let RequestHead { method, path, mut headers, budget } = head;
    let line = cap(line, budget);
    if line.len() == 0 {
        return Err(ReqParseError::ConnectionClosed);
    }
    let text = match str_from_utf8(line) {
        Ok(text) => text,
        Err(_) => {
            return Err(invalid_data());
        },
    };
    if line.len() == 2 && line[0] == 0x0D && line[1] == 0x0A {
        proof {
            assert(line@ == seq![0x0Du8, 0x0Au8]);
        }
        return match body_length(headers.as_slice()) {
            Err(e) => Err(e),
            Ok(len) => Ok(HeaderStep::Body(PendingBody { method, path, headers, len })),
        };
    }
    let budget = budget - line.len();
    let colon = index_of_byte(line, 0x3A, 0);
    if colon >= line.len() {
        return Ok(HeaderStep::More(RequestHead { method, path, headers, budget }));
    }
    proof {
        lemma_cut_after_ascii(line@, colon as int);
    }
    let name = trim(substr(text, 0, colon));
    let value = trim(substr(text, colon + 1, line.len()));
    let ghost before = headers@;
    let field = (name.to_owned(), value.to_owned());
    headers.push(field);
    proof {
        assert(line@.subrange(0, colon as int) == line@.take(colon as int));
        assert(line@.subrange(colon + 1, line.len() as int) == line@.skip(colon + 1));
        assert(headers_model(headers@) == headers_model(before).push(field_model(field)));
    }
    Ok(HeaderStep::More(RequestHead { method, path, headers, budget }))
}

/// Completes the request with its body. `available` is what could be read
/// of the body: its first `pending.body_len()` bytes are the body.
pub fn finish(pending: PendingBody, available: &[u8]) -> (out: Result<HttpRequest, ReqParseError>)
    ensures
        agrees(out, spec_finish(pending@, available@)),
{
    let PendingBody { method, path, headers, len } = pending;
    if available.len() < len {
        return Err(ReqParseError::IoError("failed to fill whole buffer".to_owned()));
    }
    let body = slice_subrange(available, 0, len);
    match str_from_utf8(body) {
        Ok(text) => Ok(HttpRequest { method, path, headers, body: text.to_owned() }),
        Err(fault) => {
            proof {
                lemma_utf8_fault_unique(body@, fault);
            }
            Err(ReqParseError::Utf8Error(fault))
        },
    }
}

/// The line at `pos`, read with at most `limit` bytes.
fn read_line<'a>(input: &'a [u8], pos: usize, limit: usize) -> (line: &'a [u8])
    requires
        pos <= input.len(),
    ensures
        line@ == line_at(input@, pos as int, limit as nat),
        pos + line.len() <= input.len(),
{
    let available = input.len() - pos;
    let span = if available > limit {
        limit
    } else {
        available
    };
    let rest = slice_subrange(input, pos, pos + span);
    proof {
        assert(rest@ == capped(input@.skip(pos as int), limit as nat));
    }
    let feed = index_of_byte(rest, 0x0A, 0);
    if feed < rest.len() {
        slice_subrange(rest, 0, feed + 1)
    } else {
        rest
    }
}

/// Reads a request from `input`, taken as all that the connection sends
/// before it closes.
pub fn parse_req(input: &[u8]) -> (out: Result<HttpRequest, ReqParseError>)
    ensures
        agrees(out, spec_parse_req(input@)),
{
    let first = read_line(input, 0, MAX_HEADER);
    let mut head = match parse_request_line(first) {
        Ok(head) => head,
        Err(e) => {
            return Err(e);
        },
    };
    let mut pos = first.len();
    loop
        invariant
            pos <= input.len(),
            spec_parse_req(input@) == spec_read_headers(input@, pos as int, head@),
        decreases head@.budget,
    {
        let line = read_line(input, pos, head.line_limit());
        pos += line.len();
        match parse_header_line(head, line) {
            Err(e) => {
                return Err(e);
            },
            Ok(HeaderStep::Body(pending)) => {
                return finish(pending, slice_subrange(input, pos, input.len()));
            },
            Ok(HeaderStep::More(next)) => {
                head = next;
            },
        }
    }
}

/// The description of a number that could not be read.
pub open spec fn int_error_text(kind: IntErrorKind) -> Seq<u8> {
    match kind {
        IntErrorKind::Empty => "cannot parse integer from empty string".spec_bytes(),
        IntErrorKind::InvalidDigit => "invalid digit found in string".spec_bytes(),
        IntErrorKind::PosOverflow => "number too large to fit in target type".spec_bytes(),
    }
}

/// The description of a body that is not UTF-8.
pub open spec fn utf8_fault_text(fault: Utf8Fault) -> Seq<u8> {
    match fault.error_len {
        Some(len) => "invalid utf-8 sequence of ".spec_bytes() + spec_numeral(len as nat, 10)
            + " bytes from index ".spec_bytes() + spec_numeral(fault.valid_up_to as nat, 10),
        None => "incomplete utf-8 byte sequence from index ".spec_bytes() + spec_numeral(
            fault.valid_up_to as nat,
            10,
        ),
    }
}

/// The description of an error, as sent in the body of the response to it.
pub open spec fn spec_message(e: ErrorModel) -> Seq<u8> {
    match e {
        ErrorModel::ConnectionClosed => "Connection closed by client".spec_bytes(),
        ErrorModel::InvalidMethod => "Invalid HTTP method".spec_bytes(),
        ErrorModel::InvalidReqLine => "Invalid request line".spec_bytes(),
        ErrorModel::IoError(text) => text,
        ErrorModel::OversizedBody => "Request body is too large".spec_bytes(),
        ErrorModel::ParseIntError(kind) => int_error_text(kind),
        ErrorModel::Utf8Error(fault) => utf8_fault_text(fault),
    }
}

/// Describes a body that is not UTF-8.
fn describe_fault(fault: Utf8Fault) -> (text: String)
    ensures
        encode_utf8(text@) == utf8_fault_text(fault),
{
    let mut out: Vec<u8> = Vec::new();
    let index = numeral(fault.valid_up_to as u64, 10);
    match fault.error_len {
        Some(len) => {
            let count = numeral(len as u64, 10);
            let first = "invalid utf-8 sequence of ";
            let second = " bytes from index ";
            append_bytes(&mut out, first.as_bytes());
            append_bytes(&mut out, count.as_slice());
            append_bytes(&mut out, second.as_bytes());
            append_bytes(&mut out, index.as_slice());
            proof {
                lemma_digits_ascii(len as nat, 10);
                lemma_digits_ascii(fault.valid_up_to as nat, 10);
                lemma_ascii_is_utf8(count@);
                lemma_ascii_is_utf8(index@);
                encode_utf8_valid_utf8(first@);
                encode_utf8_valid_utf8(second@);
                valid_utf8_concat(first.spec_bytes(), count@);
                valid_utf8_concat(first.spec_bytes() + count@, second.spec_bytes());
                valid_utf8_concat(first.spec_bytes() + count@ + second.spec_bytes(), index@);
            }
        },
        None => {
            let first = "incomplete utf-8 byte sequence from index ";
            append_bytes(&mut out, first.as_bytes());
            append_bytes(&mut out, index.as_slice());
            proof {
                lemma_digits_ascii(fault.valid_up_to as nat, 10);
                lemma_ascii_is_utf8(index@);
                encode_utf8_valid_utf8(first@);
                valid_utf8_concat(first.spec_bytes(), index@);
            }
        },
    }
    string_of(out.as_slice())
}

impl ReqParseError {
    /// The description of the error.
    pub fn message(&self) -> (text: String)
        ensures
            encode_utf8(text@) == spec_message(self@),
    {
        match self {
            ReqParseError::ConnectionClosed => "Connection closed by client".to_owned(),
            ReqParseError::InvalidMethod => "Invalid HTTP method".to_owned(),
            ReqParseError::InvalidReqLine => "Invalid request line".to_owned(),
            ReqParseError::IoError(text) => text.clone(),
            ReqParseError::OversizedBody => "Request body is too large".to_owned(),
            ReqParseError::ParseIntError(kind) => match kind {
                IntErrorKind::Empty => "cannot parse integer from empty string".to_owned(),
                IntErrorKind::InvalidDigit => "invalid digit found in string".to_owned(),
                IntErrorKind::PosOverflow => "number too large to fit in target type".to_owned(),
            },
            ReqParseError::Utf8Error(fault) => describe_fault(*fault),
        }
    }
}

} // verus!
