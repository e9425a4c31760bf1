//! A small HTTP server: reading requests, writing responses, and handing each request
//! to the endpoint that it is for.

use crate::json::{write_json, Json};
use crate::text;
use crate::text_map;
use crate::text_map::TextMap;
use vstd::prelude::*;

verus! {

/// What can go wrong in the server.
#[derive(Debug)]
pub enum Error {
    ConnectionFailed(String),
    IOError(String),
    InvalidRequest(String),
    InvalidRequestEndpoint(String),
    InvalidEndpoint(String),
}

/// What an error says.
pub enum ErrorView {
    ConnectionFailed(Seq<char>),
    IOError(Seq<char>),
    InvalidRequest(Seq<char>),
    InvalidRequestEndpoint(Seq<char>),
    InvalidEndpoint(Seq<char>),
}

impl View for Error {
    type V = ErrorView;

    open spec fn view(&self) -> ErrorView {
        match self {
            Error::ConnectionFailed(text) => ErrorView::ConnectionFailed(text@),
            Error::IOError(text) => ErrorView::IOError(text@),
            Error::InvalidRequest(text) => ErrorView::InvalidRequest(text@),
            Error::InvalidRequestEndpoint(text) => ErrorView::InvalidRequestEndpoint(text@),
            Error::InvalidEndpoint(text) => ErrorView::InvalidEndpoint(text@),
        }
    }
}

/// The name of an error and the quoted text that comes with it.
pub open spec fn error_parts(error: ErrorView) -> (Seq<char>, Seq<char>) {
    match error {
        ErrorView::ConnectionFailed(text) => ("ConnectionFailed"@, text),
        ErrorView::IOError(text) => ("IOError"@, text),
        ErrorView::InvalidRequest(text) => ("InvalidRequest"@, text),
        ErrorView::InvalidRequestEndpoint(text) => ("InvalidRequestEndpoint"@, text),
        ErrorView::InvalidEndpoint(text) => ("InvalidEndpoint"@, text),
    }
}

/// The message for an error whose text is quoted as `quoted_text`.
pub open spec fn error_message(name: Seq<char>, quoted_text: Seq<char>) -> Seq<char> {
    "HTTP Server Error: "@ + name + "("@ + quoted_text + ")"@
}

impl Error {
    /// The message that is shown for the error.
    pub fn message(&self) -> (r: String)
        ensures
            r@ == error_message(error_parts(self@).0, text::quoted(error_parts(self@).1)),
    {
        let (name, detail) = match self {
            Error::ConnectionFailed(detail) => ("ConnectionFailed", detail),
            Error::IOError(detail) => ("IOError", detail),
            Error::InvalidRequest(detail) => ("InvalidRequest", detail),
            Error::InvalidRequestEndpoint(detail) => ("InvalidRequestEndpoint", detail),
            Error::InvalidEndpoint(detail) => ("InvalidEndpoint", detail),
        };
        format_error(name, text::quote(detail.as_str()).as_str())
    }
}

/// The message for an error with the given name and quoted text.
pub fn format_error(name: &str, quoted_text: &str) -> (r: String)
    ensures
        r@ == error_message(name@, quoted_text@),
{
    let mut r: String = "HTTP Server Error: ".to_owned();
    r.append(name);
    r.append("(");
    r.append(quoted_text);
    r.append(")");
    r
}

/// A URL with a slash at its end.
pub open spec fn relative_url(url: Seq<char>) -> Seq<char> {
    if url.len() > 0 && url.last() == '/' {
        url
    } else {
        url.push('/')
    }
}

/// Gives a relative URL the form in which endpoints are compared: with a slash at its
/// end.
pub fn format_relative_url(url: &str) -> (r: Option<String>)
    ensures
        r matches Some(formatted) && formatted@ == relative_url(url@),
{
    let length: usize = url.unicode_len();
    let mut formatted: String = url.to_owned();
    if length == 0 || url.get_char(length - 1) != '/' {
        formatted.push('/');
    }
    Some(formatted)
}

/// What the client wants done with the target.
#[derive(Clone, Copy, Debug, PartialEq, Eq, Structural)]
pub enum RequestType {
    GET,
    POST,
}

/// A request, read.
pub struct HttpRequest {
    /// Describes the meaning and desired outcome of the request, e.g. GET if the client
    /// wants a resource in return.
    pub method: RequestType,
    /// An absolute or relative URL describing the requested target (endpoint). Most of
    /// the time, this is in relative form (also called origin form), e.g. /api/success.
    pub request_target: String,
    /// The HTTP version, most of the time this is `HTTP/1.1`.
    pub protocol: String,
    /// The headers of the request containing metadata.
    pub headers: TextMap,
    /// The actual content of the request.
    pub body: String,
}

/// What a request says.
pub struct HttpRequestView {
    pub method: RequestType,
    pub request_target: Seq<char>,
    pub protocol: Seq<char>,
    pub headers: Seq<(Seq<char>, Seq<char>)>,
    pub body: Seq<char>,
}

impl View for HttpRequest {
    type V = HttpRequestView;

    open spec fn view(&self) -> HttpRequestView {
        HttpRequestView {
            method: self.method,
            request_target: self.request_target@,
            protocol: self.protocol@,
            headers: self.headers@,
            body: self.body@,
        }
    }
}

impl Clone for HttpRequest {
    fn clone(&self) -> (r: Self)
        ensures
            r@ == self@,
    {
        HttpRequest {
            method: self.method,
            request_target: self.request_target.clone(),
            protocol: self.protocol.clone(),
            headers: self.headers.clone(),
            body: self.body.clone(),
        }
    }
}

/// The number that says how a request went.
pub type StatusCode = u32;

/// A response to be written.
pub struct HttpResponse {
    pub headers: TextMap,
    pub status_code: StatusCode,
    pub body: String,
}

/// What a response says.
pub struct HttpResponseView {
    pub headers: Seq<(Seq<char>, Seq<char>)>,
    pub status_code: StatusCode,
    pub body: Seq<char>,
}

impl View for HttpResponse {
    type V = HttpResponseView;

    open spec fn view(&self) -> HttpResponseView {
        HttpResponseView {
            headers: self.headers@,
            status_code: self.status_code,
            body: self.body@,
        }
    }
}

impl Clone for HttpResponse {
    fn clone(&self) -> (r: Self)
        ensures
            r@ == self@,
    {
        HttpResponse {
            headers: self.headers.clone(),
            status_code: self.status_code,
            body: self.body.clone(),
        }
    }
}

impl HttpResponse {
    /// A response without headers and body, and without a status yet.
    pub fn new() -> (r: Self)
        ensures
            r@ == (HttpResponseView { headers: seq![], status_code: 0, body: seq![] }),
    {
        HttpResponse { headers: TextMap::new(), status_code: 0, body: String::new() }
    }

    /// The answer to a request for something that is not there.
    pub fn not_found() -> (r: Self)
        ensures
            r@ == (HttpResponseView { headers: seq![], status_code: 404, body: seq![] }),
    {
        let mut s = Self::new();
        s.status_code = 404;
        s
    }

    /// The answer to a request that went well.
    pub fn ok() -> (r: Self)
        ensures
            r@ == (HttpResponseView { headers: seq![], status_code: 200, body: seq![] }),
    {
        let mut s = Self::new();
        s.status_code = 200;
        s
    }

    /// Makes a text the body.
    pub fn text(self, body: &str) -> (r: Self)
        ensures
            r@ == (HttpResponseView { body: body@, ..self@ }),
    {
        HttpResponse { headers: self.headers, status_code: self.status_code, body: body.to_owned() }
    }

    /// Makes the JSON text of a document the body, and says so in the headers.
    pub fn json(self, content: &Json) -> (r: Self)
        ensures
            r@ == with_json(self@, crate::json::json_text(content@)),
    {
        self.json_body(write_json(content))
    }

    /// Makes a text that holds JSON the body, and says so in the headers.
    pub fn json_body(self, content: String) -> (r: Self)
        ensures
            r@ == with_json(self@, content@),
    {
        let mut headers = self.headers;
        headers.insert("Content-Type".to_owned(), "application/json".to_owned());
        HttpResponse { headers, status_code: self.status_code, body: content }
    }
}

/// A response after the given JSON text became its body.
pub open spec fn with_json(response: HttpResponseView, content: Seq<char>) -> HttpResponseView {
    HttpResponseView {
        headers: text_map::upsert(response.headers, "Content-Type"@, "application/json"@),
        status_code: response.status_code,
        body: content,
    }
}

/// The status line's words on a status code.
pub open spec fn status_message(status_code: StatusCode) -> Seq<char> {
    if status_code == 200 {
        "200 OK"@
    } else if status_code == 404 {
        "404 Not Found"@
    } else {
        "42 Misc"@
    }
}

/// The status line's words on a status code.
pub fn format_status_code_message(status_code: StatusCode) -> (r: String)
    ensures
        r@ == status_message(status_code),
{
    if status_code == 200 {
        "200 OK".to_owned()
    } else if status_code == 404 {
        "404 Not Found".to_owned()
    } else {
        "42 Misc".to_owned()
    }
}

/// The headers that lines say. A line with exactly one colon gives the text before it,
/// without blanks around it, the text after it as its value; every other line says
/// nothing.
pub open spec fn header_entries(lines: Seq<Seq<char>>) -> Seq<(Seq<char>, Seq<char>)>
    decreases lines.len(),
{
    if lines.len() == 0 {
        seq![]
    } else {
        let before = header_entries(lines.drop_last());
        let parts = text::pieces(lines.last(), ':');
        if parts.len() == 2 {
            text_map::upsert(before, text::trimmed(parts[0]), text::trimmed(parts[1]))
        } else {
            before
        }
    }
}

/// The number of leading lines that are not empty.
pub open spec fn header_count(lines: Seq<Seq<char>>) -> nat
    decreases lines.len(),
{
    if lines.len() > 0 && lines[0].len() > 0 {
        1 + header_count(lines.skip(1))
    } else {
        0
    }
}

/// What follows the empty line after the headers.
pub open spec fn body_lines(lines: Seq<Seq<char>>) -> Seq<Seq<char>> {
    if header_count(lines) < lines.len() {
        lines.skip(header_count(lines) as int + 1)
    } else {
        seq![]
    }
}

/// The method that a word names.
pub open spec fn method_of(word: Seq<char>) -> Option<RequestType> {
    if word == "GET"@ {
        Some(RequestType::GET)
    } else if word == "POST"@ {
        Some(RequestType::POST)
    } else {
        None
    }
}

/// The request that a text says: a line with method, target and protocol, the header
/// lines, an empty line, and the body. Where it says none, the reason.
pub open spec fn parsed_request(content: Seq<char>) -> Result<HttpRequestView, Seq<char>> {
    let lines = text::lines(content);
    if lines.len() == 0 {
        Err("Empty request"@)
    } else {
        let start = text::words(lines[0]);
        let rest = lines.skip(1);
        if start.len() == 0 {
            Err("Missing HTTP method"@)
        } else if method_of(start[0]) is None {
            Err("Unsupported HTTP method: "@ + start[0])
        } else if start.len() == 1 {
            Err("Missing request target"@)
        } else if start.len() == 2 {
            Err("Missing HTTP protocol"@)
        } else {
            Ok(
                HttpRequestView {
                    method: method_of(start[0])->0,
                    request_target: start[1],
                    protocol: start[2],
                    headers: header_entries(rest.take(header_count(rest) as int)),
                    body: text::joined(body_lines(rest), seq!['\n']),
                },
            )
        }
    }
}

proof fn lemma_header_count(lines: Seq<Seq<char>>)
    ensures
        header_count(lines) <= lines.len(),
        forall|i: int| 0 <= i < header_count(lines) ==> (#[trigger] lines[i]).len() > 0,
        header_count(lines) < lines.len() ==> lines[header_count(lines) as int].len() == 0,
    decreases lines.len(),
{
    if lines.len() > 0 && lines[0].len() > 0 {
        let rest = lines.skip(1);
        lemma_header_count(rest);
        assert forall|i: int| 0 <= i < header_count(lines) implies (
        #[trigger] lines[i]).len() > 0 by {
            if i > 0 {
                assert(lines[i] == rest[i - 1]);
            }
        }
        if header_count(lines) < lines.len() {
            assert(lines[header_count(lines) as int] == rest[header_count(rest) as int]);
        }
    }
}

/// A number of leading lines at which the first empty line comes is the header count.
pub proof fn lemma_header_count_is(lines: Seq<Seq<char>>, n: int)
    requires
        0 <= n <= lines.len(),
        forall|i: int| 0 <= i < n ==> (#[trigger] lines[i]).len() > 0,
        n < lines.len() ==> lines[n].len() == 0,
    ensures
        header_count(lines) == n,
{
    lemma_header_count(lines);
    let k = header_count(lines) as int;
    if k < n {
        assert(lines[k].len() > 0);
    } else if n < k {
        assert(lines[n].len() > 0);
    }
}

fn invalid_request<T>(reason: &str) -> (r: Result<T, Error>)
    ensures
        r matches Err(error) && error@ == ErrorView::InvalidRequest(reason@),
{
    Err(Error::InvalidRequest(reason.to_owned()))
}

/// Parses a raw HTTP request string into an `HttpRequest`.
pub fn parse_http_request(content: &str) -> (r: Result<HttpRequest, Error>)
    ensures
        match parsed_request(content@) {
            Ok(request) => r matches Ok(read) && read@ == request,
            Err(reason) => r matches Err(error) && error@ == ErrorView::InvalidRequest(reason),
        },
{
    let chars = text::chars_of(content);
    let lines = text::split_lines(&chars);
    let ghost all = text::lines(content@);
    // parse the start line
    if lines.len() == 0 {
        return invalid_request("Empty request");
    }
    let start = text::split_words(&lines[0]);
    let ghost start_words = text::words(all[0]);
    assert(lines@[0]@ == all[0]);
    if start.len() == 0 {
        return invalid_request("Missing HTTP method");
    }
    assert(start@[0]@ == start_words[0]);
    let method = if text::same_chars(&start[0], "GET") {
        RequestType::GET
    } else if text::same_chars(&start[0], "POST") {
        RequestType::POST
    } else {
        let reason = "Unsupported HTTP method: ".to_owned().concat(text::text_of(&start[0]).as_str());
        return invalid_request(reason.as_str());
    };
    if start.len() == 1 {
        return invalid_request("Missing request target");
    }
    let request_target = text::text_of(&start[1]);
    assert(start@[1]@ == start_words[1]);
    if start.len() == 2 {
        return invalid_request("Missing HTTP protocol");
    }
    let protocol = text::text_of(&start[2]);
    assert(start@[2]@ == start_words[2]);
    // parse the headers
    let ghost rest = all.skip(1);
    let mut headers = TextMap::new();
    let mut i: usize = 1;
    assert(rest.take(0) == Seq::<Seq<char>>::empty());
    while i < lines.len() && lines[i].len() > 0
        invariant
            1 <= i <= lines.len(),
            all == text::texts(lines@),
            rest == all.skip(1),
            forall|j: int| 0 <= j < i - 1 ==> (#[trigger] rest[j]).len() > 0,
            headers@ == header_entries(rest.take(i - 1)),
        decreases lines.len() - i,
    {
        let parts = text::split(&lines[i], ':');
        proof {
            assert(rest.take(i as int).drop_last() == rest.take(i - 1));
            assert(rest.take(i as int).last() == lines@[i as int]@);
            assert(text::texts(parts@) == text::pieces(rest.take(i as int).last(), ':'));
        }
        // a header with another number of colons is weird
        if parts.len() == 2 {
            assert(text::texts(parts@)[0] == parts@[0]@);
            assert(text::texts(parts@)[1] == parts@[1]@);
            let key = text::text_of(&text::trim(&parts[0]));
            let value = text::text_of(&text::trim(&parts[1]));
            headers.insert(key, value);
        }
        i = i + 1;
    }
    proof {
        if i < lines.len() {
            assert(rest[i - 1] == lines@[i as int]@);
        }
        lemma_header_count_is(rest, i - 1);
    }
    // body
    let from: usize = if i < lines.len() {
        i + 1
    } else {
        i
    };
    let body = text::join(&lines, from, '\n');
    assert(all.skip(from as int) == body_lines(rest));
    Ok(HttpRequest { method, request_target, protocol, headers, body })
}

/// The number of bytes that a text takes in UTF-8.
pub open spec fn byte_length(s: Seq<char>) -> nat {
    vstd::utf8::encode_utf8(s).len()
}

/// The lines that headers are written as.
pub open spec fn header_text(headers: Seq<(Seq<char>, Seq<char>)>) -> Seq<char>
    decreases headers.len(),
{
    if headers.len() == 0 {
        seq![]
    } else {
        header_text(headers.drop_last()) + headers.last().0 + ": "@ + headers.last().1 + "\r\n"@
    }
}

/// The line that gives the length of the body, where no header does.
pub open spec fn length_text(response: HttpResponseView) -> Seq<char> {
    if text_map::has_key(response.headers, "Content-Length"@) {
        seq![]
    } else {
        "Content-Length: "@ + text::decimal(byte_length(response.body)) + "\r\n"@
    }
}

/// The text that a response is sent as.
pub open spec fn response_text(response: HttpResponseView) -> Seq<char> {
    "HTTP/1.1 "@ + status_message(response.status_code) + "\r\n"@ + header_text(response.headers)
        + length_text(response) + "\r\n"@ + response.body
}

/// Formats the HTTP response as a string ready for transmission. The headers come in the
/// order in which they were set.
pub fn format_http_response(response: HttpResponse) -> (r: Result<String, Error>)
    ensures
        r matches Ok(formatted) && formatted@ == response_text(response@),
{
    let mut formatted: String = "HTTP/1.1 ".to_owned();
    formatted.append(format_status_code_message(response.status_code).as_str());
    formatted.append("\r\n");
    let ghost start = formatted@;
    // headers
    let mut i: usize = 0;
    assert(start + header_text(response.headers@.take(0)) == start);
    while i < response.headers.len()
        invariant
            i <= response.headers@.len(),
            formatted@ == start + header_text(response.headers@.take(i as int)),
        decreases response.headers@.len() - i,
    {
        let ghost before = formatted@;
        let ghost shown = response.headers@.take(i + 1);
        formatted.append(response.headers.key(i).as_str());
        formatted.append(": ");
        formatted.append(response.headers.value(i).as_str());
        formatted.append("\r\n");
        proof {
            assert(shown.drop_last() == response.headers@.take(i as int));
            assert(formatted@ == start + header_text(shown));
        }
        i = i + 1;
    }
    assert(response.headers@.take(i as int) == response.headers@);
    if !response.headers.contains_key("Content-Length") {
        formatted.append("Content-Length: ");
        let length: usize = response.body.as_str().as_bytes().len();
        formatted.append(text::decimal_text(length as u64).as_str());
        formatted.append("\r\n");
    }
    assert(formatted@ == start + header_text(response.headers@) + length_text(response@));
    // body
    formatted.append("\r\n");
    formatted.append(response.body.as_str());
    Ok(formatted)
}

/// The number of bytes of a connection that are read for a request.
pub const REQUEST_BUFFER_SIZE: usize = 1000;

/// Reads a request from the bytes that came in.
pub fn read_http_request(bytes: &[u8]) -> (r: Result<HttpRequest, Error>)
    ensures
        match parsed_request(text::utf8_lossy(bytes@)) {
            Ok(request) => r matches Ok(read) && read@ == request,
            Err(reason) => r matches Err(error) && error@ == ErrorView::InvalidRequest(reason),
        },
        vstd::utf8::valid_utf8(bytes@) ==> text::utf8_lossy(bytes@) == vstd::utf8::decode_utf8(
            bytes@,
        ),
{
    let content = text::lossy_text(bytes);
    parse_http_request(content.as_str())
}

/// What a server keeps from request to request.
pub trait ServerContext: Sized {
    /// The server is to stop after the current response.
    spec fn terminates(&self) -> bool;

    fn should_terminate_server(&self) -> (r: bool)
        ensures
            r == self.terminates(),
    ;
}

/// What answers the requests to an endpoint.
pub trait Callback<T>: Sized {
    /// The callback may answer `request` with `response` and turn the context from
    /// `before` into `after`.
    spec fn answers(
        &self,
        request: HttpRequestView,
        before: T,
        after: T,
        response: HttpResponseView,
    ) -> bool;

    fn call(&self, request: HttpRequest, context: &mut T) -> (response: HttpResponse)
        ensures
            self.answers(request@, *old(context), *final(context), response@),
    ;
}

/// What answers the requests to no endpoint.
pub trait ElseCallback: Sized {
    /// The callback may answer `request` with `response`.
    spec fn answers_else(&self, request: HttpRequestView, response: HttpResponseView) -> bool;

    fn call_else(&self, request: HttpRequest) -> (response: HttpResponse)
        ensures
            self.answers_else(request@, response@),
    ;
}

/// The endpoints of a server, each with what answers it.
pub struct Handles<C> {
    entries: Vec<(String, C)>,
}

impl<C> View for Handles<C> {
    type V = Seq<(Seq<char>, C)>;

    closed spec fn view(&self) -> Seq<(Seq<char>, C)> {
        self.entries@.map_values(|entry: (String, C)| (entry.0@, entry.1))
    }
}

impl<C> Handles<C> {
    /// No endpoint occurs twice.
    #[verifier::type_invariant]
    pub closed spec fn endpoints_are_distinct(self) -> bool {
        text_map::distinct_keys(self@)
    }

    /// No endpoints.
    pub fn new() -> (r: Self)
        ensures
            r@ == Seq::<(Seq<char>, C)>::empty(),
    {
        Handles { entries: Vec::new() }
    }

    /// The place of the endpoint for a target, or the number of endpoints where there is
    /// none.
    fn find(&self, target: &String) -> (r: usize)
        ensures
            r == text_map::key_position(self@, target@),
            r <= self@.len(),
    {
        let mut i: usize = 0;
        while i < self.entries.len() && !self.entries[i].0.eq(target)
            invariant
                i <= self.entries.len(),
                forall|j: int| 0 <= j < i ==> (#[trigger] self@[j]).0 != target@,
            decreases self.entries.len() - i,
        {
            i = i + 1;
        }
        proof {
            text_map::lemma_key_position_is(self@, target@, i as int);
        }
        i
    }

    /// What answers requests for a target.
    pub fn get(&self, target: &String) -> (r: Option<&C>)
        ensures
            match r {
                Some(callback) => text_map::lookup(self@, target@) == Some(*callback),
                None => text_map::lookup(self@, target@) is None,
            },
    {
        let i: usize = self.find(target);
        if i < self.entries.len() {
            Some(&self.entries[i].1)
        } else {
            None
        }
    }

    /// These endpoints, with the given one answered by `callback`.
    pub fn with(self, target: String, callback: C) -> (r: Self)
        ensures
            r@ == text_map::upsert(self@, target@, callback),
            text_map::distinct_keys(r@),
    {
        proof {
            use_type_invariant(&self);
            text_map::law_upsert(self@, target@, callback, target@);
        }
        let i: usize = self.find(&target);
        let ghost before = self@;
        let mut entries = self.entries;
        if i < entries.len() {
            entries.set(i, (target, callback));
        } else {
            entries.push((target, callback));
        }
        proof {
            let after = entries@.map_values(|entry: (String, C)| (entry.0@, entry.1));
            assert(after == text_map::upsert(before, target@, callback));
        }
        Handles { entries }
    }
}

/// A server: its endpoints, what answers every other request, and its context.
pub struct Server<T: ServerContext, C: Callback<T>, E: ElseCallback> {
    pub handles: Handles<C>,
    pub else_handle: Option<E>,
    pub context: T,
}

/// What happens at the server's door.
pub enum ServerEvent {
    /// A client could not be connected, for the given reason.
    ConnectionFailed(String),
    /// A connected client could not be read from or written to, for the given reason.
    IOFailed(String),
    /// A client sent these bytes.
    Received(Vec<u8>),
}

/// What the server does about a request: it sends a text back, and may then stop.
pub struct ServerStep {
    pub request: HttpRequest,
    pub response: String,
    pub finished: bool,
}

/// A request with its target in the form in which endpoints are compared.
pub open spec fn normalized(request: HttpRequestView) -> HttpRequestView {
    HttpRequestView { request_target: relative_url(request.request_target), ..request }
}

/// What a request without a matching endpoint may be answered.
pub open spec fn else_answer<E: ElseCallback>(
    else_handle: Option<E>,
    request: HttpRequestView,
    response: HttpResponseView,
) -> bool {
    match else_handle {
        Some(callback) => callback.answers_else(request, response),
        None => response == (HttpResponseView { headers: seq![], status_code: 404, body: seq![] }),
    }
}

impl<T: ServerContext, C: Callback<T>, E: ElseCallback> Server<T, C, E> {
    /// The endpoints with what answers each.
    pub open spec fn routes(&self) -> Seq<(Seq<char>, C)> {
        self.handles@
    }

    /// What answers every other request, where it was set.
    pub open spec fn fallback(&self) -> Option<E> {
        self.else_handle
    }

    /// What `request` may be answered, and what the context may become.
    pub open spec fn responds(
        &self,
        request: HttpRequestView,
        after: T,
        response: HttpResponseView,
    ) -> bool {
        match text_map::lookup(self.routes(), request.request_target) {
            Some(callback) => callback.answers(request, self.context, after, response),
            None => after == self.context && else_answer(self.fallback(), request, response),
        }
    }

    /// A server without endpoints, which finds nothing.
    pub fn new(context: T) -> (r: Self)
        ensures
            r.routes() == Seq::<(Seq<char>, C)>::empty(),
            r.fallback() is None,
            r.context == context,
    {
        Server { handles: Handles::new(), else_handle: None, context }
    }

    /// Set handle for a specific endpoint.
    pub fn with_endpoint(self, target: &str, callback: C) -> (r: Result<Self, Error>)
        ensures
            r matches Ok(server) && {
                &&& server.routes() == text_map::upsert(
                    self.routes(),
                    relative_url(target@),
                    callback,
                )
                &&& text_map::distinct_keys(server.routes())
                &&& server.fallback() == self.fallback()
                &&& server.context == self.context
            },
    {
        let key = match format_relative_url(target) {
            Some(key) => key,
            None => {
                return Err(Error::InvalidEndpoint(target.to_owned()));
            },
        };
        let handles = self.handles.with(key, callback);
        Ok(Server { handles, else_handle: self.else_handle, context: self.context })
    }

    /// Set handle which is called when the endpoint is not recognized.
    pub fn with_else_handle(self, handle: E) -> (r: Self)
        ensures
            r.routes() == self.routes(),
            r.fallback() == Some(handle),
            r.context == self.context,
    {
        Server { handles: self.handles, else_handle: Some(handle), context: self.context }
    }

    /// Reads a request from the bytes that came in, with its target in the form in which
    /// endpoints are compared.
    pub fn receive(bytes: &[u8]) -> (r: Result<HttpRequest, Error>)
        ensures
            match parsed_request(text::utf8_lossy(bytes@)) {
                Ok(request) => r matches Ok(read) && read@ == normalized(request),
                Err(reason) => r matches Err(error) && error@ == ErrorView::InvalidRequest(reason),
            },
    {
        match read_http_request(bytes) {
            Ok(request) => {
                let request_target = match format_relative_url(request.request_target.as_str()) {
                    Some(request_target) => request_target,
                    None => {
                        return Err(Error::InvalidRequestEndpoint(request.request_target));
                    },
                };
                Ok(
                    HttpRequest {
                        method: request.method,
                        request_target,
                        protocol: request.protocol,
                        headers: request.headers,
                        body: request.body,
                    },
                )
            },
            Err(error) => Err(error),
        }
    }

    /// Hands a request to the endpoint that it is for, or to what answers every other
    /// request.
    pub fn dispatch(&mut self, request: HttpRequest) -> (response: HttpResponse)
        ensures
            old(self).responds(request@, final(self).context, response@),
            final(self).routes() == old(self).routes(),
            final(self).fallback() == old(self).fallback(),
    {
        match self.handles.get(&request.request_target) {
            Some(callback) => callback.call(request, &mut self.context),
            None => match &self.else_handle {
                Some(callback) => callback.call_else(request),
                None => HttpResponse::not_found(),
            },
        }
    }

    /// Takes one turn of the server. A failure, or bytes that are no request, ends it with
    /// the error; otherwise the request is answered, and the server stops after the
    /// response where its context then says so.
    pub fn step(&mut self, event: ServerEvent) -> (r: Result<ServerStep, Error>)
        ensures
            final(self).routes() == old(self).routes(),
            final(self).fallback() == old(self).fallback(),
            match event {
                ServerEvent::ConnectionFailed(reason) => {
                    &&& r matches Err(error)
                    &&& error@ == ErrorView::ConnectionFailed(reason@)
                    &&& final(self).context == old(self).context
                },
                ServerEvent::IOFailed(reason) => {
                    &&& r matches Err(error)
                    &&& error@ == ErrorView::IOError(reason@)
                    &&& final(self).context == old(self).context
                },
                ServerEvent::Received(bytes) => match parsed_request(text::utf8_lossy(bytes@)) {
                    Ok(request) => r matches Ok(step) && {
                        &&& step.request@ == normalized(request)
                        &&& exists|response: HttpResponseView| #[trigger]
                            old(self).responds(
                                normalized(request),
                                final(self).context,
                                response,
                            ) && step.response@ == response_text(response)
                        &&& step.finished == final(self).context.terminates()
                    },
                    Err(reason) => {
                        &&& r matches Err(error)
                        &&& error@ == ErrorView::InvalidRequest(reason)
                        &&& final(self).context == old(self).context
                    },
                },
            },
    {
        match event {
            ServerEvent::ConnectionFailed(reason) => Err(Error::ConnectionFailed(reason)),
            ServerEvent::IOFailed(reason) => Err(Error::IOError(reason)),
            ServerEvent::Received(bytes) => {
                let request = match Self::receive(bytes.as_slice()) {
                    Ok(request) => request,
                    Err(error) => {
                        return Err(error);
                    },
                };
                let response = self.dispatch(request.clone());
                match format_http_response(response) {
                    Ok(text) => Ok(
                        ServerStep {
                            request,
                            response: text,
                            finished: self.context.should_terminate_server(),
                        },
                    ),
                    Err(error) => Err(error),
                }
            },
        }
    }
}

} // verus!
