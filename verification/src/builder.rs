//! The sync client: the requests it sends to the build service and how it
//! reads the replies.

use vstd::prelude::*;
use crate::configs::{Project, Vtex};
use crate::json::{
    json_at, json_parse, json_shape_at, required_text, take_required_text, JsonProbe, JsonShape,
};
use crate::routes::{route_url, Routes};
use crate::text::{decimal, json_escaped, push_decimal, push_json_escaped, str_eq};

verus! {

/// One changed file, as the relink operation wants it.
#[derive(Debug, Clone)]
pub struct RelinkBody {
    pub content: String,
    pub byte_size: usize,
    pub path: String,
}

/// The JSON object for one changed file: content and path as JSON strings,
/// the size as a number.
pub open spec fn relink_json(content: Seq<char>, byte_size: nat, path: Seq<char>) -> Seq<char> {
    "{\"content\":\""@ + json_escaped(content) + "\",\"byteSize\":"@ + decimal(byte_size)
        + ",\"path\":\""@ + json_escaped(path) + "\"}"@
}

/// The batch envelope around one changed file.
pub open spec fn relink_batch(content: Seq<char>, byte_size: nat, path: Seq<char>) -> Seq<char> {
    "["@ + relink_json(content, byte_size, path) + "]"@
}

impl RelinkBody {
    /// The JSON object for this file.
    pub fn to_string(&self) -> (r: String)
        ensures
            r@ == relink_json(self.content@, self.byte_size as nat, self.path@),
    {
        let mut out = String::from_str("{\"content\":\"");
        push_json_escaped(&mut out, self.content.as_str());
        out.append("\",\"byteSize\":");
        push_decimal(&mut out, self.byte_size);
        out.append(",\"path\":\"");
        push_json_escaped(&mut out, self.path.as_str());
        out.append("\"}");
        out
    }

    /// The request body for this file: the JSON object inside a batch
    /// envelope.
    pub fn to_batch(&self) -> (r: String)
        ensures
            r@ == relink_batch(self.content@, self.byte_size as nat, self.path@),
    {
        let mut out = String::from_str("[");
        let inner = self.to_string();
        out.append(inner.as_str());
        out.append("]");
        out
    }
}

/// The HTTP methods in use.
#[derive(Debug, Clone, Copy, PartialEq, Eq, Structural)]
pub enum Method {
    Post,
    Put,
}

/// One request header.
#[derive(Debug, Clone)]
pub struct Header {
    pub name: String,
    pub value: String,
}

impl View for Header {
    type V = (Seq<char>, Seq<char>);

    open spec fn view(&self) -> (Seq<char>, Seq<char>) {
        (self.name@, self.value@)
    }
}

/// The views of a list of headers.
pub open spec fn headers_view(headers: Seq<Header>) -> Seq<(Seq<char>, Seq<char>)> {
    headers.map_values(|h: Header| h@)
}

/// What a request carries.
#[derive(Debug, Clone)]
pub enum Body {
    Empty,
    Text(String),
    Binary(Vec<u8>),
}

/// `Body` as contracts see it.
pub enum BodyView {
    Empty,
    Text(Seq<char>),
    Binary(Seq<u8>),
}

impl View for Body {
    type V = BodyView;

    open spec fn view(&self) -> BodyView {
        match self {
            Body::Empty => BodyView::Empty,
            Body::Text(s) => BodyView::Text(s@),
            Body::Binary(b) => BodyView::Binary(b@),
        }
    }
}

/// A request ready to be sent. Where a header name occurs twice, the later
/// entry is the one that counts.
#[derive(Debug, Clone)]
pub struct SyncRequest {
    pub method: Method,
    pub url: String,
    pub headers: Vec<Header>,
    pub body: Body,
}

/// The headers that every request of one run carries.
#[derive(Debug, Clone)]
pub struct Client {
    pub headers: Vec<Header>,
}

/// The name of the header that carries the route.
pub open spec fn sticky_header_name() -> Seq<char> {
    "x-vtex-sticky-host"@
}

/// The two headers that sign a request: the bearer token and what is
/// accepted in reply.
pub open spec fn signing_headers(token: Seq<char>) -> Seq<(Seq<char>, Seq<char>)> {
    seq![
        ("authorization"@, "Bearer "@ + token),
        ("accept"@, "application/json, text/plain, */*"@),
    ]
}

/// The headers of a client that knows its route.
pub open spec fn routed_headers(token: Seq<char>, host: Seq<char>) -> Seq<(Seq<char>, Seq<char>)> {
    seq![(sticky_header_name(), host)] + signing_headers(token)
}

/// The value that identifies an availability probe.
pub open spec fn probe_tag(project: Project, env: Vtex) -> Seq<char> {
    "request:"@ + env.account@ + ":"@ + env.workspace@ + ":"@ + project.vendor@ + "."@
        + project.name@ + "@"@ + project.version@
}

/// The body that asks for the build cache to be dropped.
pub open spec fn clean_body() -> Seq<char> {
    "{\"headers\": {\"Content-Type\": \"application/json\"},\"metric\": \"bh-clean\"}"@
}

/// Makes one header.
pub fn header(name: &str, value: &str) -> (r: Header)
    ensures
        r@ == (name@, value@),
{
    Header { name: String::from_str(name), value: String::from_str(value) }
}

/// A copy of a list of headers.
pub fn copy_headers(headers: &Vec<Header>) -> (r: Vec<Header>)
    ensures
        headers_view(r@) == headers_view(headers@),
{
    let mut out: Vec<Header> = Vec::new();
    let mut i: usize = 0;
    while i < headers.len()
        invariant
            i <= headers.len(),
            out.len() == i,
            forall|j: int| 0 <= j < i ==> out@[j]@ == headers@[j]@,
        decreases headers.len() - i,
    {
        let h = &headers[i];
        out.push(Header { name: h.name.clone(), value: h.value.clone() });
        i += 1;
    }
    assert(headers_view(out@) =~= headers_view(headers@));
    out
}

/// Appends the two signing headers.
fn push_signing(headers: &mut Vec<Header>, token: &str)
    ensures
        headers_view(final(headers)@) == headers_view(old(headers)@) + signing_headers(token@),
{
    let mut bearer = String::from_str("Bearer ");
    bearer.append(token);
    headers.push(Header { name: String::from_str("authorization"), value: bearer });
    headers.push(header("accept", "application/json, text/plain, */*"));
    assert(headers_view(headers@) =~= headers_view(old(headers)@) + signing_headers(token@));
}

/// A client that signs with `token` and knows no route yet.
pub fn new(token: &str) -> (r: Client)
    ensures
        headers_view(r.headers@) == signing_headers(token@),
{
    let mut headers: Vec<Header> = Vec::new();
    push_signing(&mut headers, token);
    assert(headers_view(Seq::<Header>::empty()) =~= Seq::empty());
    assert(Seq::<(Seq<char>, Seq<char>)>::empty() + signing_headers(token@) =~= signing_headers(
        token@,
    ));
    Client { headers }
}

/// A client that carries `headers` and signs with `token`. The signing
/// headers come last, so they count over any of the same name in `headers`.
pub fn new_with_headers(token: &str, headers: &Vec<Header>) -> (r: Client)
    ensures
        headers_view(r.headers@) == headers_view(headers@) + signing_headers(token@),
{
    let mut all = copy_headers(headers);
    push_signing(&mut all, token);
    Client { headers: all }
}

/// A client that signs with `token` and sends every request to `host`.
pub fn routed(token: &str, host: &str) -> (r: Client)
    ensures
        headers_view(r.headers@) == routed_headers(token@, host@),
{
    let mut headers: Vec<Header> = Vec::new();
    headers.push(header("x-vtex-sticky-host", host));
    assert(headers_view(headers@) =~= seq![(sticky_header_name(), host@)]);
    push_signing(&mut headers, token);
    Client { headers }
}

/// The request that asks for the build cache to be dropped.
pub fn clean(client: &Client, project: &Project, env: &Vtex) -> (r: SyncRequest)
    ensures
        r.method == Method::Post,
        r.url@ == route_url(Routes::Clean, *project, *env),
        headers_view(r.headers@) == headers_view(client.headers@) + seq![
            ("accept-encoding"@, "gzip"@),
            ("content-type"@, "application/json"@),
        ],
        r.body@ == BodyView::Text(clean_body()),
{
    let mut headers = copy_headers(&client.headers);
    let ghost before = headers@;
    headers.push(header("accept-encoding", "gzip"));
    headers.push(header("content-type", "application/json"));
    assert(headers_view(headers@) =~= headers_view(before) + seq![
        ("accept-encoding"@, "gzip"@),
        ("content-type"@, "application/json"@),
    ]);
    SyncRequest {
        method: Method::Post,
        url: Routes::assemble(Routes::Clean, project, env),
        headers,
        body: Body::Text(
            String::from_str(
                "{\"headers\": {\"Content-Type\": \"application/json\"},\"metric\": \"bh-clean\"}",
            ),
        ),
    }
}

/// The request that sends the whole project as one archive.
pub fn link(client: &Client, project: &Project, env: &Vtex, file: Vec<u8>) -> (r: SyncRequest)
    ensures
        r.method == Method::Post,
        r.url@ == route_url(Routes::Link, *project, *env),
        headers_view(r.headers@) == headers_view(client.headers@) + seq![
            ("accept-encoding"@, "gzip"@),
            ("content-type"@, "application/octet-stream"@),
            ("content-length"@, decimal(file@.len())),
        ],
        r.body@ == BodyView::Binary(file@),
{
    let mut headers = copy_headers(&client.headers);
    let ghost before = headers@;
    headers.push(header("accept-encoding", "gzip"));
    headers.push(header("content-type", "application/octet-stream"));
    let mut length = String::new();
    push_decimal(&mut length, file.len());
    assert(length@ =~= decimal(file@.len()));
    headers.push(Header { name: String::from_str("content-length"), value: length });
    assert(headers_view(headers@) =~= headers_view(before) + seq![
        ("accept-encoding"@, "gzip"@),
        ("content-type"@, "application/octet-stream"@),
        ("content-length"@, decimal(file@.len())),
    ]);
    SyncRequest {
        method: Method::Post,
        url: Routes::assemble(Routes::Link, project, env),
        headers,
        body: Body::Binary(file),
    }
}

/// The request that sends one changed file.
pub fn relink(client: &Client, project: &Project, env: &Vtex, body: RelinkBody) -> (r:
    SyncRequest)
    ensures
        r.method == Method::Put,
        r.url@ == route_url(Routes::Relink, *project, *env),
        headers_view(r.headers@) == headers_view(client.headers@) + seq![
            ("accept-encoding"@, "gzip"@),
            ("content-type"@, "application/json"@),
        ],
        r.body@ == BodyView::Text(relink_batch(body.content@, body.byte_size as nat, body.path@)),
{
    let mut headers = copy_headers(&client.headers);
    let ghost before = headers@;
    headers.push(header("accept-encoding", "gzip"));
    headers.push(header("content-type", "application/json"));
    assert(headers_view(headers@) =~= headers_view(before) + seq![
        ("accept-encoding"@, "gzip"@),
        ("content-type"@, "application/json"@),
    ]);
    SyncRequest {
        method: Method::Put,
        url: Routes::assemble(Routes::Relink, project, env),
        headers,
        body: Body::Text(body.to_batch()),
    }
}

/// The request that asks which host serves this project and workspace. It
/// is signed, carries the probe tag where later requests carry the route,
/// and has no body.
pub fn availability(project: &Project, env: &Vtex) -> (r: SyncRequest)
    ensures
        r.method == Method::Post,
        r.url@ == route_url(Routes::Availability, *project, *env),
        headers_view(r.headers@) == signing_headers(env.token@) + seq![
            (sticky_header_name(), probe_tag(*project, *env)),
        ],
        r.body@ == BodyView::Empty,
{
    let client = new(env.token.as_str());
    let mut headers = client.headers;
    let ghost before = headers@;
    let mut tag = String::from_str("request:");
    tag.append(env.account.as_str());
    tag.append(":");
    tag.append(env.workspace.as_str());
    tag.append(":");
    tag.append(project.vendor.as_str());
    tag.append(".");
    tag.append(project.name.as_str());
    tag.append("@");
    tag.append(project.version.as_str());
    assert(tag@ == probe_tag(*project, *env));
    headers.push(Header { name: String::from_str("x-vtex-sticky-host"), value: tag });
    assert(headers_view(headers@) =~= headers_view(before) + seq![
        (sticky_header_name(), probe_tag(*project, *env)),
    ]);
    SyncRequest {
        method: Method::Post,
        url: Routes::assemble(Routes::Availability, project, env),
        headers,
        body: Body::Empty,
    }
}

/// A request built from the client of a resolved route carries that route
/// in its first header, whatever the operation adds behind it.
pub proof fn lemma_requests_carry_route(
    token: Seq<char>,
    host: Seq<char>,
    added: Seq<(Seq<char>, Seq<char>)>,
)
    ensures
        (routed_headers(token, host) + added)[0] == (sticky_header_name(), host),
        (routed_headers(token, host) + added).len() == 3 + added.len(),
{
}

/// What came back for a request.
#[derive(Debug, Clone)]
pub enum Reply {
    /// The service answered.
    Response { status: u16, body: String },
    /// No answer: connection failure, timeout, TLS error.
    Failure(String),
}

/// How a request ended.
#[derive(Debug, Clone)]
pub enum Outcome {
    Success,
    /// The service failed; the same request may work later.
    Retryable { code: String, message: String },
    /// The service refused. `on_production` marks the refusal of a sync
    /// into a production workspace.
    Rejected { code: String, message: String, on_production: bool },
    /// No answer was received.
    TransportError(String),
}

/// `Outcome` as contracts see it.
pub enum OutcomeView {
    Success,
    Retryable { code: Seq<char>, message: Seq<char> },
    Rejected { code: Seq<char>, message: Seq<char>, on_production: bool },
    TransportError(Seq<char>),
}

impl View for Outcome {
    type V = OutcomeView;

    open spec fn view(&self) -> OutcomeView {
        match self {
            Outcome::Success => OutcomeView::Success,
            Outcome::Retryable { code, message } => OutcomeView::Retryable {
                code: code@,
                message: message@,
            },
            Outcome::Rejected { code, message, on_production } => OutcomeView::Rejected {
                code: code@,
                message: message@,
                on_production: *on_production,
            },
            Outcome::TransportError(e) => OutcomeView::TransportError(e@),
        }
    }
}

/// Code and message of an error body. A body that does not give both as
/// strings counts as a message without a code.
pub open spec fn error_parts(body: Seq<char>, code: JsonShape, message: JsonShape) -> (
    Seq<char>,
    Seq<char>,
) {
    if required_text(code) is Some && required_text(message) is Some {
        (required_text(code)->0, required_text(message)->0)
    } else {
        (Seq::empty(), body)
    }
}

/// The outcome for a status and an error body, given what the body holds at
/// `code` and at `message`: 2xx is success, 5xx can be tried again, every
/// other status is a refusal.
pub open spec fn outcome_of(status: u16, body: Seq<char>, code: JsonShape, message: JsonShape) -> OutcomeView {
    if 200 <= status <= 299 {
        OutcomeView::Success
    } else {
        let parts = error_parts(body, code, message);
        if 500 <= status <= 599 {
            OutcomeView::Retryable { code: parts.0, message: parts.1 }
        } else {
            OutcomeView::Rejected {
                code: parts.0,
                message: parts.1,
                on_production: parts.0 == "link_on_production"@,
            }
        }
    }
}

/// The outcome for a reply.
pub open spec fn reply_outcome(reply: Reply) -> OutcomeView {
    match reply {
        Reply::Failure(e) => OutcomeView::TransportError(e@),
        Reply::Response { status, body } => outcome_of(
            status,
            body@,
            json_shape_at(body@, "/code"@),
            json_shape_at(body@, "/message"@),
        ),
    }
}

/// The outcome for a status and an error body, given what the body holds at
/// `code` and at `message`.
pub fn classify_status(status: u16, body: String, code: JsonProbe, message: JsonProbe) -> (r:
    Outcome)
    ensures
        r@ == outcome_of(status, body@, code@, message@),
{
    if 200 <= status && status <= 299 {
        return Outcome::Success;
    }
    let parts: (String, String) = match take_required_text(code) {
        Some(c) => match take_required_text(message) {
            Some(m) => (c, m),
            None => (String::new(), body),
        },
        None => (String::new(), body),
    };
    assert((parts.0@, parts.1@) == error_parts(body@, code@, message@));
    if 500 <= status && status <= 599 {
        Outcome::Retryable { code: parts.0, message: parts.1 }
    } else {
        let on_production = str_eq(parts.0.as_str(), "link_on_production");
        Outcome::Rejected { code: parts.0, message: parts.1, on_production }
    }
}

/// The outcome for a reply. One function serves all operations.
pub fn classify_reply(reply: Reply) -> (r: Outcome)
    ensures
        r@ == reply_outcome(reply),
{
    match reply {
        Reply::Failure(e) => Outcome::TransportError(e),
        Reply::Response { status, body } => {
            if 200 <= status && status <= 299 {
                return Outcome::Success;
            }
            match json_parse(body.as_str()) {
                Ok(doc) => {
                    let code = json_at(&doc, "/code");
                    let message = json_at(&doc, "/message");
                    classify_status(status, body, code, message)
                },
                Err(_) => classify_status(
                    status,
                    body,
                    JsonProbe::Malformed,
                    JsonProbe::Malformed,
                ),
            }
        },
    }
}

/// Whether the orchestrator may send the same request again.
pub fn may_retry(outcome: &Outcome) -> (r: bool)
    ensures
        r == (outcome@ is Retryable),
{
    match outcome {
        Outcome::Retryable { .. } => true,
        _ => false,
    }
}

} // verus!
