//! Requests and responses as plain values, and the ones this proxy sends.
use crate::text;
use vstd::prelude::*;

verus! {

/// The media type of a DNS message.
pub const DNS_MSG: &'static str = "application/dns-message";

/// Where queries are sent that no cache can answer.
pub const UPSTREAM_URL: &'static str = "https://1.1.1.1/dns-query";

/// Where a regional object is asked.
pub const REGION_URL: &'static str = "https://do/resolve";

/// The header that says when a cached reply was fetched.
pub const FETCHED_AT_HEADER: &'static str = "x-fetched-at";

// ---------------------------------------------------------------------------
// Values

/// The method of a request, as far as it matters here.
#[derive(Clone, Copy, Debug, PartialEq, Eq, Structural)]
pub enum Method {
    Get,
    Post,
    Other,
}

/// One header of a request or a response.
#[derive(Debug, PartialEq, Eq)]
pub struct Header {
    pub name: String,
    pub value: String,
}

impl View for Header {
    type V = (Seq<char>, Seq<char>);

    open spec fn view(&self) -> Self::V {
        (self.name@, self.value@)
    }
}

/// The body of a request or a response.
#[derive(Debug, PartialEq, Eq)]
pub enum Body {
    Bytes(Vec<u8>),
    Text(String),
    Html(String),
}

/// A body, as mathematics.
pub enum BodyView {
    Bytes(Seq<u8>),
    Text(Seq<char>),
    Html(Seq<char>),
}

impl View for Body {
    type V = BodyView;

    open spec fn view(&self) -> BodyView {
        match self {
            Body::Bytes(b) => BodyView::Bytes(b@),
            Body::Text(t) => BodyView::Text(t@),
            Body::Html(t) => BodyView::Html(t@),
        }
    }
}

/// The names and values of a list of headers.
pub open spec fn header_views(headers: Seq<Header>) -> Seq<(Seq<char>, Seq<char>)> {
    headers.map_values(|h: Header| h@)
}

/// A request that is about to be sent.
#[derive(Debug, PartialEq, Eq)]
pub struct RequestInit {
    pub method: Method,
    pub headers: Vec<Header>,
    pub body: Body,
}

/// A request, as mathematics.
pub struct RequestView {
    pub method: Method,
    pub headers: Seq<(Seq<char>, Seq<char>)>,
    pub body: BodyView,
}

impl View for RequestInit {
    type V = RequestView;

    open spec fn view(&self) -> RequestView {
        RequestView { method: self.method, headers: header_views(self.headers@), body: self.body@ }
    }
}

/// A response: its status, its headers in the order in which they are set, and
/// its body.
#[derive(Debug, PartialEq, Eq)]
pub struct Response {
    pub status: u16,
    pub headers: Vec<Header>,
    pub body: Body,
}

/// A response, as mathematics.
pub struct ResponseView {
    pub status: u16,
    pub headers: Seq<(Seq<char>, Seq<char>)>,
    pub body: BodyView,
}

impl View for Response {
    type V = ResponseView;

    open spec fn view(&self) -> ResponseView {
        ResponseView { status: self.status, headers: header_views(self.headers@), body: self.body@ }
    }
}

/// Sets one more header.
pub(crate) fn set_header(headers: &mut Vec<Header>, name: &str, value: String)
    ensures
        header_views(final(headers)@) == header_views(old(headers)@).push((name@, value@)),
{
    headers.push(Header { name: name.to_owned(), value });
    assert(header_views(headers@) =~= header_views(old(headers)@).push((name@, value@)));
}

// ---------------------------------------------------------------------------
// Requests

/// The request that carries a query to the upstream resolver.
pub open spec fn upstream_request(query: Seq<u8>) -> RequestView {
    RequestView {
        method: Method::Post,
        headers: seq![("accept"@, DNS_MSG@), ("content-type"@, DNS_MSG@)],
        body: BodyView::Bytes(query),
    }
}

/// The request that carries a query to the upstream resolver.
pub fn dns_post_init(query: &[u8]) -> (init: RequestInit)
    ensures
        init@ == upstream_request(query@),
{
    let mut headers: Vec<Header> = Vec::new();
    set_header(&mut headers, "accept", DNS_MSG.to_owned());
    set_header(&mut headers, "content-type", DNS_MSG.to_owned());
    let init = RequestInit {
        method: Method::Post,
        headers,
        body: Body::Bytes(vstd::slice::slice_to_vec(query)),
    };
    assert(init@.headers =~= upstream_request(query@).headers);
    init
}

/// The request that carries a query to a regional object.
pub open spec fn region_request(query: Seq<u8>) -> RequestView {
    RequestView {
        method: Method::Post,
        headers: seq![("content-type"@, DNS_MSG@)],
        body: BodyView::Bytes(query),
    }
}

/// The request that carries a query to a regional object.
pub fn region_post_init(query: &[u8]) -> (init: RequestInit)
    ensures
        init@ == region_request(query@),
{
    let mut headers: Vec<Header> = Vec::new();
    set_header(&mut headers, "content-type", DNS_MSG.to_owned());
    let init = RequestInit {
        method: Method::Post,
        headers,
        body: Body::Bytes(vstd::slice::slice_to_vec(query)),
    };
    assert(init@.headers =~= region_request(query@).headers);
    init
}

// ---------------------------------------------------------------------------
// Responses

/// A DNS message as a response.
pub open spec fn dns_reply(bytes: Seq<u8>) -> ResponseView {
    ResponseView {
        status: 200,
        headers: seq![("content-type"@, DNS_MSG@)],
        body: BodyView::Bytes(bytes),
    }
}

/// A response with one more header.
pub open spec fn with_header(r: ResponseView, name: Seq<char>, value: Seq<char>) -> ResponseView {
    ResponseView { headers: r.headers.push((name, value)), ..r }
}

/// A DNS message as a response.
pub fn dns_response(bytes: Vec<u8>) -> (response: Response)
    ensures
        response@ == dns_reply(bytes@),
{
    let mut headers: Vec<Header> = Vec::new();
    set_header(&mut headers, "content-type", DNS_MSG.to_owned());
    let response = Response { status: 200, headers, body: Body::Bytes(bytes) };
    assert(response@.headers =~= dns_reply(bytes@).headers);
    response
}

/// A response that says what went wrong.
pub open spec fn error_reply(message: Seq<char>, status: u16) -> ResponseView {
    ResponseView { status, headers: seq![], body: BodyView::Text(message) }
}

/// A response that says what went wrong.
pub fn error_response(message: String, status: u16) -> (response: Response)
    ensures
        response@ == error_reply(message@, status),
{
    let response = Response { status, headers: Vec::new(), body: Body::Text(message) };
    assert(response@.headers =~= Seq::<(Seq<char>, Seq<char>)>::empty());
    response
}

/// How long a reply may be kept, as a header value.
pub open spec fn max_age(ttl: u32) -> Seq<char> {
    "max-age="@ + text::decimal(ttl as nat)
}

/// A DNS message as a response, with the time for which it may be kept where
/// one is given.
pub open spec fn timed_reply(bytes: Seq<u8>, ttl: Option<u32>) -> ResponseView {
    match ttl {
        Some(ttl) => with_header(dns_reply(bytes), "cache-control"@, max_age(ttl)),
        None => dns_reply(bytes),
    }
}

/// A DNS message as a response, with the time for which it may be kept where
/// one is given.
pub fn build_response(bytes: Vec<u8>, ttl: Option<u32>) -> (response: Response)
    ensures
        response@ == timed_reply(bytes@, ttl),
{
    let mut response = dns_response(bytes);
    if let Some(ttl) = ttl {
        let mut value = "max-age=".to_owned();
        text::push_decimal(&mut value, ttl as u64);
        set_header(&mut response.headers, "cache-control", value);
    }
    response
}

/// What a client gets: the message, the two counts, and the tier that had it.
pub open spec fn client_reply(
    bytes: Seq<u8>,
    hits: u64,
    misses: u64,
    ttl: Option<u32>,
    tier: Seq<char>,
) -> ResponseView {
    with_header(
        with_header(
            with_header(
                timed_reply(bytes, ttl),
                "x-cache-hits"@,
                text::decimal(hits as nat),
            ),
            "x-cache-misses"@,
            text::decimal(misses as nat),
        ),
        "x-cache-tier"@,
        tier,
    )
}

/// What a client gets: the message, the two counts, and the tier that had it.
pub fn finalize(bytes: Vec<u8>, hits: u64, misses: u64, ttl: Option<u32>, tier: &str) -> (response:
    Response)
    ensures
        response@ == client_reply(bytes@, hits, misses, ttl, tier@),
{
    let mut response = build_response(bytes, ttl);
    set_header(&mut response.headers, "x-cache-hits", text::decimal_text(hits));
    set_header(&mut response.headers, "x-cache-misses", text::decimal_text(misses));
    set_header(&mut response.headers, "x-cache-tier", tier.to_owned());
    response
}

/// What a regional object answers: the message, and whether it had it.
pub open spec fn region_reply(bytes: Seq<u8>, status: Seq<char>) -> ResponseView {
    with_header(dns_reply(bytes), "x-do-status"@, status)
}

/// What a regional object answers: the message, and whether it had it.
pub fn bytes_response(bytes: Vec<u8>, status: &str) -> (response: Response)
    ensures
        response@ == region_reply(bytes@, status@),
{
    let mut response = dns_response(bytes);
    set_header(&mut response.headers, "x-do-status", status.to_owned());
    response
}

} // verus!
