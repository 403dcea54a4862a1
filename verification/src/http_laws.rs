//! What requests, responses and written numbers hold, told by what a reader of
//! them finds.
use crate::http;
use crate::http::{Body, Header, RequestInit, Response};
use crate::text;
use vstd::prelude::*;

verus! {

// ---------------------------------------------------------------------------
// Numbers

/// The number that a text of digits says.
pub open spec fn number(s: Seq<char>) -> int
    decreases s.len(),
{
    if s.len() == 0 {
        0
    } else {
        number(s.drop_last()) * 10 + (s.last() as int - '0' as int)
    }
}

/// Whether a text says the number `n`: digits alone, and no zero in front of
/// others.
pub open spec fn reads_as(s: Seq<char>, n: int) -> bool {
    &&& s.len() > 0
    &&& forall|i: int| 0 <= i < s.len() ==> '0' <= #[trigger] s[i] <= '9'
    &&& s.len() > 1 ==> s[0] != '0'
    &&& number(s) == n
}

pub(crate) proof fn lemma_reads_back(n: nat)
    ensures
        reads_as(text::decimal(n), n as int),
        n > 0 ==> text::decimal(n)[0] != '0',
    decreases n,
{
    let s = text::decimal(n);
    text::lemma_decimal_digits(n);
    if n < 10 {
        assert(s.drop_last() =~= seq![]);
        assert(number(s.drop_last()) == 0);
        assert(s.last() as int == 0x30 + n);
    } else {
        lemma_reads_back(n / 10);
        assert(s.drop_last() =~= text::decimal(n / 10));
        assert(s.last() == text::digit(n % 10));
        assert(s[0] == text::decimal(n / 10)[0]);
        assert forall|i: int| 0 <= i < s.len() implies '0' <= #[trigger] s[i] <= '9' by {
            assert(0x30 <= s[i] <= 0x39);
        }
    }
}

/// A number is written so that it reads back.
pub proof fn law_numbers_read_back(n: u64, s: String)
    requires
        call_ensures(text::decimal_text, (n,), s),
    ensures
        reads_as(s@, n as int),
{
    lemma_reads_back(n as nat);
}

/// Whether a text is a word and a number behind it.
pub open spec fn says(s: Seq<char>, word: Seq<char>, n: int) -> bool {
    exists|digits: Seq<char>| s == word + digits && #[trigger] reads_as(digits, n)
}

pub(crate) proof fn lemma_says(word: Seq<char>, n: nat)
    ensures
        says(word + text::decimal(n), word, n as int),
{
    lemma_reads_back(n);
    assert(reads_as(text::decimal(n), n as int));
}

/// A text says one number at most behind a word.
pub(crate) proof fn lemma_says_one(s: Seq<char>, word: Seq<char>, a: int, b: int)
    requires
        says(s, word, a),
        says(s, word, b),
    ensures
        a == b,
{
    let x = choose|digits: Seq<char>| s == word + digits && #[trigger] reads_as(digits, a);
    let y = choose|digits: Seq<char>| s == word + digits && #[trigger] reads_as(digits, b);
    assert(x =~= s.skip(word.len() as int));
    assert(y =~= s.skip(word.len() as int));
}

// ---------------------------------------------------------------------------
// Headers and bodies

/// Whether the header at `i` has this name and this value.
pub open spec fn header_is(
    headers: Seq<Header>,
    i: int,
    name: Seq<char>,
    value: Seq<char>,
) -> bool {
    0 <= i < headers.len() && headers[i].name@ == name && headers[i].value@ == value
}

/// The bytes of a body.
pub open spec fn bytes_in(body: Body) -> Seq<u8> {
    match body {
        Body::Bytes(bytes) => bytes@,
        _ => seq![],
    }
}

/// Whether a body is this text.
pub open spec fn text_is(body: Body, t: Seq<char>) -> bool {
    body matches Body::Text(s) && s@ == t
}

pub(crate) proof fn lemma_header_views(headers: Seq<Header>)
    ensures
        http::header_views(headers).len() == headers.len(),
        forall|i: int|
            0 <= i < headers.len() ==> #[trigger] http::header_views(headers)[i] == (
                headers[i].name@,
                headers[i].value@,
            ),
{
}

/// The first of two views of headers is the name, the second the value.
proof fn lemma_header(headers: Seq<Header>, i: int, name: Seq<char>, value: Seq<char>)
    requires
        0 <= i < headers.len(),
        http::header_views(headers)[i] == (name, value),
    ensures
        header_is(headers, i, name, value),
{
}

// ---------------------------------------------------------------------------
// Requests

/// The upstream resolver is sent the query as it is, as a DNS message, and is
/// asked for one.
pub proof fn law_upstream_request(query: &[u8], init: RequestInit)
    requires
        call_ensures(http::dns_post_init, (query,), init),
    ensures
        init.method is Post,
        init.headers@.len() == 2,
        header_is(init.headers@, 0, "accept"@, "application/dns-message"@),
        header_is(init.headers@, 1, "content-type"@, "application/dns-message"@),
        init.body is Bytes,
        bytes_in(init.body) == query@,
{
    lemma_header_views(init.headers@);
    lemma_header(init.headers@, 0, "accept"@, "application/dns-message"@);
    lemma_header(init.headers@, 1, "content-type"@, "application/dns-message"@);
}

/// A regional object is sent the query as it is, as a DNS message.
pub proof fn law_region_request(query: &[u8], init: RequestInit)
    requires
        call_ensures(http::region_post_init, (query,), init),
    ensures
        init.method is Post,
        init.headers@.len() == 1,
        header_is(init.headers@, 0, "content-type"@, "application/dns-message"@),
        init.body is Bytes,
        bytes_in(init.body) == query@,
{
    lemma_header_views(init.headers@);
    lemma_header(init.headers@, 0, "content-type"@, "application/dns-message"@);
}

// ---------------------------------------------------------------------------
// Responses

/// Whether a response is a DNS message: its status and type say so. Whatever
/// further headers it has come behind the type.
pub open spec fn is_message(r: Response) -> bool {
    &&& r.status == 200
    &&& r.body is Bytes
    &&& header_is(r.headers@, 0, "content-type"@, "application/dns-message"@)
}

/// Whether the header at `i` says for how many seconds the response may be
/// kept.
pub open spec fn keeps_at(r: Response, i: int, secs: int) -> bool {
    &&& 0 <= i < r.headers@.len()
    &&& r.headers@[i].name@ == "cache-control"@
    &&& says(r.headers@[i].value@, "max-age="@, secs)
}

/// Whether the header at `i` has this name and says this number.
pub open spec fn counts_at(r: Response, i: int, name: Seq<char>, n: int) -> bool {
    &&& 0 <= i < r.headers@.len()
    &&& r.headers@[i].name@ == name
    &&& reads_as(r.headers@[i].value@, n)
}

/// Whether a response to a client ends with the counts and the tier, and
/// otherwise has nothing but its type and, where `secs` is given, the time for
/// which it may be kept.
pub open spec fn answers_client(
    r: Response,
    hits: u64,
    misses: u64,
    secs: Option<u32>,
    tier: Seq<char>,
) -> bool {
    let n = r.headers@.len() as int;
    &&& is_message(r)
    &&& n == (if secs is Some {
        5int
    } else {
        4int
    })
    &&& secs matches Some(s) ==> keeps_at(r, 1, s as int)
    &&& counts_at(r, n - 3, "x-cache-hits"@, hits as int)
    &&& counts_at(r, n - 2, "x-cache-misses"@, misses as int)
    &&& header_is(r.headers@, n - 1, "x-cache-tier"@, tier)
}

/// Whether a response of a regional object has its type and this status.
pub open spec fn answers_edge(r: Response, status: Seq<char>) -> bool {
    &&& is_message(r)
    &&& r.headers@.len() == 2
    &&& header_is(r.headers@, 1, "x-do-status"@, status)
}

/// Whether a response refuses with this text and this status.
pub open spec fn refuses(r: Response, t: Seq<char>, status: int) -> bool {
    r.status == status && r.headers@.len() == 0 && text_is(r.body, t)
}

pub(crate) proof fn lemma_client_reply(
    r: Response,
    bytes: Seq<u8>,
    hits: u64,
    misses: u64,
    secs: Option<u32>,
    tier: Seq<char>,
)
    requires
        r@ == http::client_reply(bytes, hits, misses, secs, tier),
    ensures
        answers_client(r, hits, misses, secs, tier),
        bytes_in(r.body) == bytes,
{
    lemma_header_views(r.headers@);
    lemma_reads_back(hits as nat);
    lemma_reads_back(misses as nat);
    let n = r.headers@.len() as int;
    lemma_header(r.headers@, 0, "content-type"@, "application/dns-message"@);
    if let Some(s) = secs {
        lemma_says("max-age="@, s as nat);
        lemma_header(r.headers@, 1, "cache-control"@, http::max_age(s));
    }
    lemma_header(r.headers@, n - 3, "x-cache-hits"@, text::decimal(hits as nat));
    lemma_header(r.headers@, n - 2, "x-cache-misses"@, text::decimal(misses as nat));
    lemma_header(r.headers@, n - 1, "x-cache-tier"@, tier);
}

pub(crate) proof fn lemma_region_reply(r: Response, bytes: Seq<u8>, status: Seq<char>)
    requires
        r@ == http::region_reply(bytes, status),
    ensures
        answers_edge(r, status),
        bytes_in(r.body) == bytes,
{
    lemma_header_views(r.headers@);
    lemma_header(r.headers@, 0, "content-type"@, "application/dns-message"@);
    lemma_header(r.headers@, 1, "x-do-status"@, status);
}

pub(crate) proof fn lemma_error_reply(r: Response, t: Seq<char>, status: u16)
    requires
        r@ == http::error_reply(t, status),
    ensures
        refuses(r, t, status as int),
{
    lemma_header_views(r.headers@);
}

/// A DNS message goes out as it is, and as nothing but a DNS message.
pub proof fn law_message_response(bytes: Vec<u8>, r: Response)
    requires
        call_ensures(http::dns_response, (bytes,), r),
    ensures
        is_message(r),
        r.headers@.len() == 1,
        bytes_in(r.body) == bytes@,
{
    lemma_header_views(r.headers@);
    lemma_header(r.headers@, 0, "content-type"@, "application/dns-message"@);
}

/// A DNS message goes out with the time for which it may be kept, where one is
/// given.
pub proof fn law_timed_response(bytes: Vec<u8>, secs: Option<u32>, r: Response)
    requires
        call_ensures(http::build_response, (bytes, secs), r),
    ensures
        is_message(r),
        bytes_in(r.body) == bytes@,
        secs is None ==> r.headers@.len() == 1,
        secs matches Some(s) ==> r.headers@.len() == 2 && keeps_at(r, 1, s as int),
{
    lemma_header_views(r.headers@);
    lemma_header(r.headers@, 0, "content-type"@, "application/dns-message"@);
    if let Some(s) = secs {
        lemma_says("max-age="@, s as nat);
        lemma_header(r.headers@, 1, "cache-control"@, http::max_age(s));
    }
}

/// A client's response has the message, both counts and the tier, each under
/// its own name.
pub proof fn law_client_response(
    bytes: Vec<u8>,
    hits: u64,
    misses: u64,
    secs: Option<u32>,
    tier: &str,
    r: Response,
)
    requires
        call_ensures(http::finalize, (bytes, hits, misses, secs, tier), r),
    ensures
        answers_client(r, hits, misses, secs, tier@),
        bytes_in(r.body) == bytes@,
{
    lemma_client_reply(r, bytes@, hits, misses, secs, tier@);
}

/// A regional object's response has the message and the status.
pub proof fn law_region_response(bytes: Vec<u8>, status: &str, r: Response)
    requires
        call_ensures(http::bytes_response, (bytes, status), r),
    ensures
        answers_edge(r, status@),
        bytes_in(r.body) == bytes@,
{
    lemma_region_reply(r, bytes@, status@);
}

/// A refusal has the text and the status that it is given.
pub proof fn law_error_response(message: String, status: u16, r: Response)
    requires
        call_ensures(http::error_response, (message, status), r),
    ensures
        refuses(r, message@, status as int),
{
    lemma_error_reply(r, message@, status);
}

} // verus!
