//! The first tier: what happens to a client's request at the edge.
use crate::dns;
use crate::http;
use crate::http::Response;
use crate::text;
use base64::engine::general_purpose::URL_SAFE_NO_PAD;
use base64::{DecodeError, Engine};
use vstd::prelude::*;

verus! {

// ---------------------------------------------------------------------------
// Base64

/// Why a text is not base64.
#[derive(Debug, PartialEq, Eq)]
pub enum Base64Error {
    /// A byte outside the alphabet: where, and which.
    InvalidByte(usize, u8),
    /// A number of symbols that no number of bytes has.
    InvalidLength(usize),
    /// A last symbol with bits set that belong to no byte: where, and which.
    InvalidLastSymbol(usize, u8),
    /// Padding other than the expected one.
    InvalidPadding,
}

/// What the URL-safe alphabet without padding makes of a text.
pub uninterp spec fn base64url_decoded(input: Seq<u8>) -> Result<Seq<u8>, Base64Error>;

/// `URL_SAFE_NO_PAD.decode`: the bytes that `input` stands for in the URL-safe
/// alphabet without padding, or why there are none. It claims that these
/// depend on `input` alone.
#[verifier::external_body]
fn decode_base64url(input: &[u8]) -> (decoded: Result<Vec<u8>, Base64Error>)
    ensures
        (match decoded {
            Ok(bytes) => base64url_decoded(input@) == Ok::<Seq<u8>, Base64Error>(bytes@),
            Err(e) => base64url_decoded(input@) == Err::<Seq<u8>, Base64Error>(e),
        }),
{
    match URL_SAFE_NO_PAD.decode(input) {
        Ok(bytes) => Ok(bytes),
        Err(DecodeError::InvalidByte(at, byte)) => Err(Base64Error::InvalidByte(at, byte)),
        Err(DecodeError::InvalidLength(len)) => Err(Base64Error::InvalidLength(len)),
        Err(DecodeError::InvalidLastSymbol(at, byte)) => {
            Err(Base64Error::InvalidLastSymbol(at, byte))
        },
        Err(DecodeError::InvalidPadding) => Err(Base64Error::InvalidPadding),
    }
}

impl Base64Error {
    /// What is wrong, in words.
    pub open spec fn words(self) -> Seq<char> {
        match self {
            Base64Error::InvalidByte(at, byte) => "Invalid symbol "@ + text::decimal(byte as nat)
                + ", offset "@ + text::decimal(at as nat) + "."@,
            Base64Error::InvalidLength(len) => "Invalid input length: "@ + text::decimal(
                len as nat,
            ),
            Base64Error::InvalidLastSymbol(at, byte) => "Invalid last symbol "@ + text::decimal(
                byte as nat,
            ) + ", offset "@ + text::decimal(at as nat) + "."@,
            Base64Error::InvalidPadding => "Invalid padding"@,
        }
    }

    /// What is wrong, in words.
    pub fn message(&self) -> (s: String)
        ensures
            s@ == self.words(),
    {
        match *self {
            Base64Error::InvalidByte(at, byte) => symbol_message("Invalid symbol ", at, byte),
            Base64Error::InvalidLength(len) => {
                let mut s = "Invalid input length: ".to_owned();
                text::push_decimal(&mut s, len as u64);
                s
            },
            Base64Error::InvalidLastSymbol(at, byte) => symbol_message(
                "Invalid last symbol ",
                at,
                byte,
            ),
            Base64Error::InvalidPadding => "Invalid padding".to_owned(),
        }
    }
}

fn symbol_message(what: &str, at: usize, byte: u8) -> (s: String)
    ensures
        s@ == what@ + text::decimal(byte as nat) + ", offset "@ + text::decimal(at as nat) + "."@,
{
    let mut s = what.to_owned();
    text::push_decimal(&mut s, byte as u64);
    s.append(", offset ");
    text::push_decimal(&mut s, at as u64);
    s.append(".");
    s
}

// ---------------------------------------------------------------------------
// The query of a request

/// What a client's request brings.
#[derive(Debug, PartialEq, Eq)]
pub enum Incoming {
    /// The names and values of a URL's query, in order.
    Get(Vec<(String, String)>),
    /// A body.
    Post(Vec<u8>),
    /// A request of any other method.
    Other,
}

/// What a client's request brings, as mathematics.
pub enum IncomingView {
    Get(Seq<(Seq<char>, Seq<char>)>),
    Post(Seq<u8>),
    Other,
}

/// Names and values, as mathematics.
pub open spec fn pair_views(pairs: Seq<(String, String)>) -> Seq<(Seq<char>, Seq<char>)> {
    pairs.map_values(|p: (String, String)| (p.0@, p.1@))
}

impl View for Incoming {
    type V = IncomingView;

    open spec fn view(&self) -> IncomingView {
        match self {
            Incoming::Get(pairs) => IncomingView::Get(pair_views(pairs@)),
            Incoming::Post(body) => IncomingView::Post(body@),
            Incoming::Other => IncomingView::Other,
        }
    }
}

/// Why a request goes no further.
#[derive(Debug, PartialEq, Eq)]
pub enum Refusal {
    /// The client is answered so.
    Reply(Response),
    /// Handling the request fails with this message.
    Fault(String),
}

/// Why a request goes no further, as mathematics.
pub enum RefusalView {
    Reply(http::ResponseView),
    Fault(Seq<char>),
}

impl View for Refusal {
    type V = RefusalView;

    open spec fn view(&self) -> RefusalView {
        match self {
            Refusal::Reply(response) => RefusalView::Reply(response@),
            Refusal::Fault(message) => RefusalView::Fault(message@),
        }
    }
}

/// A refusal of the client's request.
pub open spec fn refused(message: Seq<char>, status: u16) -> RefusalView {
    RefusalView::Reply(http::error_reply(message, status))
}

/// The value of the first `dns` parameter.
pub open spec fn dns_param(pairs: Seq<(Seq<char>, Seq<char>)>) -> Option<Seq<char>>
    decreases pairs.len(),
{
    if pairs.len() == 0 {
        None
    } else if pairs[0].0 == "dns"@ {
        Some(pairs[0].1)
    } else {
        dns_param(pairs.skip(1))
    }
}

/// A text without the equals signs at its end.
pub open spec fn unpadded(bytes: Seq<u8>) -> Seq<u8>
    decreases bytes.len(),
{
    if bytes.len() > 0 && bytes.last() == 0x3d {
        unpadded(bytes.drop_last())
    } else {
        bytes
    }
}

/// The message that a `dns` parameter stands for; padding does not matter.
pub open spec fn param_message(dns: Seq<char>) -> Result<Seq<u8>, Base64Error> {
    base64url_decoded(unpadded(vstd::utf8::encode_utf8(dns)))
}

/// The DNS message that a request brings.
pub open spec fn message_of(incoming: IncomingView) -> Result<Seq<u8>, RefusalView> {
    match incoming {
        IncomingView::Get(pairs) => match dns_param(pairs) {
            Some(dns) => match param_message(dns) {
                Ok(bytes) => Ok(bytes),
                Err(e) => Err(RefusalView::Fault("bad base64url: "@ + e.words())),
            },
            None => Err(refused("missing ?dns="@, 400)),
        },
        IncomingView::Post(body) => Ok(body),
        IncomingView::Other => Err(refused("method not allowed"@, 405)),
    }
}

fn find_dns_param(pairs: &Vec<(String, String)>) -> (found: Option<usize>)
    ensures
        match found {
            Some(i) => i < pairs@.len() && dns_param(pair_views(pairs@)) == Some(pairs@[i as int].1@),
            None => dns_param(pair_views(pairs@)) is None,
        },
{
    let wanted = "dns".to_owned();
    let ghost all = pair_views(pairs@);
    assert(all.skip(0) =~= all);
    let mut i: usize = 0;
    while i < pairs.len()
        invariant
            i <= pairs@.len(),
            all == pair_views(pairs@),
            wanted@ == "dns"@,
            dns_param(all) == dns_param(all.skip(i as int)),
        decreases pairs@.len() - i,
    {
        assert(all.skip(i as int)[0] == all[i as int]);
        if pairs[i].0 == wanted {
            return Some(i);
        }
        assert(all.skip(i as int).skip(1) =~= all.skip(i + 1));
        i = i + 1;
    }
    None
}

/// The message that a `dns` parameter stands for; padding does not matter.
pub fn decode_dns_param(dns: &str) -> (decoded: Result<Vec<u8>, Base64Error>)
    ensures
        (match decoded {
            Ok(bytes) => param_message(dns@) == Ok::<Seq<u8>, Base64Error>(bytes@),
            Err(e) => param_message(dns@) == Err::<Seq<u8>, Base64Error>(e),
        }),
{
    let bytes = dns.as_bytes();
    let mut end: usize = bytes.len();
    assert(bytes@.take(end as int) =~= bytes@);
    while end > 0 && bytes[end - 1] == 0x3d
        invariant
            end <= bytes@.len(),
            unpadded(bytes@.take(end as int)) == unpadded(bytes@),
        decreases end,
    {
        assert(bytes@.take(end as int).drop_last() =~= bytes@.take(end - 1));
        end = end - 1;
    }
    let symbols = vstd::slice::slice_subrange(bytes, 0, end);
    assert(symbols@ =~= bytes@.take(end as int));
    decode_base64url(symbols)
}

/// The DNS message that a request brings.
pub fn read_message(incoming: Incoming) -> (message: Result<Vec<u8>, Refusal>)
    ensures
        (match message {
            Ok(bytes) => message_of(incoming@) == Ok::<Seq<u8>, RefusalView>(bytes@),
            Err(refusal) => message_of(incoming@) == Err::<Seq<u8>, RefusalView>(refusal@),
        }),
{
    match incoming {
        Incoming::Get(pairs) => match find_dns_param(&pairs) {
            Some(i) => match decode_dns_param(pairs[i].1.as_str()) {
                Ok(bytes) => Ok(bytes),
                Err(e) => {
                    let mut message = "bad base64url: ".to_owned();
                    message.append(e.message().as_str());
                    Err(Refusal::Fault(message))
                },
            },
            None => Err(Refusal::Reply(http::error_response("missing ?dns=".to_owned(), 400))),
        },
        Incoming::Post(body) => Ok(body),
        Incoming::Other => Err(
            Refusal::Reply(http::error_response("method not allowed".to_owned(), 405)),
        ),
    }
}

/// The name under which the first tier keeps the answer to a question.
pub open spec fn key_text(qname: Seq<char>, qtype: u16) -> Seq<char> {
    "https://doh-edge.cache/"@ + qname + "/"@ + text::decimal(qtype as nat)
}

/// The name under which the first tier keeps the answer to a question.
pub fn cache_key(qname: &str, qtype: u16) -> (key: String)
    ensures
        key@ == key_text(qname@, qtype),
{
    let mut key = "https://doh-edge.cache/".to_owned();
    key.append(qname);
    key.append("/");
    text::push_decimal(&mut key, qtype as u64);
    key
}

/// A client's query that can be answered.
#[derive(Debug, PartialEq, Eq)]
pub struct Query {
    /// The message as it came.
    pub bytes: Vec<u8>,
    /// Its transaction id.
    pub client_id: u16,
    /// The name it asks for, letters small.
    pub qname: String,
    /// The type it asks for.
    pub qtype: u16,
}

/// A client's query, as mathematics.
pub struct QueryView {
    pub bytes: Seq<u8>,
    pub client_id: u16,
    pub qname: Seq<char>,
    pub qtype: u16,
}

impl View for Query {
    type V = QueryView;

    open spec fn view(&self) -> QueryView {
        QueryView {
            bytes: self.bytes@,
            client_id: self.client_id,
            qname: self.qname@,
            qtype: self.qtype,
        }
    }
}

/// What is made of a message: a query, or a refusal.
pub open spec fn query_of(bytes: Seq<u8>) -> Result<QueryView, RefusalView> {
    if bytes.len() < 12 {
        Err(refused("short DNS message"@, 400))
    } else {
        match dns::question_of(bytes) {
            Some((qname, qtype)) => Ok(
                QueryView { bytes, client_id: dns::u16_at(bytes, 0), qname, qtype },
            ),
            None => Err(refused("unparseable dns query"@, 400)),
        }
    }
}

/// What is made of a request: a query, or a refusal.
pub open spec fn request_query(incoming: IncomingView) -> Result<QueryView, RefusalView> {
    match message_of(incoming) {
        Ok(bytes) => query_of(bytes),
        Err(refusal) => Err(refusal),
    }
}

/// Takes a DNS message as a query, or refuses it.
pub fn accept(bytes: Vec<u8>) -> (query: Result<Query, Refusal>)
    ensures
        (match query {
            Ok(q) => query_of(bytes@) == Ok::<QueryView, RefusalView>(q@),
            Err(refusal) => query_of(bytes@) == Err::<QueryView, RefusalView>(refusal@),
        }),
{
    if bytes.len() < 12 {
        return Err(Refusal::Reply(http::error_response("short DNS message".to_owned(), 400)));
    }
    let client_id = dns::read_id(bytes.as_slice());
    match dns::parse_question(bytes.as_slice()) {
        Some((qname, qtype)) => Ok(Query { bytes, client_id, qname, qtype }),
        None => Err(
            Refusal::Reply(http::error_response("unparseable dns query".to_owned(), 400)),
        ),
    }
}

/// Takes a client's request as a query, or refuses it.
pub fn read_query(incoming: Incoming) -> (query: Result<Query, Refusal>)
    ensures
        (match query {
            Ok(q) => request_query(incoming@) == Ok::<QueryView, RefusalView>(q@),
            Err(refusal) => request_query(incoming@) == Err::<QueryView, RefusalView>(refusal@),
        }),
{
    match read_message(incoming) {
        Ok(bytes) => accept(bytes),
        Err(refusal) => Err(refusal),
    }
}

// ---------------------------------------------------------------------------
// Counts

/// How often the first tier had an answer and how often it had not, since the
/// process started. Each count starts over when it is full.
#[derive(Clone, Copy, Debug, PartialEq, Eq, Structural)]
pub struct Counters {
    pub hits: u64,
    pub misses: u64,
}

/// One more; nothing where the count is full.
pub open spec fn one_more(n: u64) -> u64 {
    if n < u64::MAX {
        (n + 1) as u64
    } else {
        0
    }
}

impl Counters {
    /// No lookup yet.
    pub fn new() -> (c: Counters)
        ensures
            c == (Counters { hits: 0, misses: 0 }),
    {
        Counters { hits: 0, misses: 0 }
    }

    /// Counts a lookup that found an answer.
    pub fn record_hit(&mut self)
        ensures
            *final(self) == (Counters { hits: one_more(old(self).hits), ..*old(self) }),
    {
        self.hits = self.hits.wrapping_add(1);
    }

    /// Counts a lookup that found none.
    pub fn record_miss(&mut self)
        ensures
            *final(self) == (Counters { misses: one_more(old(self).misses), ..*old(self) }),
    {
        self.misses = self.misses.wrapping_add(1);
    }
}

impl Default for Counters {
    fn default() -> (c: Counters)
        ensures
            c == (Counters { hits: 0, misses: 0 }),
    {
        Counters::new()
    }
}

// ---------------------------------------------------------------------------
// Time

/// The whole seconds from one moment to a later one, both in milliseconds;
/// none where the second is not later. A span too long for the result counts
/// as the longest that fits.
pub open spec fn secs_between(from_ms: u64, to_ms: u64) -> u32 {
    let secs = if to_ms > from_ms {
        (to_ms - from_ms) / 1000
    } else {
        0
    };
    if secs <= u32::MAX {
        secs as u32
    } else {
        u32::MAX
    }
}

/// The whole seconds from one moment to a later one.
pub fn elapsed_secs(from_ms: u64, to_ms: u64) -> (secs: u32)
    ensures
        secs == secs_between(from_ms, to_ms),
{
    let secs = to_ms.saturating_sub(from_ms) / 1000;
    if secs <= u32::MAX as u64 {
        secs as u32
    } else {
        u32::MAX
    }
}

// ---------------------------------------------------------------------------
// Answers

/// Where an answer came from.
#[derive(Clone, Copy, Debug, PartialEq, Eq, Structural)]
pub enum Tier {
    /// The cache at the edge.
    L1,
    /// The cache of the region.
    L2Hit,
    /// The upstream resolver, asked by the region.
    L2Miss,
    /// The upstream resolver, asked from the edge.
    Upstream,
}

impl Tier {
    /// What the tier is called.
    pub open spec fn label(self) -> Seq<char> {
        match self {
            Tier::L1 => "L1"@,
            Tier::L2Hit => "L2-HIT"@,
            Tier::L2Miss => "L2-MISS"@,
            Tier::Upstream => "UPSTREAM"@,
        }
    }

    /// What the tier is called.
    pub fn name(&self) -> (name: &'static str)
        ensures
            name@ == self.label(),
    {
        match *self {
            Tier::L1 => "L1",
            Tier::L2Hit => "L2-HIT",
            Tier::L2Miss => "L2-MISS",
            Tier::Upstream => "UPSTREAM",
        }
    }
}

/// A text that may be missing, as mathematics.
pub open spec fn text_view(s: Option<String>) -> Option<Seq<char>> {
    match s {
        Some(s) => Some(s@),
        None => None,
    }
}

/// The tier that a region's answer comes from, by the status it gives.
pub open spec fn tier_of_status(status: Option<Seq<char>>) -> Tier {
    if status == Some("HIT"@) {
        Tier::L2Hit
    } else {
        Tier::L2Miss
    }
}

/// The tier that a region's answer comes from, by the status it gives.
pub fn region_tier(status: Option<String>) -> (tier: Tier)
    ensures
        tier == tier_of_status(text_view(status)),
{
    let hit = "HIT".to_owned();
    match status {
        Some(s) => if s == hit {
            Tier::L2Hit
        } else {
            Tier::L2Miss
        },
        None => Tier::L2Miss,
    }
}

/// The region of a request: its continent, where that is known.
pub open spec fn region_of(continent: Option<Seq<char>>) -> Seq<char> {
    match continent {
        Some(c) => c,
        None => "UNKNOWN"@,
    }
}

/// The region of a request: its continent, where that is known.
pub fn region_from(continent: Option<String>) -> (region: String)
    ensures
        region@ == region_of(text_view(continent)),
{
    match continent {
        Some(c) => c,
        None => "UNKNOWN".to_owned(),
    }
}

/// The name of the object that serves a region.
pub fn region_object(region: &str) -> (name: String)
    ensures
        name@ == "region:"@ + region@,
{
    let mut name = "region:".to_owned();
    name.append(region);
    name
}

/// What a client gets that the first tier has an answer for: the answer as it
/// is now, with the client's id. A stored answer without a readable stamp
/// counts as fetched when it was found.
pub open spec fn hit_reply(
    query: QueryView,
    counters: Counters,
    cached: Seq<u8>,
    stamp_ms: Option<u64>,
    found_ms: u64,
    now_ms: u64,
) -> http::ResponseView {
    let fetched_ms = match stamp_ms {
        Some(stamp) => stamp,
        None => found_ms,
    };
    http::client_reply(
        dns::served(cached, query.client_id, secs_between(fetched_ms, now_ms)),
        counters.hits,
        counters.misses,
        None,
        Tier::L1.label(),
    )
}

/// What the first tier keeps: the answer as it came, for as long as its TTL
/// says, stamped with the time.
pub open spec fn kept_reply(bytes: Seq<u8>, now_ms: u64) -> http::ResponseView {
    http::with_header(
        http::timed_reply(bytes, Some(dns::kept_secs(bytes))),
        http::FETCHED_AT_HEADER@,
        text::decimal(now_ms as nat),
    )
}

/// What a client gets that the first tier had no answer for.
pub open spec fn miss_reply(miss: Miss, bytes: Seq<u8>, tier: Tier) -> http::ResponseView {
    http::client_reply(
        dns::with_id(bytes, miss.query.client_id),
        miss.hits,
        miss.misses,
        Some(dns::kept_secs(bytes)),
        tier.label(),
    )
}

/// A query that the first tier could not answer, and the counts as they were
/// then.
#[derive(Debug, PartialEq, Eq)]
pub struct Miss {
    pub query: Query,
    pub hits: u64,
    pub misses: u64,
}

/// What a region came back with, as mathematics: a message and the status that
/// goes with it, or nothing.
pub open spec fn region_view(reply: Option<(Vec<u8>, Option<String>)>) -> Option<
    (Seq<u8>, Option<Seq<char>>),
> {
    match reply {
        Some((bytes, status)) => Some((bytes@, text_view(status))),
        None => None,
    }
}

/// What is done once the region was asked.
#[derive(Debug, PartialEq, Eq)]
pub enum AfterRegion {
    /// It had or got an answer, and this is where from.
    Answered(Vec<u8>, Tier),
    /// It could not be reached: the upstream resolver is sent this request.
    AskUpstream(http::RequestInit),
}

/// What is done with an answer from further away.
#[derive(Debug, PartialEq, Eq)]
pub struct Answer {
    /// The name under which the first tier keeps it.
    pub key: String,
    /// What the first tier keeps.
    pub kept: Response,
    /// What the client gets.
    pub reply: Response,
}

impl Query {
    /// Answers from the first tier: `cached` is what it keeps, `stamp_ms` when
    /// that was fetched, `found_ms` when it was found.
    pub fn on_hit(
        &self,
        counters: &mut Counters,
        cached: Vec<u8>,
        stamp_ms: Option<u64>,
        found_ms: u64,
        now_ms: u64,
    ) -> (response: Response)
        ensures
            *final(counters) == (Counters { hits: one_more(old(counters).hits), ..*old(counters) }),
            response@ == hit_reply(
                self@,
                *final(counters),
                cached@,
                stamp_ms,
                found_ms,
                now_ms,
            ),
    {
        let fetched_ms = match stamp_ms {
            Some(stamp) => stamp,
            None => found_ms,
        };
        let mut bytes = cached;
        dns::apply_cache_hit(
            bytes.as_mut_slice(),
            self.client_id,
            elapsed_secs(fetched_ms, now_ms),
        );
        counters.record_hit();
        http::finalize(bytes, counters.hits, counters.misses, None, Tier::L1.name())
    }

    /// Goes on without an answer from the first tier.
    pub fn on_miss(self, counters: &mut Counters) -> (miss: Miss)
        ensures
            *final(counters) == (Counters {
                misses: one_more(old(counters).misses),
                ..*old(counters)
            }),
            miss.query == self,
            miss.hits == final(counters).hits,
            miss.misses == final(counters).misses,
    {
        counters.record_miss();
        Miss { query: self, hits: counters.hits, misses: counters.misses }
    }
}

impl Miss {
    /// The object that serves a region, and the request it is sent.
    pub fn region_call(&self, region: &str) -> (call: (String, http::RequestInit))
        ensures
            call.0@ == "region:"@ + region@,
            call.1@ == http::region_request(self.query@.bytes),
    {
        (region_object(region), http::region_post_init(self.query.bytes.as_slice()))
    }

    /// What to do with what the region came back with; nothing where asking it
    /// failed, and then the upstream resolver is asked the same.
    pub fn after_region(&self, reply: Option<(Vec<u8>, Option<String>)>) -> (next: AfterRegion)
        ensures
            (match region_view(reply) {
                Some((bytes, status)) => next matches AfterRegion::Answered(b, tier) && b@ == bytes
                    && tier == tier_of_status(status),
                None => next matches AfterRegion::AskUpstream(init) && init@
                    == http::upstream_request(self.query@.bytes),
            }),
    {
        match reply {
            Some((bytes, status)) => AfterRegion::Answered(bytes, region_tier(status)),
            None => AfterRegion::AskUpstream(http::dns_post_init(self.query.bytes.as_slice())),
        }
    }

    /// Takes an answer from further away: keeps it as it came, and hands it to
    /// the client under the client's id.
    pub fn on_answer(self, bytes: Vec<u8>, tier: Tier, now_ms: u64) -> (answer: Answer)
        ensures
            answer.key@ == key_text(self.query@.qname, self.query@.qtype),
            answer.kept@ == kept_reply(bytes@, now_ms),
            answer.reply@ == miss_reply(self, bytes@, tier),
    {
        let ttl = dns::cache_ttl(bytes.as_slice());
        let key = cache_key(self.query.qname.as_str(), self.query.qtype);
        let mut out = vstd::slice::slice_to_vec(bytes.as_slice());
        let mut kept = http::build_response(bytes, Some(ttl));
        http::set_header(
            &mut kept.headers,
            http::FETCHED_AT_HEADER,
            text::decimal_text(now_ms),
        );
        dns::rewrite_id(out.as_mut_slice(), self.query.client_id);
        let reply = http::finalize(out, self.hits, self.misses, Some(ttl), tier.name());
        Answer { key, kept, reply }
    }
}

// ---------------------------------------------------------------------------
// Laws

/// Different questions have different keys.
pub proof fn law_keys_differ(qname: Seq<char>, qtype: u16, other_name: Seq<char>, other_type: u16)
    requires
        key_text(qname, qtype) == key_text(other_name, other_type),
    ensures
        qname == other_name,
        qtype == other_type,
{
    let a = text::decimal(qtype as nat);
    let b = text::decimal(other_type as nat);
    text::lemma_decimal_digits(qtype as nat);
    text::lemma_decimal_digits(other_type as nat);
    reveal_strlit("/");
    let head = "https://doh-edge.cache/"@;
    let key = key_text(qname, qtype);
    let n = key.len();
    assert(key == key_text(other_name, other_type));
    assert(key[n - a.len() - 1] == '/');
    assert(key[n - b.len() - 1] == '/');
    if a.len() < b.len() {
        assert(key[n - a.len() - 1] == b[b.len() - a.len() - 1]);
    } else if b.len() < a.len() {
        assert(key[n - b.len() - 1] == a[a.len() - b.len() - 1]);
    }
    assert(a =~= key.skip(n - a.len()));
    assert(b =~= key.skip(n - b.len()));
    text::lemma_decimal_injective(qtype as nat, other_type as nat);
    assert(qname =~= key.subrange(head.len() as int, n - a.len() - 1));
    assert(other_name =~= key.subrange(head.len() as int, n - b.len() - 1));
}

/// Two queries share a key where their names differ at most in the case of
/// their letters and their types are the same: ids, flags, classes and EDNS
/// options do not matter.
pub proof fn law_queries_share_a_key(a: Seq<u8>, b: Seq<u8>)
    requires
        query_of(a) is Ok,
        b.len() >= crate::dns_laws::name_end(a) + 4,
        dns::u16_at(b, 4) != 0,
        forall|k: int|
            12 <= k < crate::dns_laws::name_end(a) ==> dns::lower(#[trigger] a[k]) == dns::lower(
                b[k],
            ),
        dns::u16_at(a, crate::dns_laws::name_end(a)) == dns::u16_at(
            b,
            crate::dns_laws::name_end(a),
        ),
    ensures
        query_of(b) is Ok,
        key_text(query_of(b)->Ok_0.qname, query_of(b)->Ok_0.qtype) == key_text(
            query_of(a)->Ok_0.qname,
            query_of(a)->Ok_0.qtype,
        ),
{
    crate::dns_laws::law_question_is_all_that_matters(a, b);
    assert(b.len() >= 12) by {
        crate::dns_laws::law_name_end_is_inside(a);
    }
}

/// A query in a URL is treated as the same query in a body.
pub proof fn law_get_like_post(pairs: Seq<(Seq<char>, Seq<char>)>, dns: Seq<char>, bytes: Seq<u8>)
    requires
        dns_param(pairs) == Some(dns),
        param_message(dns) == Ok::<Seq<u8>, Base64Error>(bytes),
    ensures
        request_query(IncomingView::Get(pairs)) == request_query(IncomingView::Post(bytes)),
{
}

pub(crate) proof fn lemma_utf8_of_sum(a: Seq<char>, b: Seq<char>)
    ensures
        vstd::utf8::encode_utf8(a + b) == vstd::utf8::encode_utf8(a) + vstd::utf8::encode_utf8(b),
    decreases a.len(),
{
    let whole = a + b;
    if a.len() == 0 {
        assert(whole =~= b);
        assert(vstd::utf8::encode_utf8(a) =~= Seq::<u8>::empty());
        assert(Seq::<u8>::empty() + vstd::utf8::encode_utf8(b) =~= vstd::utf8::encode_utf8(b));
    } else {
        lemma_utf8_of_sum(a.drop_first(), b);
        assert(whole.drop_first() =~= a.drop_first() + b);
        assert(whole[0] == a[0]);
        assert(vstd::utf8::encode_utf8(whole) =~= vstd::utf8::encode_utf8(a)
            + vstd::utf8::encode_utf8(b));
    }
}

/// Padding at the end of a `dns` parameter does not matter.
pub proof fn law_padding_does_not_matter(dns: Seq<char>)
    ensures
        param_message(dns.push('=')) == param_message(dns),
{
    let sign: Seq<char> = seq!['='];
    lemma_utf8_of_sum(dns, sign);
    assert(dns.push('=') =~= dns + sign);
    vstd::utf8::is_ascii_chars_encode_utf8(sign);
    let padded = vstd::utf8::encode_utf8(dns.push('='));
    assert(vstd::utf8::encode_utf8(sign) =~= seq![0x3du8]);
    assert(padded.drop_last() =~= vstd::utf8::encode_utf8(dns));
}

/// Whoever asks second gets what the first one got, aged by the time between
/// and under their own id: the answer was kept as it came and comes back so.
pub proof fn law_second_client(
    bytes: Seq<u8>,
    first: Miss,
    tier: Tier,
    then_ms: u64,
    second: QueryView,
    counters: Counters,
    found_ms: u64,
    now_ms: u64,
)
    ensures
        kept_reply(bytes, then_ms).body == http::BodyView::Bytes(bytes),
        miss_reply(first, bytes, tier).body matches http::BodyView::Bytes(got) && hit_reply(
            second,
            counters,
            bytes,
            Some(then_ms),
            found_ms,
            now_ms,
        ).body == http::BodyView::Bytes(
            dns::served(got, second.client_id, secs_between(then_ms, now_ms)),
        ),
{
    let secs = secs_between(then_ms, now_ms);
    let id = first.query.client_id;
    crate::dns_laws::law_served_at_once(bytes, id);
    crate::dns_laws::law_served_again(bytes, id, 0, second.client_id, secs);
    assert(crate::dns_laws::added_secs(0, secs) == secs);
}

} // verus!
