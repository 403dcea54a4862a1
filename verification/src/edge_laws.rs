//! What the first tier does with a request, told by what goes in and what comes
//! out of each step.
use crate::dns;
use crate::edge;
use crate::edge::{
    AfterRegion, Answer, Base64Error, Counters, Incoming, Miss, Query, Refusal, Tier,
};
use crate::http;
use crate::http_laws;
use crate::text;
use crate::wire_laws;
use vstd::prelude::*;

verus! {

// ---------------------------------------------------------------------------
// Base64

/// The last byte of a text is an equals sign only where its last character is.
proof fn lemma_last_byte(s: Seq<char>)
    requires
        s.len() > 0,
        s.last() != '=',
    ensures
        vstd::utf8::encode_utf8(s).len() > 0,
        vstd::utf8::encode_utf8(s).last() != 0x3d,
{
    let end: Seq<char> = seq![s.last()];
    let c = s.last() as u32;
    assert(s =~= s.drop_last() + end);
    edge::lemma_utf8_of_sum(s.drop_last(), end);
    assert(end.drop_first() =~= seq![]);
    assert(vstd::utf8::encode_utf8(end.drop_first()) =~= seq![]);
    let bytes = vstd::utf8::encode_scalar(c);
    assert(vstd::utf8::encode_utf8(end) =~= bytes);
    vstd::utf8::char_is_scalar(s.last());
    vstd::utf8::char_u32_cast(s.last(), c);
    assert(c != 0x3d);
    assert(c <= 0x7f ==> c & 0x7f == c && (c & 0x7f) as u8 == c) by (bit_vector);
    assert(0x80u8 | ((c & 0x3f) as u8) != 0x3du8) by (bit_vector);
    assert(bytes.last() != 0x3d);
    assert(vstd::utf8::encode_utf8(s).last() == bytes.last());
}

proof fn lemma_padded(stem: Seq<char>, n: nat)
    ensures
        edge::param_message(stem + text::copies('=', n)) == edge::param_message(stem),
    decreases n,
{
    if n == 0 {
        assert(stem + text::copies('=', 0) =~= stem);
    } else {
        let shorter = stem + text::copies('=', (n - 1) as nat);
        lemma_padded(stem, (n - 1) as nat);
        edge::law_padding_does_not_matter(shorter);
        assert(stem + text::copies('=', n) =~= shorter.push('='));
    }
}

/// A `dns` parameter is decoded as what it is without the equals signs at its
/// end, however many there are; nothing else is taken off it.
pub proof fn law_parameter_is_decoded(
    dns: &str,
    decoded: Result<Vec<u8>, Base64Error>,
    stem: Seq<char>,
    padding: Seq<char>,
)
    requires
        call_ensures(edge::decode_dns_param, (dns,), decoded),
        dns@ == stem + padding,
        forall|i: int| 0 <= i < padding.len() ==> #[trigger] padding[i] == '=',
        stem.len() > 0 ==> stem.last() != '=',
    ensures
        decoded matches Ok(bytes) ==> edge::base64url_decoded(vstd::utf8::encode_utf8(stem)) == Ok::<
            Seq<u8>,
            Base64Error,
        >(bytes@),
        decoded matches Err(e) ==> edge::base64url_decoded(vstd::utf8::encode_utf8(stem)) == Err::<
            Seq<u8>,
            Base64Error,
        >(e),
{
    assert(padding =~= text::copies('=', padding.len()));
    lemma_padded(stem, padding.len());
    if stem.len() > 0 {
        lemma_last_byte(stem);
    } else {
        assert(vstd::utf8::encode_utf8(stem) =~= seq![]);
    }
}

/// What is wrong with a text is said with the place and the byte, each where it
/// belongs.
pub proof fn law_base64_words(e: &Base64Error, s: String)
    requires
        call_ensures(Base64Error::message, (e,), s),
    ensures
        *e matches Base64Error::InvalidByte(at, byte) ==> exists|b: Seq<char>, a: Seq<char>|
            s@ == "Invalid symbol "@ + b + ", offset "@ + a + "."@ && #[trigger] http_laws::reads_as(
                b,
                byte as int,
            ) && #[trigger] http_laws::reads_as(a, at as int),
        *e matches Base64Error::InvalidLength(len) ==> http_laws::says(
            s@,
            "Invalid input length: "@,
            len as int,
        ),
        *e matches Base64Error::InvalidLastSymbol(at, byte) ==> exists|
            b: Seq<char>,
            a: Seq<char>,
        |
            s@ == "Invalid last symbol "@ + b + ", offset "@ + a + "."@
                && #[trigger] http_laws::reads_as(b, byte as int) && #[trigger] http_laws::reads_as(
                a,
                at as int,
            ),
        *e is InvalidPadding ==> s@ == "Invalid padding"@,
{
    match *e {
        Base64Error::InvalidByte(at, byte) => {
            http_laws::lemma_reads_back(byte as nat);
            http_laws::lemma_reads_back(at as nat);
            assert(http_laws::reads_as(text::decimal(byte as nat), byte as int));
            assert(http_laws::reads_as(text::decimal(at as nat), at as int));
        },
        Base64Error::InvalidLength(len) => {
            http_laws::lemma_says("Invalid input length: "@, len as nat);
        },
        Base64Error::InvalidLastSymbol(at, byte) => {
            http_laws::lemma_reads_back(byte as nat);
            http_laws::lemma_reads_back(at as nat);
            assert(http_laws::reads_as(text::decimal(byte as nat), byte as int));
            assert(http_laws::reads_as(text::decimal(at as nat), at as int));
        },
        Base64Error::InvalidPadding => {},
    }
}

// ---------------------------------------------------------------------------
// The query of a request

/// Whether a request is refused with this text and this status.
pub open spec fn is_refused(refusal: Refusal, t: Seq<char>, status: int) -> bool {
    refusal matches Refusal::Reply(r) && http_laws::refuses(r, t, status)
}

/// Whether `q` is the query that a message makes: the message itself, its first
/// two bytes as the id, and the question that is written in it.
pub open spec fn is_query_of(bytes: Seq<u8>, q: Query) -> bool {
    &&& q.bytes@ == bytes
    &&& q.client_id == wire_laws::num16(bytes, 0)
    &&& exists|labels: Seq<Seq<u8>>|
        #[trigger] wire_laws::asks(bytes, labels, q.qtype) && q.qname@ == wire_laws::name_text(
            labels,
        )
}

/// What becomes of a message: it makes a query where a question is written in
/// it, and is refused in one of two ways where none is.
pub open spec fn is_verdict(bytes: Seq<u8>, verdict: Result<Query, Refusal>) -> bool {
    match verdict {
        Ok(q) => bytes.len() >= 12 && is_query_of(bytes, q),
        Err(refusal) => if bytes.len() < 12 {
            is_refused(refusal, "short DNS message"@, 400)
        } else {
            &&& is_refused(refusal, "unparseable dns query"@, 400)
            &&& forall|labels: Seq<Seq<u8>>, qtype: u16| !#[trigger] wire_laws::asks(bytes, labels, qtype)
        },
    }
}

proof fn lemma_refused(refusal: Refusal, t: Seq<char>, status: u16)
    requires
        refusal@ == edge::refused(t, status),
    ensures
        is_refused(refusal, t, status as int),
{
    if let Refusal::Reply(r) = refusal {
        http_laws::lemma_error_reply(r, t, status);
    }
}

proof fn lemma_verdict(bytes: Seq<u8>, verdict: Result<Query, Refusal>)
    requires
        match verdict {
            Ok(q) => edge::query_of(bytes) == Ok::<edge::QueryView, edge::RefusalView>(q@),
            Err(refusal) => edge::query_of(bytes) == Err::<edge::QueryView, edge::RefusalView>(
                refusal@,
            ),
        },
    ensures
        is_verdict(bytes, verdict),
{
    wire_laws::lemma_question(bytes);
    match verdict {
        Ok(q) => {
            assert(is_query_of(bytes, q));
        },
        Err(refusal) => {
            if bytes.len() < 12 {
                lemma_refused(refusal, "short DNS message"@, 400);
            } else {
                lemma_refused(refusal, "unparseable dns query"@, 400);
            }
        },
    }
}

/// A message is taken as the query that is written in it: the message is passed
/// on as it is, the id is its first two bytes, the name and the type are those
/// of its question. It is refused where no question is written in it.
pub proof fn law_message_is_taken(bytes: Vec<u8>, verdict: Result<Query, Refusal>)
    requires
        call_ensures(edge::accept, (bytes,), verdict),
    ensures
        is_verdict(bytes@, verdict),
{
    lemma_verdict(bytes@, verdict);
}

/// The first parameter named `dns`.
pub open spec fn is_first_dns(pairs: Seq<(String, String)>, i: int) -> bool {
    &&& 0 <= i < pairs.len()
    &&& pairs[i].0@ == "dns"@
    &&& forall|k: int| 0 <= k < i ==> (#[trigger] pairs[k]).0@ != "dns"@
}

proof fn lemma_dns_param(pairs: Seq<(String, String)>)
    ensures
        forall|i: int|
            is_first_dns(pairs, i) ==> edge::dns_param(edge::pair_views(pairs)) == Some(
                (#[trigger] pairs[i]).1@,
            ),
        (forall|k: int| 0 <= k < pairs.len() ==> (#[trigger] pairs[k]).0@ != "dns"@)
            ==> edge::dns_param(edge::pair_views(pairs)) is None,
    decreases pairs.len(),
{
    if pairs.len() > 0 {
        let rest = pairs.skip(1);
        lemma_dns_param(rest);
        let views = edge::pair_views(pairs);
        assert(views.skip(1) =~= edge::pair_views(rest));
        assert(views[0] == (pairs[0].0@, pairs[0].1@));
        assert forall|k: int| 0 <= k < rest.len() implies #[trigger] rest[k] == pairs[k + 1] by {}
        assert forall|i: int| is_first_dns(pairs, i) implies edge::dns_param(views) == Some(
            (#[trigger] pairs[i]).1@,
        ) by {
            if i > 0 {
                assert(pairs[0].0@ != "dns"@);
                assert(is_first_dns(rest, i - 1));
                assert(rest[i - 1] == pairs[i]);
            }
        }
    }
}

/// A request with a body brings the body as its message.
pub proof fn law_body_is_the_message(body: Vec<u8>, message: Result<Vec<u8>, Refusal>)
    requires
        call_ensures(edge::read_message, (Incoming::Post(body),), message),
    ensures
        message matches Ok(bytes) && bytes@ == body@,
{
}

/// A request with a body is judged by the message in the body.
pub proof fn law_body_is_judged(body: Vec<u8>, verdict: Result<Query, Refusal>)
    requires
        call_ensures(edge::read_query, (Incoming::Post(body),), verdict),
    ensures
        is_verdict(body@, verdict),
{
    lemma_verdict(body@, verdict);
}

/// A request of another method is refused.
pub proof fn law_other_methods(
    message: Result<Vec<u8>, Refusal>,
    verdict: Result<Query, Refusal>,
)
    requires
        call_ensures(edge::read_message, (Incoming::Other,), message),
        call_ensures(edge::read_query, (Incoming::Other,), verdict),
    ensures
        message matches Err(refusal) && is_refused(refusal, "method not allowed"@, 405),
        verdict matches Err(refusal) && is_refused(refusal, "method not allowed"@, 405),
{
    lemma_refused(message->Err_0, "method not allowed"@, 405);
    lemma_refused(verdict->Err_0, "method not allowed"@, 405);
}

/// A request without a `dns` parameter is refused.
pub proof fn law_missing_parameter(
    pairs: Vec<(String, String)>,
    message: Result<Vec<u8>, Refusal>,
    verdict: Result<Query, Refusal>,
)
    requires
        call_ensures(edge::read_message, (Incoming::Get(pairs),), message),
        call_ensures(edge::read_query, (Incoming::Get(pairs),), verdict),
        forall|k: int| 0 <= k < pairs@.len() ==> (#[trigger] pairs@[k]).0@ != "dns"@,
    ensures
        message matches Err(refusal) && is_refused(refusal, "missing ?dns="@, 400),
        verdict matches Err(refusal) && is_refused(refusal, "missing ?dns="@, 400),
{
    lemma_dns_param(pairs@);
    lemma_refused(message->Err_0, "missing ?dns="@, 400);
    lemma_refused(verdict->Err_0, "missing ?dns="@, 400);
}

/// A request with a `dns` parameter brings the message that the first such
/// parameter is decoded to, and is judged by it. Where it cannot be decoded,
/// the request fails with the decoder's words.
pub proof fn law_parameter_is_the_message(
    pairs: Vec<(String, String)>,
    i: int,
    param: &str,
    decoded: Result<Vec<u8>, Base64Error>,
    words: String,
    message: Result<Vec<u8>, Refusal>,
    verdict: Result<Query, Refusal>,
)
    requires
        call_ensures(edge::read_message, (Incoming::Get(pairs),), message),
        call_ensures(edge::read_query, (Incoming::Get(pairs),), verdict),
        is_first_dns(pairs@, i),
        param@ == pairs@[i].1@,
        call_ensures(edge::decode_dns_param, (param,), decoded),
        decoded matches Err(e) ==> call_ensures(Base64Error::message, (&e,), words),
    ensures
        decoded matches Ok(bytes) ==> {
            &&& message matches Ok(m) && m@ == bytes@
            &&& is_verdict(bytes@, verdict)
        },
        decoded is Err ==> {
            &&& message matches Err(Refusal::Fault(m)) && m@ == "bad base64url: "@ + words@
            &&& verdict matches Err(Refusal::Fault(m)) && m@ == "bad base64url: "@ + words@
        },
{
    lemma_dns_param(pairs@);
    assert(edge::dns_param(edge::pair_views(pairs@)) == Some(pairs@[i].1@));
    if let Ok(bytes) = decoded {
        lemma_verdict(bytes@, verdict);
    }
}

// ---------------------------------------------------------------------------
// Keys, counts, times, names

/// Whether a text is the name under which the first tier keeps the answer to a
/// question.
pub open spec fn is_key(key: Seq<char>, qname: Seq<char>, qtype: u16) -> bool {
    exists|digits: Seq<char>|
        key == "https://doh-edge.cache/"@ + qname + "/"@ + digits && #[trigger] http_laws::reads_as(
            digits,
            qtype as int,
        )
}

proof fn lemma_is_key(qname: Seq<char>, qtype: u16)
    ensures
        is_key(edge::key_text(qname, qtype), qname, qtype),
{
    http_laws::lemma_reads_back(qtype as nat);
    assert(http_laws::reads_as(text::decimal(qtype as nat), qtype as int));
}

/// A key holds the name and, behind a slash, the number of the type.
pub proof fn law_key_holds_the_question(qname: &str, qtype: u16, key: String)
    requires
        call_ensures(edge::cache_key, (qname, qtype), key),
    ensures
        is_key(key@, qname@, qtype),
{
    lemma_is_key(qname@, qtype);
}

/// Whether a count has gone up by one; a full one starts over.
pub open spec fn goes_up(before: u64, after: u64) -> bool {
    if before == u64::MAX {
        after == 0
    } else {
        after == before + 1
    }
}

/// A hit counts one hit and no miss.
pub proof fn law_hit_is_counted(c: &mut Counters)
    requires
        call_ensures(Counters::record_hit, (c,), ()),
    ensures
        goes_up(old(c).hits, final(c).hits),
        final(c).misses == old(c).misses,
{
}

/// A miss counts one miss and no hit.
pub proof fn law_miss_is_counted(c: &mut Counters)
    requires
        call_ensures(Counters::record_miss, (c,), ()),
    ensures
        goes_up(old(c).misses, final(c).misses),
        final(c).hits == old(c).hits,
{
}

/// Counting starts at nothing.
pub proof fn law_counts_start_at_nothing(c: Counters)
    requires
        call_ensures(Counters::new, (), c),
    ensures
        c.hits == 0,
        c.misses == 0,
{
}

/// Counting starts at nothing by default.
pub proof fn law_default_counts(c: Counters)
    requires
        call_ensures(<Counters as Default>::default, (), c),
    ensures
        c.hits == 0,
        c.misses == 0,
{
}

/// The whole seconds from one moment to a later one, both in milliseconds.
pub open spec fn whole_secs(from_ms: u64, to_ms: u64) -> int {
    if to_ms > from_ms {
        (to_ms - from_ms) / 1000
    } else {
        0
    }
}

/// The seconds that are counted fit into the time that has passed, and one more
/// would not, unless no more can be counted. No time passes backwards.
pub proof fn law_seconds_are_counted(from_ms: u64, to_ms: u64, secs: u32)
    requires
        call_ensures(edge::elapsed_secs, (from_ms, to_ms), secs),
    ensures
        to_ms <= from_ms ==> secs == 0,
        to_ms > from_ms ==> secs * 1000 <= to_ms - from_ms,
        to_ms > from_ms ==> to_ms - from_ms < (secs + 1) * 1000 || secs == u32::MAX,
{
}

/// What is left of a TTL goes by the whole seconds, however many.
pub(crate) proof fn lemma_hands_out_later(m: Seq<u8>, id: u16, from_ms: u64, to_ms: u64)
    ensures
        wire_laws::hands_out(
            m,
            dns::served(m, id, edge::secs_between(from_ms, to_ms)),
            id,
            whole_secs(from_ms, to_ms),
        ),
{
    let secs = edge::secs_between(from_ms, to_ms);
    let out = dns::served(m, id, secs);
    let fields = dns::answer_fields(m);
    wire_laws::lemma_hands_out(m, id, secs);
    assert forall|i: int| 0 <= i < fields.len() implies wire_laws::num32(out, #[trigger] fields[i])
        == wire_laws::less(wire_laws::num32(m, fields[i]), whole_secs(from_ms, to_ms)) by {
        assert(wire_laws::num32(m, fields[i]) <= u32::MAX);
    }
}

/// Each tier has its own name.
pub proof fn law_tier_names(tier: &Tier, name: &'static str)
    requires
        call_ensures(Tier::name, (tier,), name),
    ensures
        *tier is L1 ==> name@ == "L1"@,
        *tier is L2Hit ==> name@ == "L2-HIT"@,
        *tier is L2Miss ==> name@ == "L2-MISS"@,
        *tier is Upstream ==> name@ == "UPSTREAM"@,
{
}

/// A region's answer comes from its cache where its status says so, and from
/// upstream with any other status or none.
pub proof fn law_region_status(status: Option<String>, tier: Tier)
    requires
        call_ensures(edge::region_tier, (status,), tier),
    ensures
        tier is L2Hit <==> (status matches Some(s) && s@ == "HIT"@),
        tier is L2Hit || tier is L2Miss,
{
}

/// The region is the continent, where one is known.
pub proof fn law_region(continent: Option<String>, region: String)
    requires
        call_ensures(edge::region_from, (continent,), region),
    ensures
        continent matches Some(c) ==> region@ == c@,
        continent is None ==> region@ == "UNKNOWN"@,
{
}

/// The object that serves a region is named after it.
pub proof fn law_region_object(region: &str, name: String)
    requires
        call_ensures(edge::region_object, (region,), name),
    ensures
        name@ == "region:"@ + region@,
{
}

// ---------------------------------------------------------------------------
// Hits

/// A hit counts one hit; the client gets the stored message with every TTL
/// taken down by the seconds since it was fetched, under the client's id, and
/// is told the counts and that the first tier had it.
pub proof fn law_hit(
    query: &Query,
    counters: &mut Counters,
    cached: Vec<u8>,
    stamp_ms: Option<u64>,
    found_ms: u64,
    now_ms: u64,
    r: http::Response,
)
    requires
        call_ensures(Query::on_hit, (query, counters, cached, stamp_ms, found_ms, now_ms), r),
    ensures
        goes_up(old(counters).hits, final(counters).hits),
        final(counters).misses == old(counters).misses,
        http_laws::answers_client(r, final(counters).hits, final(counters).misses, None, "L1"@),
        stamp_ms matches Some(stamp) ==> wire_laws::hands_out(
            cached@,
            http_laws::bytes_in(r.body),
            query.client_id,
            whole_secs(stamp, now_ms),
        ),
        stamp_ms is None ==> wire_laws::hands_out(
            cached@,
            http_laws::bytes_in(r.body),
            query.client_id,
            whole_secs(found_ms, now_ms),
        ),
{
    let from = match stamp_ms {
        Some(stamp) => stamp,
        None => found_ms,
    };
    lemma_hands_out_later(cached@, query.client_id, from, now_ms);
    http_laws::lemma_client_reply(
        r,
        dns::served(cached@, query.client_id, edge::secs_between(from, now_ms)),
        final(counters).hits,
        final(counters).misses,
        None,
        "L1"@,
    );
}

/// Two bytes are the same where they make the same number.
proof fn lemma_same_two_bytes(a: Seq<u8>, b: Seq<u8>, n: int)
    requires
        wire_laws::num16(a, 0) == n,
        wire_laws::num16(b, 0) == n,
    ensures
        a[0] == b[0],
        a[1] == b[1],
{
}

/// The id of what is handed out is the number in its first two bytes.
proof fn lemma_handed_id(m: Seq<u8>, out: Seq<u8>, id: u16, elapsed: int)
    requires
        wire_laws::hands_out(m, out, id, elapsed),
    ensures
        out.len() == m.len(),
        m.len() >= 2 ==> wire_laws::num16(out, 0) == id,
{
}

/// The answer to a hit begins with the two bytes that the request began with.
pub proof fn law_hit_has_the_clients_id(
    request: Vec<u8>,
    query: Query,
    counters: &mut Counters,
    cached: Vec<u8>,
    stamp_ms: Option<u64>,
    found_ms: u64,
    now_ms: u64,
    r: http::Response,
)
    requires
        call_ensures(edge::accept, (request,), Ok::<Query, Refusal>(query)),
        call_ensures(Query::on_hit, (&query, counters, cached, stamp_ms, found_ms, now_ms), r),
        cached@.len() >= 2,
    ensures
        http_laws::bytes_in(r.body).len() == cached@.len(),
        http_laws::bytes_in(r.body)[0] == request@[0],
        http_laws::bytes_in(r.body)[1] == request@[1],
{
    let out = http_laws::bytes_in(r.body);
    assert(wire_laws::num16(request@, 0) == query.client_id) by {
        law_message_is_taken(request, Ok::<Query, Refusal>(query));
    }
    assert(out.len() == cached@.len() && wire_laws::num16(out, 0) == query.client_id) by {
        law_hit(&query, counters, cached, stamp_ms, found_ms, now_ms, r);
        if let Some(stamp) = stamp_ms {
            lemma_handed_id(cached@, out, query.client_id, whole_secs(stamp, now_ms));
        } else {
            lemma_handed_id(cached@, out, query.client_id, whole_secs(found_ms, now_ms));
        }
    }
    lemma_same_two_bytes(out, request@, query.client_id as int);
}

// ---------------------------------------------------------------------------
// Misses

/// A miss counts one miss, and goes on with the query and the counts as they
/// are then.
pub proof fn law_miss(query: Query, counters: &mut Counters, miss: Miss)
    requires
        call_ensures(Query::on_miss, (query, counters), miss),
    ensures
        goes_up(old(counters).misses, final(counters).misses),
        final(counters).hits == old(counters).hits,
        miss.query == query,
        miss.hits == final(counters).hits,
        miss.misses == final(counters).misses,
{
}

/// The object of the client's region is asked, and is sent the client's message
/// as it came.
pub proof fn law_region_is_asked(miss: &Miss, region: &str, call: (String, http::RequestInit))
    requires
        call_ensures(Miss::region_call, (miss, region), call),
    ensures
        call.0@ == "region:"@ + region@,
        call.1.method is Post,
        call.1.headers@.len() == 1,
        http_laws::header_is(
            call.1.headers@,
            0,
            "content-type"@,
            "application/dns-message"@,
        ),
        call.1.body is Bytes,
        http_laws::bytes_in(call.1.body) == miss.query.bytes@,
{
    http_laws::lemma_header_views(call.1.headers@);
    assert(http::header_views(call.1.headers@)[0] == ("content-type"@, "application/dns-message"@));
}

/// What a region answers is taken as it is, and as coming from its cache where
/// its status says so; where the region cannot be asked, the upstream resolver
/// is sent the client's message.
pub proof fn law_after_region(
    miss: &Miss,
    reply: Option<(Vec<u8>, Option<String>)>,
    next: AfterRegion,
)
    requires
        call_ensures(Miss::after_region, (miss, reply), next),
    ensures
        reply matches Some((bytes, status)) ==> {
            &&& next matches AfterRegion::Answered(b, tier) && b@ == bytes@ && (tier is L2Hit <==> (
            status matches Some(s) && s@ == "HIT"@)) && (tier is L2Hit || tier is L2Miss)
        },
        reply is None ==> {
            &&& next matches AfterRegion::AskUpstream(init) && init.method is Post
                && init.headers@.len() == 2 && http_laws::header_is(
                init.headers@,
                0,
                "accept"@,
                "application/dns-message"@,
            ) && http_laws::header_is(
                init.headers@,
                1,
                "content-type"@,
                "application/dns-message"@,
            ) && init.body is Bytes && http_laws::bytes_in(init.body) == miss.query.bytes@
        },
{
    if let AfterRegion::AskUpstream(init) = next {
        http_laws::lemma_header_views(init.headers@);
        let views = http::header_views(init.headers@);
        if reply is None {
            assert(views[0] == ("accept"@, "application/dns-message"@));
            assert(views[1] == ("content-type"@, "application/dns-message"@));
        }
    }
}

/// What the first tier keeps of an answer is the answer as it came, with its
/// type, one time for which it is kept, and one stamp of when it came; the time
/// is the least TTL of its records, or a minute where it has none or denies its
/// name.
pub proof fn law_answer_is_kept(miss: Miss, bytes: Vec<u8>, tier: Tier, now_ms: u64, answer: Answer)
    requires
        call_ensures(Miss::on_answer, (miss, bytes, tier, now_ms), answer),
    ensures
        is_key(answer.key@, miss.query.qname@, miss.query.qtype),
        http_laws::is_message(answer.kept),
        http_laws::bytes_in(answer.kept.body) == bytes@,
        answer.kept.headers@.len() == 3,
        exists|secs: int| #[trigger]
            http_laws::keeps_at(answer.kept, 1, secs) && wire_laws::keeps_for(bytes@, secs),
        http_laws::counts_at(answer.kept, 2, "x-fetched-at"@, now_ms as int),
{
    let r = answer.kept;
    let secs = dns::kept_secs(bytes@);
    wire_laws::lemma_keeps_for(bytes@);
    lemma_is_key(miss.query.qname@, miss.query.qtype);
    http_laws::lemma_header_views(r.headers@);
    http_laws::lemma_says("max-age="@, secs as nat);
    http_laws::lemma_reads_back(now_ms as nat);
    let views = http::header_views(r.headers@);
    assert(views[0] == ("content-type"@, "application/dns-message"@));
    assert(views[1] == ("cache-control"@, http::max_age(secs)));
    assert(views[2] == ("x-fetched-at"@, text::decimal(now_ms as nat)));
    assert(http_laws::keeps_at(r, 1, secs as int));
}

/// What is kept can be found again: under the key that a lookup of the same
/// question uses.
pub proof fn law_kept_where_looked_for(
    miss: Miss,
    bytes: Vec<u8>,
    tier: Tier,
    now_ms: u64,
    answer: Answer,
    qname: &str,
    qtype: u16,
    key: String,
)
    requires
        call_ensures(Miss::on_answer, (miss, bytes, tier, now_ms), answer),
        call_ensures(edge::cache_key, (qname, qtype), key),
    ensures
        answer.key@ == key@ <==> (qname@ == miss.query.qname@ && qtype == miss.query.qtype),
{
    if answer.key@ == key@ {
        edge::law_keys_differ(qname@, qtype, miss.query.qname@, miss.query.qtype);
    }
}

/// The client gets the answer as it came but for the id, and is told the counts
/// of the miss, the tier, and the same time for which the answer is kept.
pub proof fn law_answer_is_passed_on(
    miss: Miss,
    bytes: Vec<u8>,
    tier: Tier,
    now_ms: u64,
    answer: Answer,
    name: &'static str,
)
    requires
        call_ensures(Miss::on_answer, (miss, bytes, tier, now_ms), answer),
        call_ensures(Tier::name, (&tier,), name),
    ensures
        wire_laws::has_id(
            bytes@,
            http_laws::bytes_in(answer.reply.body),
            miss.query.client_id,
        ),
        exists|secs: u32|
            #[trigger] http_laws::answers_client(
                answer.reply,
                miss.hits,
                miss.misses,
                Some(secs),
                name@,
            ) && wire_laws::keeps_for(bytes@, secs as int),
{
    let secs = dns::kept_secs(bytes@);
    wire_laws::lemma_keeps_for(bytes@);
    wire_laws::lemma_has_id(bytes@, miss.query.client_id);
    http_laws::lemma_client_reply(
        answer.reply,
        dns::with_id(bytes@, miss.query.client_id),
        miss.hits,
        miss.misses,
        Some(secs),
        tier.label(),
    );
    assert(http_laws::answers_client(answer.reply, miss.hits, miss.misses, Some(secs), name@));
}

/// The answer to a miss begins with the two bytes that the request began with.
pub proof fn law_answer_has_the_clients_id(
    request: Vec<u8>,
    query: Query,
    counters: &mut Counters,
    miss: Miss,
    bytes: Vec<u8>,
    tier: Tier,
    now_ms: u64,
    answer: Answer,
)
    requires
        call_ensures(edge::accept, (request,), Ok::<Query, Refusal>(query)),
        call_ensures(Query::on_miss, (query, counters), miss),
        call_ensures(Miss::on_answer, (miss, bytes, tier, now_ms), answer),
        bytes@.len() >= 2,
    ensures
        http_laws::bytes_in(answer.reply.body).len() == bytes@.len(),
        http_laws::bytes_in(answer.reply.body)[0] == request@[0],
        http_laws::bytes_in(answer.reply.body)[1] == request@[1],
{
    law_message_is_taken(request, Ok::<Query, Refusal>(query));
    law_miss(query, counters, miss);
    wire_laws::lemma_has_id(bytes@, miss.query.client_id);
    http_laws::lemma_client_reply(
        answer.reply,
        dns::with_id(bytes@, miss.query.client_id),
        miss.hits,
        miss.misses,
        Some(dns::kept_secs(bytes@)),
        tier.label(),
    );
    let out = http_laws::bytes_in(answer.reply.body);
    assert(wire_laws::num16(out, 0) == wire_laws::num16(request@, 0));
}

/// No hit within the time for which an answer is kept hands out a record that
/// has run out, unless the answer denies its name: every TTL in it is what was
/// fetched less the whole seconds since, and more than nothing.
pub proof fn law_first_tier_is_fresh(
    miss: Miss,
    bytes: Vec<u8>,
    tier: Tier,
    then_ms: u64,
    answer: Answer,
    secs: int,
    query: &Query,
    counters: &mut Counters,
    cached: Vec<u8>,
    found_ms: u64,
    now_ms: u64,
    r: http::Response,
)
    requires
        call_ensures(Miss::on_answer, (miss, bytes, tier, then_ms), answer),
        http_laws::keeps_at(answer.kept, 1, secs),
        cached@ == http_laws::bytes_in(answer.kept.body),
        call_ensures(Query::on_hit, (query, counters, cached, Some(then_ms), found_ms, now_ms), r),
        secs > 0,
        now_ms - then_ms < secs * 1000,
        !wire_laws::denies(bytes@),
    ensures
        forall|i: int|
            0 <= i < dns::answer_fields(bytes@).len() ==> wire_laws::num32(
                http_laws::bytes_in(r.body),
                #[trigger] dns::answer_fields(bytes@)[i],
            ) == wire_laws::num32(bytes@, dns::answer_fields(bytes@)[i]) - whole_secs(
                then_ms,
                now_ms,
            ),
        forall|i: int|
            0 <= i < dns::answer_fields(bytes@).len() ==> wire_laws::num32(
                http_laws::bytes_in(r.body),
                #[trigger] dns::answer_fields(bytes@)[i],
            ) > 0,
{
    let fields = dns::answer_fields(bytes@);
    let out = http_laws::bytes_in(r.body);
    let elapsed = whole_secs(then_ms, now_ms);
    assert(cached@ == bytes@ && wire_laws::keeps_for(bytes@, secs)) by {
        law_answer_is_kept(miss, bytes, tier, then_ms, answer);
        let kept = choose|kept: int| #[trigger]
            http_laws::keeps_at(answer.kept, 1, kept) && wire_laws::keeps_for(bytes@, kept);
        http_laws::lemma_says_one(answer.kept.headers@[1].value@, "max-age="@, secs, kept);
    }
    assert(wire_laws::hands_out(bytes@, out, query.client_id, elapsed)) by {
        law_hit(query, counters, cached, Some(then_ms), found_ms, now_ms, r);
    }
    lemma_fresh(bytes@, out, query.client_id, elapsed, secs);
}

/// What is handed out before the time to keep it is over has time left in every
/// record.
pub(crate) proof fn lemma_fresh(m: Seq<u8>, out: Seq<u8>, id: u16, elapsed: int, secs: int)
    requires
        wire_laws::hands_out(m, out, id, elapsed),
        wire_laws::keeps_for(m, secs),
        !wire_laws::denies(m),
        0 <= elapsed < secs,
    ensures
        forall|i: int|
            0 <= i < dns::answer_fields(m).len() ==> wire_laws::num32(
                out,
                #[trigger] dns::answer_fields(m)[i],
            ) == wire_laws::num32(m, dns::answer_fields(m)[i]) - elapsed,
        forall|i: int|
            0 <= i < dns::answer_fields(m).len() ==> wire_laws::num32(
                out,
                #[trigger] dns::answer_fields(m)[i],
            ) > 0,
{
    let fields = dns::answer_fields(m);
    assert forall|i: int| 0 <= i < fields.len() implies wire_laws::num32(out, #[trigger] fields[i])
        == wire_laws::num32(m, fields[i]) - elapsed && wire_laws::num32(out, fields[i]) > 0 by {
        assert(secs <= wire_laws::num32(m, fields[i]));
    }
}

} // verus!
