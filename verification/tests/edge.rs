use base64::engine::general_purpose::URL_SAFE_NO_PAD;
use base64::Engine;
use doh_edge::edge::{
    accept, cache_key, decode_dns_param, elapsed_secs, read_message, read_query, region_from,
    region_object, region_tier, AfterRegion, Base64Error, Counters, Incoming, Query, Refusal, Tier,
};
use doh_edge::http::{error_response, Body, Header, Method, Response};

/// A query for `example.com`.
fn query(id: u16) -> Vec<u8> {
    let mut m = id.to_be_bytes().to_vec();
    m.extend([1, 0, 0, 1, 0, 0, 0, 0, 0, 0]);
    m.extend(b"\x07ExAmple\x03com\x00\x00\x01\x00\x01");
    m
}

/// A reply with one answer.
fn reply(id: u16, ttl: u32) -> Vec<u8> {
    let mut m = query(id);
    m[2] = 0x81;
    m[7] = 1;
    m.extend([0xc0, 0x0c, 0, 1, 0, 1]);
    m.extend(ttl.to_be_bytes());
    m.extend([0, 4, 10, 0, 0, 1]);
    m
}

fn get(value: &str) -> Incoming {
    Incoming::Get(vec![
        ("ct".to_string(), "x".to_string()),
        ("dns".to_string(), value.to_string()),
        ("dns".to_string(), "!".to_string()),
    ])
}

fn asked(id: u16) -> Query {
    accept(query(id)).unwrap()
}

fn headers(r: &Response) -> Vec<(&str, &str)> {
    r.headers.iter().map(|h: &Header| (h.name.as_str(), h.value.as_str())).collect()
}

#[test]
fn a_query_in_the_url_is_one_in_the_body() {
    let q = query(0x1234);
    let in_url = read_query(get(&URL_SAFE_NO_PAD.encode(&q))).unwrap();
    let in_body = read_query(Incoming::Post(q.clone())).unwrap();
    assert_eq!(in_url, in_body);
    assert_eq!(in_body.bytes, q);
    assert_eq!(in_body.client_id, 0x1234);
    assert_eq!(in_body.qname, "example.com");
    assert_eq!(in_body.qtype, 1);
}

#[test]
fn padding_is_ignored() {
    assert_eq!(decode_dns_param("AAECA-_"), decode_dns_param("AAECA-_==="));
    assert_eq!(decode_dns_param("_-8="), Ok(vec![0xff, 0xef]));
    assert_eq!(decode_dns_param("===="), Ok(vec![]));
    assert_eq!(read_message(get("-_8")), Ok(vec![0xfb, 0xff]));
}

#[test]
fn bad_base64_is_told_apart() {
    assert_eq!(decode_dns_param("AA+A"), Err(Base64Error::InvalidByte(2, b'+')));
    assert_eq!(decode_dns_param("AA=A"), Err(Base64Error::InvalidByte(2, b'=')));
    assert_eq!(decode_dns_param("AAAAA"), Err(Base64Error::InvalidLength(5)));
    assert_eq!(decode_dns_param("AAB"), Err(Base64Error::InvalidLastSymbol(2, b'B')));
}

#[test]
fn bad_base64_is_told_in_the_words_of_the_decoder() {
    for text in ["AA+A", "AA=A", "AAAAA", "AAB", "\u{e9}", "A"] {
        let theirs = URL_SAFE_NO_PAD.decode(text).unwrap_err().to_string();
        assert_eq!(decode_dns_param(text).unwrap_err().message(), theirs);
        assert_eq!(
            read_query(get(text)),
            Err(Refusal::Fault(format!("bad base64url: {theirs}")))
        );
    }
    assert_eq!(
        Base64Error::InvalidPadding.message(),
        base64::DecodeError::InvalidPadding.to_string()
    );
    assert_eq!(
        Base64Error::InvalidByte(120, 7).message(),
        "Invalid symbol 7, offset 120."
    );
}

#[test]
fn other_requests_are_refused() {
    let refused = |m: &str, s: u16| Err(Refusal::Reply(error_response(m.to_string(), s)));
    assert_eq!(read_query(Incoming::Get(vec![])), refused("missing ?dns=", 400));
    assert_eq!(
        read_query(Incoming::Get(vec![("DNS".to_string(), "AAAA".to_string())])),
        refused("missing ?dns=", 400)
    );
    assert_eq!(read_query(Incoming::Other), refused("method not allowed", 405));
    assert_eq!(read_query(Incoming::Post(vec![0; 11])), refused("short DNS message", 400));
    assert_eq!(read_query(Incoming::Post(vec![0; 12])), refused("unparseable dns query", 400));
    assert_eq!(
        error_response("x".to_string(), 418),
        Response { status: 418, headers: vec![], body: Body::Text("x".to_string()) }
    );
}

#[test]
fn keys_name_the_question() {
    assert_eq!(cache_key("example.com", 28), "https://doh-edge.cache/example.com/28");
    assert_eq!(cache_key("", 65535), "https://doh-edge.cache//65535");
    assert_ne!(cache_key("a/1", 2), cache_key("a", 12));
}

#[test]
fn queries_of_one_question_share_a_key() {
    let a = asked(1);
    let mut m = query(2);
    m[14] = b'x';
    m[13] = b'E';
    let n = m.len();
    m[n - 1] = 255;
    m.extend([0, 0, 41, 2, 0, 0, 0, 0, 0, 0, 0]);
    let b = accept(m).unwrap();
    assert_eq!(cache_key(&a.qname, a.qtype), cache_key(&b.qname, b.qtype));
}

#[test]
fn counts_go_up_by_one_and_start_over() {
    let mut c = Counters::new();
    c.record_hit();
    c.record_hit();
    c.record_miss();
    assert_eq!(c, Counters { hits: 2, misses: 1 });
    let mut full = Counters { hits: u64::MAX, misses: u64::MAX };
    full.record_hit();
    assert_eq!(full, Counters { hits: 0, misses: u64::MAX });
    assert_eq!(Counters::default(), Counters { hits: 0, misses: 0 });
}

#[test]
fn elapsed_time_is_in_whole_seconds() {
    assert_eq!(elapsed_secs(1_000, 1_999), 0);
    assert_eq!(elapsed_secs(1_000, 3_000), 2);
    assert_eq!(elapsed_secs(3_000, 1_000), 0);
    assert_eq!(elapsed_secs(0, u64::MAX), u32::MAX);
    assert_eq!(elapsed_secs(0, 4_294_967_295_999), u32::MAX);
    assert_eq!(elapsed_secs(0, 4_294_967_294_999), u32::MAX - 1);
}

#[test]
fn a_hit_is_aged_and_counted() {
    let q = asked(0x0abc);
    let mut c = Counters { hits: 4, misses: 9 };
    let r = q.on_hit(&mut c, reply(7, 300), Some(10_000), 99_000, 25_500);
    assert_eq!(c, Counters { hits: 5, misses: 9 });
    assert_eq!(r.status, 200);
    assert_eq!(
        headers(&r),
        vec![
            ("content-type", "application/dns-message"),
            ("x-cache-hits", "5"),
            ("x-cache-misses", "9"),
            ("x-cache-tier", "L1"),
        ]
    );
    assert_eq!(r.body, Body::Bytes(reply(0x0abc, 285)));
}

#[test]
fn a_hit_without_a_stamp_counts_from_when_it_was_found() {
    let q = asked(1);
    let mut c = Counters::new();
    let r = q.on_hit(&mut c, reply(7, 300), None, 20_000, 23_000);
    assert_eq!(r.body, Body::Bytes(reply(1, 297)));
}

#[test]
fn a_miss_asks_the_region_and_then_upstream() {
    let mut c = Counters { hits: 4, misses: 9 };
    let miss = asked(5).on_miss(&mut c);
    assert_eq!((miss.hits, miss.misses), (4, 10));
    assert_eq!(c, Counters { hits: 4, misses: 10 });
    let (object, call) = miss.region_call("EU");
    assert_eq!(object, "region:EU");
    assert_eq!(call.method, Method::Post);
    assert_eq!(call.headers.len(), 1);
    assert_eq!(call.headers[0].name, "content-type");
    assert_eq!(call.headers[0].value, "application/dns-message");
    assert_eq!(call.body, Body::Bytes(query(5)));

    let hit = miss.after_region(Some((vec![1], Some("HIT".to_string()))));
    assert_eq!(hit, AfterRegion::Answered(vec![1], Tier::L2Hit));
    let fetched = miss.after_region(Some((vec![1], Some("MISS".to_string()))));
    assert_eq!(fetched, AfterRegion::Answered(vec![1], Tier::L2Miss));
    match miss.after_region(None) {
        AfterRegion::AskUpstream(init) => {
            let names: Vec<_> = init.headers.iter().map(|h| h.name.as_str()).collect();
            assert_eq!(names, vec!["accept", "content-type"]);
            assert_eq!(init.body, Body::Bytes(query(5)));
        }
        other => panic!("{other:?}"),
    }
}

#[test]
fn an_answer_is_kept_as_it_came() {
    let mut c = Counters { hits: 1, misses: 1 };
    let miss = asked(0x0202).on_miss(&mut c);
    let answer = miss.on_answer(reply(0x0101, 300), Tier::Upstream, 1_700_000_000_123);
    assert_eq!(answer.key, "https://doh-edge.cache/example.com/1");
    assert_eq!(answer.kept.body, Body::Bytes(reply(0x0101, 300)));
    assert_eq!(
        headers(&answer.kept),
        vec![
            ("content-type", "application/dns-message"),
            ("cache-control", "max-age=300"),
            ("x-fetched-at", "1700000000123"),
        ]
    );
    assert_eq!(answer.reply.body, Body::Bytes(reply(0x0202, 300)));
    assert_eq!(
        headers(&answer.reply),
        vec![
            ("content-type", "application/dns-message"),
            ("cache-control", "max-age=300"),
            ("x-cache-hits", "1"),
            ("x-cache-misses", "2"),
            ("x-cache-tier", "UPSTREAM"),
        ]
    );
}

#[test]
fn the_second_client_gets_what_the_first_got() {
    let mut c = Counters::new();
    let answer = asked(1).on_miss(&mut c).on_answer(reply(9, 300), Tier::L2Miss, 50_000);
    let kept = match answer.kept.body {
        Body::Bytes(b) => b,
        other => panic!("{other:?}"),
    };
    let second = asked(2).on_hit(&mut c, kept, Some(50_000), 0, 61_000);
    assert_eq!(answer.reply.body, Body::Bytes(reply(1, 300)));
    assert_eq!(second.body, Body::Bytes(reply(2, 289)));
}

#[test]
fn tiers_and_regions_have_names() {
    assert_eq!(Tier::L1.name(), "L1");
    assert_eq!(Tier::L2Hit.name(), "L2-HIT");
    assert_eq!(Tier::L2Miss.name(), "L2-MISS");
    assert_eq!(Tier::Upstream.name(), "UPSTREAM");
    assert_eq!(region_tier(None), Tier::L2Miss);
    assert_eq!(region_tier(Some("hit".to_string())), Tier::L2Miss);
    assert_eq!(region_tier(Some("HIT".to_string())), Tier::L2Hit);
    assert_eq!(region_from(None), "UNKNOWN");
    assert_eq!(region_from(Some("NA".to_string())), "NA");
    assert_eq!(region_object("UNKNOWN"), "region:UNKNOWN");
}

#[test]
fn an_answer_that_denies_its_name_is_kept_for_a_minute() {
    let mut c = Counters::new();
    let mut denied = reply(1, 300);
    denied[3] = 0x83;
    let answer = asked(1).on_miss(&mut c).on_answer(denied, Tier::L2Miss, 0);
    assert_eq!(headers(&answer.kept)[1], ("cache-control", "max-age=60"));
    assert_eq!(headers(&answer.reply)[1], ("cache-control", "max-age=60"));
}
