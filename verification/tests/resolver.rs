use doh_edge::http::{bytes_response, error_response};
use doh_edge::resolver::{Fetched, Key, Pending, Resolver, Step};
use futures::executor::block_on;

fn query(id: u16, qtype: u16) -> Vec<u8> {
    let mut m = id.to_be_bytes().to_vec();
    m.extend([1, 0, 0, 1, 0, 0, 0, 0, 0, 0]);
    m.extend(b"\x07Example\x03com\x00");
    m.extend(qtype.to_be_bytes());
    m.extend([0, 1]);
    m
}

fn reply(id: u16, ttl: u32) -> Vec<u8> {
    let mut m = query(id, 1);
    m[7] = 1;
    m.extend([0xc0, 0x0c, 0, 1, 0, 1]);
    m.extend(ttl.to_be_bytes());
    m.extend([0, 4, 10, 0, 0, 1]);
    m
}

fn lead(r: &mut Resolver, q: &[u8], now_ms: u64) -> Pending {
    match r.begin(q, now_ms) {
        Step::Lead(p) => p,
        _ => panic!("should lead"),
    }
}

fn replied(r: &mut Resolver, q: &[u8], now_ms: u64) -> doh_edge::http::Response {
    match r.begin(q, now_ms) {
        Step::Reply(response) => response,
        _ => panic!("should reply"),
    }
}

/// A resolver that fetched a message with a TTL of 300 at ten seconds.
fn warmed() -> Resolver {
    let mut r = Resolver::new();
    let p = lead(&mut r, &query(1, 1), 10_000);
    let fetched = Fetched::Message(reply(1, 300));
    r.settle(&p, &fetched);
    r.finish(p, fetched);
    r
}

#[test]
fn a_query_without_a_question_is_refused() {
    let mut r = Resolver::new();
    let refused = error_response("unparseable dns query".to_string(), 400);
    assert_eq!(replied(&mut r, &[0; 3], 0), refused);
    assert_eq!(replied(&mut r, &[0; 12], 0), refused);
}

#[test]
fn a_fetched_message_goes_out_under_the_askers_id() {
    let mut r = Resolver::new();
    let p = lead(&mut r, &query(0x0505, 1), 77);
    let key = Key { qname: "example.com".to_string(), qtype: 1 };
    assert_eq!(p, Pending { key: key.clone(), client_id: 0x0505, asked_ms: 77 });
    let fetched = Fetched::Message(reply(9, 300));
    assert!(r.settle(&p, &fetched).is_empty());
    assert_eq!(r.finish(p, fetched), bytes_response(reply(0x0505, 300), "MISS"));
    assert_eq!(r.serve_from_cache(&key, 3, 1_077), Some(reply(3, 299)));
}

#[test]
fn kept_messages_are_served_until_their_time_is_up() {
    let mut r = warmed();
    assert_eq!(
        replied(&mut r, &query(0x0707, 1), 10_999),
        bytes_response(reply(0x0707, 300), "HIT")
    );
    assert_eq!(
        replied(&mut r, &query(0x0808, 1), 309_999),
        bytes_response(reply(0x0808, 1), "HIT")
    );
    // A clock that went back is no time passed.
    assert_eq!(
        replied(&mut r, &query(0x0909, 1), 5_000),
        bytes_response(reply(0x0909, 300), "HIT")
    );
    lead(&mut r, &query(1, 1), 310_000);
}

#[test]
fn the_first_message_stays_even_when_it_has_expired() {
    let mut r = warmed();
    let p = lead(&mut r, &query(2, 1), 400_000);
    let fetched = Fetched::Message(reply(2, 500));
    r.settle(&p, &fetched);
    assert_eq!(r.finish(p, fetched), bytes_response(reply(2, 500), "MISS"));
    lead(&mut r, &query(3, 1), 400_001);
}

#[test]
fn questions_do_not_mix() {
    let mut r = warmed();
    let p = lead(&mut r, &query(2, 28), 11_000);
    assert_eq!(p.key.qtype, 28);
    assert_eq!(
        replied(&mut r, &query(4, 1), 11_000),
        bytes_response(reply(4, 299), "HIT")
    );
}

#[test]
fn a_message_without_answers_is_kept_for_a_minute() {
    let mut r = Resolver::new();
    let p = lead(&mut r, &query(1, 1), 0);
    let fetched = Fetched::Message(query(1, 1));
    r.settle(&p, &fetched);
    r.finish(p, fetched);
    assert_eq!(
        replied(&mut r, &query(6, 1), 59_999),
        bytes_response(query(6, 1), "HIT")
    );
    lead(&mut r, &query(1, 1), 60_000);
}

#[test]
fn a_failed_fetch_is_told_and_not_kept() {
    let mut r = Resolver::new();
    let p = lead(&mut r, &query(1, 1), 0);
    let fetched = Fetched::Failed("no route".to_string());
    r.settle(&p, &fetched);
    assert_eq!(
        r.finish(p, fetched),
        error_response("upstream: no route".to_string(), 502)
    );
    lead(&mut r, &query(1, 1), 1);
}

#[test]
fn all_who_ask_meanwhile_share_one_fetch() {
    let mut r = Resolver::new();
    let leader = lead(&mut r, &query(1, 1), 0);
    let mut waiting = vec![];
    for id in 2..6 {
        match r.begin(&query(id, 1), 10) {
            Step::Follow(p, rx) => waiting.push((id, p, rx)),
            _ => panic!("should follow"),
        }
    }
    // Another question is fetched on its own.
    lead(&mut r, &query(1, 28), 10);
    let fetched = Fetched::Message(reply(1, 300));
    assert_eq!(r.settle(&leader, &fetched), vec![Ok(()), Ok(()), Ok(()), Ok(())]);
    assert_eq!(r.finish(leader, fetched), bytes_response(reply(1, 300), "MISS"));
    for (id, p, rx) in waiting {
        let got = block_on(rx).unwrap();
        assert_eq!(r.finish(p, got), bytes_response(reply(id, 300), "MISS"));
    }
    assert_eq!(
        replied(&mut r, &query(8, 1), 1_000),
        bytes_response(reply(8, 299), "HIT")
    );
}

#[test]
fn a_message_that_denies_its_name_is_kept_for_a_minute() {
    let mut r = Resolver::new();
    let p = lead(&mut r, &query(1, 1), 0);
    let mut denied = reply(1, 300);
    denied[3] |= 3;
    let fetched = Fetched::Message(denied);
    r.settle(&p, &fetched);
    r.finish(p, fetched);
    let mut expected = reply(6, 241);
    expected[3] |= 3;
    assert_eq!(
        replied(&mut r, &query(6, 1), 59_999),
        bytes_response(expected, "HIT")
    );
    lead(&mut r, &query(1, 1), 60_000);
}
