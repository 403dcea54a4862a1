use doh_edge::http::{
    build_response, bytes_response, dns_post_init, dns_response, finalize, region_post_init, Body,
    Header, Method, RequestInit, Response, DNS_MSG, REGION_URL, UPSTREAM_URL,
};
use doh_edge::text::decimal_text;

fn header(name: &str, value: &str) -> Header {
    Header { name: name.to_string(), value: value.to_string() }
}

#[test]
fn the_upstream_request_says_what_it_sends_and_takes() {
    assert_eq!(UPSTREAM_URL, "https://1.1.1.1/dns-query");
    assert_eq!(REGION_URL, "https://do/resolve");
    assert_eq!(
        dns_post_init(&[1, 2]),
        RequestInit {
            method: Method::Post,
            headers: vec![header("accept", DNS_MSG), header("content-type", DNS_MSG)],
            body: Body::Bytes(vec![1, 2]),
        }
    );
    assert_eq!(region_post_init(&[3]).headers, vec![header("content-type", DNS_MSG)]);
}

#[test]
fn responses_carry_their_headers() {
    let plain = dns_response(vec![5]);
    assert_eq!(
        plain,
        Response {
            status: 200,
            headers: vec![header("content-type", "application/dns-message")],
            body: Body::Bytes(vec![5]),
        }
    );
    assert_eq!(build_response(vec![5], None), plain);
    assert_eq!(
        build_response(vec![5], Some(0)).headers[1],
        header("cache-control", "max-age=0")
    );
    assert_eq!(
        bytes_response(vec![], "HIT").headers,
        vec![header("content-type", DNS_MSG), header("x-do-status", "HIT")]
    );
    assert_eq!(
        finalize(vec![], 10, u64::MAX, Some(u32::MAX), "L1").headers,
        vec![
            header("content-type", DNS_MSG),
            header("cache-control", "max-age=4294967295"),
            header("x-cache-hits", "10"),
            header("x-cache-misses", "18446744073709551615"),
            header("x-cache-tier", "L1"),
        ]
    );
}

#[test]
fn numbers_are_written_as_usual() {
    for n in [0, 7, 10, 99, 100, 12345, 1_000_000, u64::MAX] {
        assert_eq!(decimal_text(n), n.to_string());
    }
}
