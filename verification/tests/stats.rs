use doh_edge::http::{Body, Header, Method};
use doh_edge::stats::{
    jnum, jstr, page_response, render_counts, render_html, render_l2_tail, render_latency,
    render_tier_dist, sql_request, Cell, Overall, Row, Share, BAR_WIDTH, Q_COLOS, Q_L2_HIT_TAIL,
    Q_OVERALL, Q_QTYPES, Q_RCODES, Q_TIER_LATENCY, Q_TOP_NAMES,
};

fn row(cells: &[(&str, &str, f64)]) -> Row {
    Row {
        fields: cells
            .iter()
            .map(|(name, label, n)| {
                (name.to_string(), Cell { label: label.to_string(), number: format!("{n:.0}") })
            })
            .collect(),
    }
}

fn share(n: f64, total: f64) -> Share {
    Share {
        bar_len: (n / total * BAR_WIDTH as f64) as usize,
        percent: format!("{:.1}", n / total * 100.0),
        count: format!("{n:.0}"),
    }
}

#[test]
fn cells_are_found_by_column() {
    let r = row(&[("qname", "a.example", 0.0), ("n", "12", 12.0), ("n", "13", 13.0)]);
    assert_eq!(jstr(&r, "qname"), "a.example");
    assert_eq!(jnum(&r, "n"), "12");
    assert_eq!(jstr(&r, "missing"), "");
    assert_eq!(jnum(&r, "missing"), "0");
}

#[test]
fn counts_are_set_in_columns() {
    let long = "x".repeat(45);
    let rows = [
        row(&[("qname", "example.com", 0.0), ("n", "1234", 1234.0)]),
        row(&[("qname", &long, 0.0), ("n", "7", 123456789.0)]),
        row(&[]),
    ];
    let expected = format!("  {:<40} {:>8.0}\n", "example.com", 1234.0)
        + &format!("  {:<40} {:>8.0}\n", long, 123456789.0)
        + &format!("  {:<40} {:>8.0}\n", "", 0.0);
    assert_eq!(render_counts(&rows, "qname", "n"), expected);
    assert_eq!(render_counts(&[], "qname", "n"), "");
}

#[test]
fn latencies_are_set_in_columns() {
    let rows = [row(&[
        ("tier", "L2-HIT", 0.0),
        ("n", "", 42.0),
        ("p50", "", 1.6),
        ("p95", "", 20.0),
        ("p99", "", 12345.0),
        ("up50", "", 3.0),
    ])];
    let head = "              count   total p50/p95/p99      upstream p50/p95\n";
    let line = format!(
        "  {:<10} {:>8.0}   {:>4.0} / {:>4.0} / {:>4.0}      {:>4.0} / {:>4.0}\n",
        "L2-HIT", 42.0, 1.6, 20.0, 12345.0, 3.0, 0.0
    );
    assert_eq!(render_latency(&rows), format!("{head}{line}"));
    assert_eq!(render_latency(&[]), head);
}

#[test]
fn slow_places_are_set_in_columns() {
    assert_eq!(render_l2_tail(&[]), "  (none)\n");
    let rows = [row(&[("colo", "FRA", 0.0), ("n", "", 3.0), ("p95", "", 512.4)])];
    assert_eq!(
        render_l2_tail(&rows),
        format!("              count   p95\n  {:<10} {:>8.0}   {:>5.0}\n", "FRA", 3.0, 512.4)
    );
}

#[test]
fn tiers_have_bars() {
    let shares = [50.0, 25.0, 5.0, 15.0, 5.0];
    let s: Vec<Share> = shares.iter().map(|n| share(*n, 100.0)).collect();
    let mut expected = String::new();
    for (label, n) in ["L1", "L2-HIT", "L2-STALE", "L2-MISS", "UPSTREAM"].iter().zip(shares) {
        let bar = "█".repeat((n / 100.0 * 30.0) as usize);
        expected.push_str(&format!("  {label:<10} {bar:<30} {n:>5.1}%  {n:>8.0}\n"));
    }
    assert_eq!(render_tier_dist(&s[0], &s[1], &s[2], &s[3], &s[4]), expected);
    assert_eq!(expected.lines().next().unwrap().matches('█').count(), 15);
}

#[test]
fn the_page_has_all_parts_in_order() {
    let overall = Overall {
        total: "200".to_string(),
        hit_rate: "75.0".to_string(),
        p50: "3".to_string(),
        p95: "40".to_string(),
        p99: "500".to_string(),
        l1: share(100.0, 200.0),
        l2_hit: share(40.0, 200.0),
        l2_stale: share(10.0, 200.0),
        l2_miss: share(50.0, 200.0),
        upstream: share(0.0, 200.0),
    };
    let names = [row(&[("qname", "example.com", 0.0), ("n", "", 9.0)])];
    let qtypes = [row(&[("qtype", "AAAA", 0.0), ("n", "", 8.0)])];
    let rcodes = [row(&[("rcode", "NOERROR", 0.0), ("n", "", 7.0)])];
    let colos = [row(&[("colo", "FRA", 0.0), ("n", "", 6.0)])];
    let latency = [row(&[("tier", "L1", 0.0), ("n", "", 5.0)])];
    let html = render_html(&overall, &latency, &names, &qtypes, &rcodes, &colos, &[]);
    assert!(html.starts_with("<!doctype html>\n<html>\n<head>\n"));
    assert!(html.ends_with("</p>\n</body>\n</html>"));
    let body = format!(
        "<pre>\nQueries         {:>10}\nCache hit rate  {:>9.1}%\np50 latency     {:>9.0} ms\n\
         p95 latency     {:>9.0} ms\np99 latency     {:>9.0} ms\n\nTier distribution\n{}\n\
         Latency by tier (ms)\n{}\nTop 20 queried names\n{}\nQtype distribution\n{}\n\
         Response codes\n{}\nTop colos\n{}\nSlow L2-HITs (>400ms) by colo\n{}</pre>\n",
        200.0,
        75.0,
        3.0,
        40.0,
        500.0,
        render_tier_dist(
            &overall.l1,
            &overall.l2_hit,
            &overall.l2_stale,
            &overall.l2_miss,
            &overall.upstream
        ),
        render_latency(&latency),
        render_counts(&names, "qname", "n"),
        render_counts(&qtypes, "qtype", "n"),
        render_counts(&rcodes, "rcode", "n"),
        render_counts(&colos, "colo", "n"),
        render_l2_tail(&[]),
    );
    assert!(html.contains(&body));
}

#[test]
fn questions_name_the_table() {
    let all = [
        Q_OVERALL, Q_TIER_LATENCY, Q_TOP_NAMES, Q_QTYPES, Q_RCODES, Q_L2_HIT_TAIL, Q_COLOS,
    ];
    for sql in all {
        let (url, init) = sql_request("acct", "secret", sql);
        assert_eq!(
            url,
            "https://api.cloudflare.com/client/v4/accounts/acct/analytics_engine/sql"
        );
        assert_eq!(init.method, Method::Post);
        assert_eq!(
            init.headers,
            vec![
                Header { name: "authorization".to_string(), value: "Bearer secret".to_string() },
                Header { name: "content-type".to_string(), value: "text/plain".to_string() },
            ]
        );
        assert_eq!(init.body, Body::Text(sql.replace("DATASET", "doh_edge_queries_v2")));
    }
    let (_, init) = sql_request("a", "t", "DATASETDATASET DATASE DDATASET");
    assert_eq!(
        init.body,
        Body::Text(
            "doh_edge_queries_v2doh_edge_queries_v2 DATASE Ddoh_edge_queries_v2".to_string()
        )
    );
}

#[test]
fn nobody_keeps_the_page() {
    let r = page_response("<p>".to_string());
    assert_eq!(r.status, 200);
    assert_eq!(
        r.headers,
        vec![Header { name: "cache-control".to_string(), value: "no-store".to_string() }]
    );
    assert_eq!(r.body, Body::Html("<p>".to_string()));
}
