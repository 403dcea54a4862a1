//! The page of statistics: the questions put to the analytics store, and the
//! text that is made of what it answers.
//!
//! Numbers come in as they are to be shown. A row of an answer has a cell for
//! each of its columns, with the cell's text and its number without decimals.
use crate::http;
use crate::http::{Body, Header, Method, RequestInit, Response};
use crate::text;
use vstd::prelude::*;

verus! {

// ---------------------------------------------------------------------------
// Questions to the analytics store

/// The table that queries are logged to.
pub const DATASET: &'static str = "doh_edge_queries_v2";

/// The number of blocks in the bar of a tier that had all queries.
pub const BAR_WIDTH: usize = 30;

/// How many queries there were, by tier, and how long they took.
pub const Q_OVERALL: &'static str = "
SELECT
  count() AS total,
  sum(if(blob1 = 'L1', 1, 0)) AS l1,
  sum(if(blob1 = 'L2-HIT', 1, 0)) AS l2_hit,
  sum(if(blob1 = 'L2-STALE', 1, 0)) AS l2_stale,
  sum(if(blob1 = 'L2-MISS', 1, 0)) AS l2_miss,
  sum(if(blob1 = 'UPSTREAM', 1, 0)) AS upstream,
  quantileWeighted(0.5)(double1, _sample_interval) AS p50,
  quantileWeighted(0.95)(double1, _sample_interval) AS p95,
  quantileWeighted(0.99)(double1, _sample_interval) AS p99
FROM DATASET
WHERE timestamp > NOW() - INTERVAL '24' HOUR
";

/// How long queries took, for each tier.
pub const Q_TIER_LATENCY: &'static str = "
SELECT
  blob1 AS tier,
  count() AS n,
  quantileWeighted(0.5)(double1, _sample_interval) AS p50,
  quantileWeighted(0.95)(double1, _sample_interval) AS p95,
  quantileWeighted(0.99)(double1, _sample_interval) AS p99,
  quantileWeighted(0.5)(double2, _sample_interval) AS up50,
  quantileWeighted(0.95)(double2, _sample_interval) AS up95
FROM DATASET
WHERE timestamp > NOW() - INTERVAL '24' HOUR
GROUP BY tier
ORDER BY n DESC
";

/// The names asked for most.
pub const Q_TOP_NAMES: &'static str = "
SELECT index1 AS qname, count() AS n
FROM DATASET
WHERE timestamp > NOW() - INTERVAL '24' HOUR
GROUP BY qname
ORDER BY n DESC
LIMIT 20
";

/// The types asked for.
pub const Q_QTYPES: &'static str = "
SELECT blob2 AS qtype, count() AS n
FROM DATASET
WHERE timestamp > NOW() - INTERVAL '24' HOUR
GROUP BY qtype
ORDER BY n DESC
";

/// The codes answered.
pub const Q_RCODES: &'static str = "
SELECT blob5 AS rcode, count() AS n
FROM DATASET
WHERE timestamp > NOW() - INTERVAL '24' HOUR
GROUP BY rcode
ORDER BY n DESC
";

/// Where the regional cache was slow.
pub const Q_L2_HIT_TAIL: &'static str = "
SELECT blob4 AS colo, count() AS n, quantileWeighted(0.95)(double1, _sample_interval) AS p95
FROM DATASET
WHERE timestamp > NOW() - INTERVAL '24' HOUR AND blob1 = 'L2-HIT' AND double1 > 400
GROUP BY colo
ORDER BY n DESC
";

/// Where most queries came in.
pub const Q_COLOS: &'static str = "
SELECT blob4 AS colo, count() AS n
FROM DATASET
WHERE timestamp > NOW() - INTERVAL '24' HOUR
GROUP BY colo
ORDER BY n DESC
LIMIT 10
";

/// Where an account's analytics are asked for.
pub open spec fn sql_url(account_id: Seq<char>) -> Seq<char> {
    "https://api.cloudflare.com/client/v4/accounts/"@ + account_id + "/analytics_engine/sql"@
}

/// The request that puts a question: the word `DATASET` in it stands for the
/// table.
pub open spec fn sql_request_view(token: Seq<char>, sql: Seq<char>) -> http::RequestView {
    http::RequestView {
        method: Method::Post,
        headers: seq![
            ("authorization"@, "Bearer "@ + token),
            ("content-type"@, "text/plain"@),
        ],
        body: http::BodyView::Text(text::replaced(sql, "DATASET"@, DATASET@)),
    }
}

/// Where to send a question to the analytics store, and the request for it.
pub fn sql_request(account_id: &str, token: &str, sql: &str) -> (request: (String, RequestInit))
    ensures
        request.0@ == sql_url(account_id@),
        request.1@ == sql_request_view(token@, sql@),
{
    let mut url = "https://api.cloudflare.com/client/v4/accounts/".to_owned();
    url.append(account_id);
    url.append("/analytics_engine/sql");
    proof {
        reveal_strlit("DATASET");
    }
    let body = text::replace_word(sql, "DATASET", DATASET);
    let mut bearer = "Bearer ".to_owned();
    bearer.append(token);
    let mut headers: Vec<Header> = Vec::new();
    http::set_header(&mut headers, "authorization", bearer);
    http::set_header(&mut headers, "content-type", "text/plain".to_owned());
    let init = RequestInit { method: Method::Post, headers, body: Body::Text(body) };
    assert(init@.headers =~= sql_request_view(token@, sql@).headers);
    (url, init)
}

/// The page as a response that nobody keeps.
pub fn page_response(html: String) -> (response: Response)
    ensures
        response@ == (http::ResponseView {
            status: 200,
            headers: seq![("cache-control"@, "no-store"@)],
            body: http::BodyView::Html(html@),
        }),
{
    let mut headers: Vec<Header> = Vec::new();
    http::set_header(&mut headers, "cache-control", "no-store".to_owned());
    let response = Response { status: 200, headers, body: Body::Html(html) };
    assert(response@.headers =~= seq![("cache-control"@, "no-store"@)]);
    response
}

// ---------------------------------------------------------------------------
// Rows

/// A cell of an answer.
#[derive(Debug, PartialEq, Eq)]
pub struct Cell {
    /// The cell as text.
    pub label: String,
    /// The cell as a number, without decimals.
    pub number: String,
}

/// A cell, as mathematics.
pub struct CellView {
    pub label: Seq<char>,
    pub number: Seq<char>,
}

impl View for Cell {
    type V = CellView;

    open spec fn view(&self) -> CellView {
        CellView { label: self.label@, number: self.number@ }
    }
}

/// A row of an answer: its columns and what stands in them.
#[derive(Debug, PartialEq, Eq)]
pub struct Row {
    pub fields: Vec<(String, Cell)>,
}

impl View for Row {
    type V = Seq<(Seq<char>, CellView)>;

    open spec fn view(&self) -> Seq<(Seq<char>, CellView)> {
        self.fields@.map_values(|f: (String, Cell)| (f.0@, f.1@))
    }
}

/// Rows, as mathematics.
pub open spec fn row_views(rows: Seq<Row>) -> Seq<Seq<(Seq<char>, CellView)>> {
    rows.map_values(|r: Row| r@)
}

/// The cell in a column: the first of that name.
pub open spec fn cell_in(row: Seq<(Seq<char>, CellView)>, column: Seq<char>) -> Option<CellView>
    decreases row.len(),
{
    if row.len() == 0 {
        None
    } else if row[0].0 == column {
        Some(row[0].1)
    } else {
        cell_in(row.skip(1), column)
    }
}

/// The text in a column; empty where the row has no such column.
pub open spec fn label_in(row: Seq<(Seq<char>, CellView)>, column: Seq<char>) -> Seq<char> {
    match cell_in(row, column) {
        Some(cell) => cell.label,
        None => seq![],
    }
}

/// The number in a column; zero where the row has no such column.
pub open spec fn number_in(row: Seq<(Seq<char>, CellView)>, column: Seq<char>) -> Seq<char> {
    match cell_in(row, column) {
        Some(cell) => cell.number,
        None => "0"@,
    }
}

fn find_cell(row: &Row, column: &str) -> (found: Option<usize>)
    ensures
        match found {
            Some(i) => i < row.fields@.len() && cell_in(row@, column@) == Some(
                row.fields@[i as int].1@,
            ),
            None => cell_in(row@, column@) is None,
        },
{
    let wanted = column.to_owned();
    let ghost all = row@;
    assert(all.skip(0) =~= all);
    let mut i: usize = 0;
    while i < row.fields.len()
        invariant
            i <= row.fields@.len(),
            all == row@,
            wanted@ == column@,
            cell_in(all, column@) == cell_in(all.skip(i as int), column@),
        decreases row.fields@.len() - i,
    {
        assert(all.skip(i as int)[0] == all[i as int]);
        if row.fields[i].0 == wanted {
            return Some(i);
        }
        assert(all.skip(i as int).skip(1) =~= all.skip(i + 1));
        i = i + 1;
    }
    None
}

/// The text in a column; empty where the row has no such column.
pub fn jstr(row: &Row, column: &str) -> (label: String)
    ensures
        label@ == label_in(row@, column@),
{
    match find_cell(row, column) {
        Some(i) => row.fields[i].1.label.clone(),
        None => String::new(),
    }
}

/// The number in a column; zero where the row has no such column.
pub fn jnum(row: &Row, column: &str) -> (number: String)
    ensures
        number@ == number_in(row@, column@),
{
    match find_cell(row, column) {
        Some(i) => row.fields[i].1.number.clone(),
        None => "0".to_owned(),
    }
}

// ---------------------------------------------------------------------------
// Tables

/// A line of a table of counts.
pub open spec fn count_line(
    row: Seq<(Seq<char>, CellView)>,
    key: Seq<char>,
    val: Seq<char>,
) -> Seq<char> {
    "  "@ + text::left_aligned(label_in(row, key), 40) + " "@ + text::right_aligned(
        number_in(row, val),
        8,
    ) + "\n"@
}

/// A table of counts, a line for each row.
pub open spec fn counts_text(
    rows: Seq<Seq<(Seq<char>, CellView)>>,
    key: Seq<char>,
    val: Seq<char>,
) -> Seq<char>
    decreases rows.len(),
{
    if rows.len() == 0 {
        seq![]
    } else {
        counts_text(rows.drop_last(), key, val) + count_line(rows.last(), key, val)
    }
}

/// A table of counts, a line for each row.
pub fn render_counts(rows: &[Row], key: &str, val: &str) -> (out: String)
    ensures
        out@ == counts_text(row_views(rows@), key@, val@),
{
    let mut out = String::new();
    let mut i: usize = 0;
    while i < rows.len()
        invariant
            i <= rows@.len(),
            out@ == counts_text(row_views(rows@.take(i as int)), key@, val@),
        decreases rows@.len() - i,
    {
        let ghost taken = row_views(rows@.take(i + 1));
        let row = &rows[i];
        let mut line = "  ".to_owned();
        text::push_left_aligned(&mut line, jstr(row, key).as_str(), 40);
        line.append(" ");
        text::push_right_aligned(&mut line, jnum(row, val).as_str(), 8);
        line.append("\n");
        out.append(line.as_str());
        proof {
            assert(taken.drop_last() =~= row_views(rows@.take(i as int)));
            assert(taken.last() == row@);
        }
        i = i + 1;
    }
    assert(rows@.take(rows@.len() as int) =~= rows@);
    out
}

/// The head of the table of latencies.
pub const LATENCY_HEAD: &'static str = "              count   total p50/p95/p99      upstream p50/p95\n";

/// A line of the table of latencies.
pub open spec fn latency_line(row: Seq<(Seq<char>, CellView)>) -> Seq<char> {
    "  "@ + text::left_aligned(label_in(row, "tier"@), 10) + " "@ + text::right_aligned(
        number_in(row, "n"@),
        8,
    ) + "   "@ + text::right_aligned(number_in(row, "p50"@), 4) + " / "@ + text::right_aligned(
        number_in(row, "p95"@),
        4,
    ) + " / "@ + text::right_aligned(number_in(row, "p99"@), 4) + "      "@ + text::right_aligned(
        number_in(row, "up50"@),
        4,
    ) + " / "@ + text::right_aligned(number_in(row, "up95"@), 4) + "\n"@
}

/// The table of latencies: its head, and a line for each row.
pub open spec fn latency_text(rows: Seq<Seq<(Seq<char>, CellView)>>) -> Seq<char>
    decreases rows.len(),
{
    if rows.len() == 0 {
        LATENCY_HEAD@
    } else {
        latency_text(rows.drop_last()) + latency_line(rows.last())
    }
}

/// The table of latencies: its head, and a line for each row.
pub fn render_latency(rows: &[Row]) -> (out: String)
    ensures
        out@ == latency_text(row_views(rows@)),
{
    let mut out = LATENCY_HEAD.to_owned();
    let mut i: usize = 0;
    while i < rows.len()
        invariant
            i <= rows@.len(),
            out@ == latency_text(row_views(rows@.take(i as int))),
        decreases rows@.len() - i,
    {
        let ghost taken = row_views(rows@.take(i + 1));
        let row = &rows[i];
        out.append(line_of_latency(row).as_str());
        proof {
            assert(taken.drop_last() =~= row_views(rows@.take(i as int)));
            assert(taken.last() == row@);
        }
        i = i + 1;
    }
    assert(rows@.take(rows@.len() as int) =~= rows@);
    out
}

fn line_of_latency(row: &Row) -> (line: String)
    ensures
        line@ == latency_line(row@),
{
    let mut line = "  ".to_owned();
    text::push_left_aligned(&mut line, jstr(row, "tier").as_str(), 10);
    line.append(" ");
    text::push_right_aligned(&mut line, jnum(row, "n").as_str(), 8);
    line.append("   ");
    text::push_right_aligned(&mut line, jnum(row, "p50").as_str(), 4);
    line.append(" / ");
    text::push_right_aligned(&mut line, jnum(row, "p95").as_str(), 4);
    line.append(" / ");
    text::push_right_aligned(&mut line, jnum(row, "p99").as_str(), 4);
    line.append("      ");
    text::push_right_aligned(&mut line, jnum(row, "up50").as_str(), 4);
    line.append(" / ");
    text::push_right_aligned(&mut line, jnum(row, "up95").as_str(), 4);
    line.append("\n");
    line
}

/// The head of the table of slow places.
pub const TAIL_HEAD: &'static str = "              count   p95\n";

/// A line of the table of slow places.
pub open spec fn tail_line(row: Seq<(Seq<char>, CellView)>) -> Seq<char> {
    "  "@ + text::left_aligned(label_in(row, "colo"@), 10) + " "@ + text::right_aligned(
        number_in(row, "n"@),
        8,
    ) + "   "@ + text::right_aligned(number_in(row, "p95"@), 5) + "\n"@
}

/// The lines of the table of slow places below its head.
pub open spec fn tail_lines(rows: Seq<Seq<(Seq<char>, CellView)>>) -> Seq<char>
    decreases rows.len(),
{
    if rows.len() == 0 {
        TAIL_HEAD@
    } else {
        tail_lines(rows.drop_last()) + tail_line(rows.last())
    }
}

/// The table of slow places; a word where there are none.
pub open spec fn tail_text(rows: Seq<Seq<(Seq<char>, CellView)>>) -> Seq<char> {
    if rows.len() == 0 {
        "  (none)\n"@
    } else {
        tail_lines(rows)
    }
}

/// The table of slow places; a word where there are none.
pub fn render_l2_tail(rows: &[Row]) -> (out: String)
    ensures
        out@ == tail_text(row_views(rows@)),
{
    if rows.len() == 0 {
        return "  (none)\n".to_owned();
    }
    let mut out = TAIL_HEAD.to_owned();
    let mut i: usize = 0;
    while i < rows.len()
        invariant
            i <= rows@.len(),
            out@ == tail_lines(row_views(rows@.take(i as int))),
        decreases rows@.len() - i,
    {
        let ghost taken = row_views(rows@.take(i + 1));
        let row = &rows[i];
        let mut line = "  ".to_owned();
        text::push_left_aligned(&mut line, jstr(row, "colo").as_str(), 10);
        line.append(" ");
        text::push_right_aligned(&mut line, jnum(row, "n").as_str(), 8);
        line.append("   ");
        text::push_right_aligned(&mut line, jnum(row, "p95").as_str(), 5);
        line.append("\n");
        out.append(line.as_str());
        proof {
            assert(taken.drop_last() =~= row_views(rows@.take(i as int)));
            assert(taken.last() == row@);
        }
        i = i + 1;
    }
    assert(rows@.take(rows@.len() as int) =~= rows@);
    out
}

/// A tier's part in all queries.
#[derive(Debug, PartialEq, Eq)]
pub struct Share {
    /// How many blocks its bar has.
    pub bar_len: usize,
    /// Its part in percent, with one decimal.
    pub percent: String,
    /// How many queries it had, without decimals.
    pub count: String,
}

/// A tier's part in all queries, as mathematics.
pub struct ShareView {
    pub bar_len: nat,
    pub percent: Seq<char>,
    pub count: Seq<char>,
}

impl View for Share {
    type V = ShareView;

    open spec fn view(&self) -> ShareView {
        ShareView { bar_len: self.bar_len as nat, percent: self.percent@, count: self.count@ }
    }
}

/// What is drawn for a tier's part: its name, a bar, and two numbers.
pub open spec fn share_line(label: Seq<char>, share: ShareView) -> Seq<char> {
    "  "@ + text::left_aligned(label, 10) + " "@ + text::left_aligned(
        text::copies('█', share.bar_len),
        30,
    ) + " "@ + text::right_aligned(share.percent, 5) + "%  "@ + text::right_aligned(share.count, 8)
        + "\n"@
}

/// The parts of all tiers, the nearest first.
pub open spec fn tiers_text(
    l1: ShareView,
    l2_hit: ShareView,
    l2_stale: ShareView,
    l2_miss: ShareView,
    upstream: ShareView,
) -> Seq<char> {
    share_line("L1"@, l1) + share_line("L2-HIT"@, l2_hit) + share_line("L2-STALE"@, l2_stale)
        + share_line("L2-MISS"@, l2_miss) + share_line("UPSTREAM"@, upstream)
}

fn line_of_share(label: &str, share: &Share) -> (line: String)
    ensures
        line@ == share_line(label@, share@),
{
    let mut bar = String::new();
    text::push_copies(&mut bar, '█', share.bar_len);
    assert(bar@ =~= text::copies('█', share.bar_len as nat));
    let mut line = "  ".to_owned();
    text::push_left_aligned(&mut line, label, 10);
    line.append(" ");
    text::push_left_aligned(&mut line, bar.as_str(), 30);
    line.append(" ");
    text::push_right_aligned(&mut line, share.percent.as_str(), 5);
    line.append("%  ");
    text::push_right_aligned(&mut line, share.count.as_str(), 8);
    line.append("\n");
    line
}

/// The parts of all tiers, the nearest first.
pub fn render_tier_dist(
    l1: &Share,
    l2_hit: &Share,
    l2_stale: &Share,
    l2_miss: &Share,
    upstream: &Share,
) -> (out: String)
    ensures
        out@ == tiers_text(l1@, l2_hit@, l2_stale@, l2_miss@, upstream@),
{
    let mut out = line_of_share("L1", l1);
    out.append(line_of_share("L2-HIT", l2_hit).as_str());
    out.append(line_of_share("L2-STALE", l2_stale).as_str());
    out.append(line_of_share("L2-MISS", l2_miss).as_str());
    out.append(line_of_share("UPSTREAM", upstream).as_str());
    out
}

// ---------------------------------------------------------------------------
// The page

/// The page down to its first line of figures.
pub const PAGE_HEAD: &'static str = r#"<!doctype html>
<html>
<head>
<meta charset="utf-8">
<meta http-equiv="refresh" content="30">
<title>doh-edge · stats</title>
<style>
body { background: #0d1117; color: #c9d1d9; font-family: "JetBrains Mono", ui-monospace, monospace; margin: 2rem auto; max-width: 900px; padding: 0 1rem; }
h1 { color: #f0f6fc; font-weight: 500; font-size: 1.1rem; border-bottom: 1px solid #30363d; padding-bottom: .5rem; }
pre { font-size: 13px; line-height: 1.5; white-space: pre; overflow-x: auto; }
.dim { color: #8b949e; }
</style>
</head>
<body>
<h1>doh-edge · stats · last 24h</h1>
<pre>
"#;

/// The page from behind its last table.
pub const PAGE_FOOT: &'static str = r#"</pre>
<p class="dim">Queries are logged to Cloudflare Analytics Engine in aggregate. Qnames are indexed for top-N computation. No client IPs are logged. ~30s ingestion lag. This is a personal PoC; do not use as your production resolver if you object.</p>
</body>
</html>"#;

/// The figures over all queries, as they are shown.
#[derive(Debug, PartialEq, Eq)]
pub struct Overall {
    /// How many queries there were.
    pub total: String,
    /// The part that a cache answered in percent, with one decimal.
    pub hit_rate: String,
    /// Half of the queries took no longer, in milliseconds without decimals.
    pub p50: String,
    /// All but a twentieth took no longer.
    pub p95: String,
    /// All but a hundredth took no longer.
    pub p99: String,
    /// The parts of the tiers.
    pub l1: Share,
    pub l2_hit: Share,
    pub l2_stale: Share,
    pub l2_miss: Share,
    pub upstream: Share,
}

/// The figures over all queries, as mathematics.
pub struct OverallView {
    pub total: Seq<char>,
    pub hit_rate: Seq<char>,
    pub p50: Seq<char>,
    pub p95: Seq<char>,
    pub p99: Seq<char>,
    pub l1: ShareView,
    pub l2_hit: ShareView,
    pub l2_stale: ShareView,
    pub l2_miss: ShareView,
    pub upstream: ShareView,
}

impl View for Overall {
    type V = OverallView;

    open spec fn view(&self) -> OverallView {
        OverallView {
            total: self.total@,
            hit_rate: self.hit_rate@,
            p50: self.p50@,
            p95: self.p95@,
            p99: self.p99@,
            l1: self.l1@,
            l2_hit: self.l2_hit@,
            l2_stale: self.l2_stale@,
            l2_miss: self.l2_miss@,
            upstream: self.upstream@,
        }
    }
}

/// The figures over all queries, a line for each.
pub open spec fn overall_text(o: OverallView) -> Seq<char> {
    "Queries         "@ + text::right_aligned(o.total, 10) + "\nCache hit rate  "@
        + text::right_aligned(o.hit_rate, 9) + "%\np50 latency     "@ + text::right_aligned(o.p50, 9) + " ms\np95 latency     "@
        + text::right_aligned(o.p95, 9) + " ms\np99 latency     "@ + text::right_aligned(o.p99, 9)
        + " ms\n"@
}

/// The whole page.
pub open spec fn page_text(
    overall: OverallView,
    tier_latency: Seq<Seq<(Seq<char>, CellView)>>,
    top_names: Seq<Seq<(Seq<char>, CellView)>>,
    qtypes: Seq<Seq<(Seq<char>, CellView)>>,
    rcodes: Seq<Seq<(Seq<char>, CellView)>>,
    colos: Seq<Seq<(Seq<char>, CellView)>>,
    l2_hit_tail: Seq<Seq<(Seq<char>, CellView)>>,
) -> Seq<char> {
    PAGE_HEAD@ + overall_text(overall) + "\nTier distribution\n"@ + tiers_text(
        overall.l1,
        overall.l2_hit,
        overall.l2_stale,
        overall.l2_miss,
        overall.upstream,
    ) + "\nLatency by tier (ms)\n"@ + latency_text(tier_latency) + "\nTop 20 queried names\n"@
        + counts_text(top_names, "qname"@, "n"@) + "\nQtype distribution\n"@ + counts_text(
        qtypes,
        "qtype"@,
        "n"@,
    ) + "\nResponse codes\n"@ + counts_text(rcodes, "rcode"@, "n"@) + "\nTop colos\n"@
        + counts_text(colos, "colo"@, "n"@) + "\nSlow L2-HITs (>400ms) by colo\n"@ + tail_text(
        l2_hit_tail,
    ) + PAGE_FOOT@
}

fn lines_of_overall(o: &Overall) -> (lines: String)
    ensures
        lines@ == overall_text(o@),
{
    let mut lines = "Queries         ".to_owned();
    text::push_right_aligned(&mut lines, o.total.as_str(), 10);
    lines.append("\nCache hit rate  ");
    text::push_right_aligned(&mut lines, o.hit_rate.as_str(), 9);
    lines.append("%\np50 latency     ");
    text::push_right_aligned(&mut lines, o.p50.as_str(), 9);
    lines.append(" ms\np95 latency     ");
    text::push_right_aligned(&mut lines, o.p95.as_str(), 9);
    lines.append(" ms\np99 latency     ");
    text::push_right_aligned(&mut lines, o.p99.as_str(), 9);
    lines.append(" ms\n");
    lines
}

/// The whole page.
pub fn render_html(
    overall: &Overall,
    tier_latency: &[Row],
    top_names: &[Row],
    qtypes: &[Row],
    rcodes: &[Row],
    colos: &[Row],
    l2_hit_tail: &[Row],
) -> (html: String)
    ensures
        html@ == page_text(
            overall@,
            row_views(tier_latency@),
            row_views(top_names@),
            row_views(qtypes@),
            row_views(rcodes@),
            row_views(colos@),
            row_views(l2_hit_tail@),
        ),
{
    let mut html = PAGE_HEAD.to_owned();
    html.append(lines_of_overall(overall).as_str());
    html.append("\nTier distribution\n");
    html.append(
        render_tier_dist(
            &overall.l1,
            &overall.l2_hit,
            &overall.l2_stale,
            &overall.l2_miss,
            &overall.upstream,
        ).as_str(),
    );
    html.append("\nLatency by tier (ms)\n");
    html.append(render_latency(tier_latency).as_str());
    html.append("\nTop 20 queried names\n");
    html.append(render_counts(top_names, "qname", "n").as_str());
    html.append("\nQtype distribution\n");
    html.append(render_counts(qtypes, "qtype", "n").as_str());
    html.append("\nResponse codes\n");
    html.append(render_counts(rcodes, "rcode", "n").as_str());
    html.append("\nTop colos\n");
    html.append(render_counts(colos, "colo", "n").as_str());
    html.append("\nSlow L2-HITs (>400ms) by colo\n");
    html.append(render_l2_tail(l2_hit_tail).as_str());
    html.append(PAGE_FOOT);
    html
}

} // verus!
