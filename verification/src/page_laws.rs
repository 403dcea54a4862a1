//! What the page of statistics shows, told by how the result of a call grows
//! with its rows and is put together from the results of others.
use crate::http;
use crate::http::Body;
use crate::http_laws;
use crate::metrics;
use crate::stats;
use crate::stats::{Overall, Row, Share};
use crate::text;
use vstd::prelude::*;

verus! {

// ---------------------------------------------------------------------------
// Names

/// Each response code that has a name has its own; the others share one.
pub proof fn law_names_of_codes(code: u8, name: &'static str)
    requires
        call_ensures(metrics::rcode_name, (code,), name),
    ensures
        code == 0 ==> name@ == "NOERROR"@,
        code == 1 ==> name@ == "FORMERR"@,
        code == 2 ==> name@ == "SERVFAIL"@,
        code == 3 ==> name@ == "NXDOMAIN"@,
        code == 4 ==> name@ == "NOTIMP"@,
        code == 5 ==> name@ == "REFUSED"@,
        code > 5 ==> name@ == "OTHER"@,
{
}

/// Whether a type is one of those that have a name.
pub open spec fn has_name(qtype: u16) -> bool {
    qtype == 1 || qtype == 2 || qtype == 5 || qtype == 6 || qtype == 12 || qtype == 15 || qtype
        == 16 || qtype == 28 || qtype == 33 || qtype == 35 || qtype == 43 || qtype == 46 || qtype
        == 47 || qtype == 48 || qtype == 50 || qtype == 52 || qtype == 64 || qtype == 65 || qtype
        == 257
}

/// Each type that has a name has its own; the others share one.
pub proof fn law_names_of_types(qtype: u16, name: &'static str)
    requires
        call_ensures(metrics::qtype_name, (qtype,), name),
    ensures
        qtype == 1 ==> name@ == "A"@,
        qtype == 2 ==> name@ == "NS"@,
        qtype == 5 ==> name@ == "CNAME"@,
        qtype == 6 ==> name@ == "SOA"@,
        qtype == 12 ==> name@ == "PTR"@,
        qtype == 15 ==> name@ == "MX"@,
        qtype == 16 ==> name@ == "TXT"@,
        qtype == 28 ==> name@ == "AAAA"@,
        qtype == 33 ==> name@ == "SRV"@,
        qtype == 35 ==> name@ == "NAPTR"@,
        qtype == 43 ==> name@ == "DS"@,
        qtype == 46 ==> name@ == "RRSIG"@,
        qtype == 47 ==> name@ == "NSEC"@,
        qtype == 48 ==> name@ == "DNSKEY"@,
        qtype == 50 ==> name@ == "NSEC3"@,
        qtype == 52 ==> name@ == "TLSA"@,
        qtype == 64 ==> name@ == "SVCB"@,
        qtype == 65 ==> name@ == "HTTPS"@,
        qtype == 257 ==> name@ == "CAA"@,
        !has_name(qtype) ==> name@ == "OTHER"@,
{
}

// ---------------------------------------------------------------------------
// Questions to the analytics store

/// Whether a word stands in a text at `i`.
pub open spec fn word_at(s: Seq<char>, word: Seq<char>, i: int) -> bool {
    &&& 0 <= i
    &&& i + word.len() <= s.len()
    &&& s.subrange(i, i + word.len()) == word
}

proof fn lemma_replaced_none(s: Seq<char>, word: Seq<char>, by: Seq<char>)
    requires
        forall|i: int| !#[trigger] word_at(s, word, i),
    ensures
        text::replaced(s, word, by) == s,
    decreases s.len(),
{
    if s.len() >= word.len() && word.len() > 0 {
        assert(!word_at(s, word, 0));
        assert(s.take(word.len() as int) =~= s.subrange(0, word.len() as int));
        let rest = s.skip(1);
        assert forall|i: int| !#[trigger] word_at(rest, word, i) by {
            assert(!word_at(s, word, i + 1));
            if word_at(rest, word, i) {
                assert(s.subrange(i + 1, i + 1 + word.len()) =~= rest.subrange(i, i + word.len()));
            }
        }
        lemma_replaced_none(rest, word, by);
        assert(seq![s[0]] + rest =~= s);
    }
}

proof fn lemma_replaced_first(s: Seq<char>, word: Seq<char>, by: Seq<char>, n: int)
    requires
        word.len() > 0,
        word_at(s, word, n),
        forall|i: int| 0 <= i < n ==> !#[trigger] word_at(s, word, i),
    ensures
        text::replaced(s, word, by) == s.take(n) + by + text::replaced(
            s.skip(n + word.len()),
            word,
            by,
        ),
    decreases s.len(),
{
    assert(s.take(word.len() as int) =~= s.subrange(0, word.len() as int));
    if n == 0 {
        assert(s.take(0) + by =~= by);
    } else {
        assert(!word_at(s, word, 0));
        let rest = s.skip(1);
        assert(rest.subrange(n - 1, n - 1 + word.len()) =~= s.subrange(n, n + word.len()));
        assert forall|i: int| 0 <= i < n - 1 implies !#[trigger] word_at(rest, word, i) by {
            assert(!word_at(s, word, i + 1));
            if word_at(rest, word, i) {
                assert(s.subrange(i + 1, i + 1 + word.len()) =~= rest.subrange(i, i + word.len()));
            }
        }
        lemma_replaced_first(rest, word, by, n - 1);
        let tail = text::replaced(s.skip(n + word.len()), word, by);
        assert(rest.skip(n - 1 + word.len()) =~= s.skip(n + word.len()));
        assert(seq![s[0]] + (rest.take(n - 1) + by + tail) =~= s.take(n) + by + tail);
    }
}

/// A question is sent to the account's own address, with its token and as
/// plain text. Where it does not name the table, it is sent as it is.
pub proof fn law_question_is_sent(
    account_id: &str,
    token: &str,
    sql: &str,
    request: (String, http::RequestInit),
)
    requires
        call_ensures(stats::sql_request, (account_id, token, sql), request),
    ensures
        request.0@ == "https://api.cloudflare.com/client/v4/accounts/"@ + account_id@
            + "/analytics_engine/sql"@,
        request.1.method is Post,
        request.1.headers@.len() == 2,
        http_laws::header_is(request.1.headers@, 0, "authorization"@, "Bearer "@ + token@),
        http_laws::header_is(request.1.headers@, 1, "content-type"@, "text/plain"@),
        request.1.body is Text,
        (forall|i: int| !#[trigger] word_at(sql@, "DATASET"@, i)) ==> http_laws::text_is(
            request.1.body,
            sql@,
        ),
{
    http_laws::lemma_header_views(request.1.headers@);
    let views = http::header_views(request.1.headers@);
    assert(views[0] == ("authorization"@, "Bearer "@ + token@));
    assert(views[1] == ("content-type"@, "text/plain"@));
    if forall|i: int| !#[trigger] word_at(sql@, "DATASET"@, i) {
        lemma_replaced_none(sql@, "DATASET"@, "doh_edge_queries_v2"@);
    }
}

/// Where a question names the table, the table's name goes in its place: what
/// stands in front stays, and what stands behind is treated as a question.
pub proof fn law_table_is_named(
    account_id: &str,
    token: &str,
    sql: &str,
    request: (String, http::RequestInit),
    rest: &str,
    rest_request: (String, http::RequestInit),
    n: int,
)
    requires
        call_ensures(stats::sql_request, (account_id, token, sql), request),
        call_ensures(stats::sql_request, (account_id, token, rest), rest_request),
        word_at(sql@, "DATASET"@, n),
        forall|i: int| 0 <= i < n ==> !#[trigger] word_at(sql@, "DATASET"@, i),
        rest@ == sql@.skip(n + "DATASET"@.len()),
    ensures
        request.1.body matches Body::Text(whole) && rest_request.1.body matches Body::Text(tail)
            && whole@ == sql@.take(n) + "doh_edge_queries_v2"@ + tail@,
{
    reveal_strlit("DATASET");
    lemma_replaced_first(sql@, "DATASET"@, "doh_edge_queries_v2"@, n);
}

/// The page goes out as it is, and nobody keeps it.
pub proof fn law_page_response(html: String, r: http::Response)
    requires
        call_ensures(stats::page_response, (html,), r),
    ensures
        r.status == 200,
        r.headers@.len() == 1,
        http_laws::header_is(r.headers@, 0, "cache-control"@, "no-store"@),
        r.body matches Body::Html(h) && h@ == html@,
{
    http_laws::lemma_header_views(r.headers@);
    assert(http::header_views(r.headers@)[0] == ("cache-control"@, "no-store"@));
}

// ---------------------------------------------------------------------------
// Cells

/// Whether the cell at `i` is the first in a column of this name.
pub open spec fn is_cell(row: Row, column: Seq<char>, i: int) -> bool {
    &&& 0 <= i < row.fields@.len()
    &&& row.fields@[i].0@ == column
    &&& forall|k: int| 0 <= k < i ==> (#[trigger] row.fields@[k]).0@ != column
}

/// Whether a row has no column of this name.
pub open spec fn has_no_cell(row: Row, column: Seq<char>) -> bool {
    forall|k: int| 0 <= k < row.fields@.len() ==> (#[trigger] row.fields@[k]).0@ != column
}

proof fn lemma_cell_in(views: Seq<(Seq<char>, stats::CellView)>, column: Seq<char>)
    ensures
        forall|i: int|
            0 <= i < views.len() && (#[trigger] views[i]).0 == column && (forall|k: int|
                0 <= k < i ==> (#[trigger] views[k]).0 != column) ==> stats::cell_in(views, column)
                == Some(views[i].1),
        (forall|k: int| 0 <= k < views.len() ==> (#[trigger] views[k]).0 != column)
            ==> stats::cell_in(views, column) is None,
    decreases views.len(),
{
    if views.len() > 0 {
        let rest = views.skip(1);
        lemma_cell_in(rest, column);
        assert forall|k: int| 0 <= k < rest.len() implies #[trigger] rest[k] == views[k + 1] by {}
        assert forall|i: int|
            0 <= i < views.len() && (#[trigger] views[i]).0 == column && (forall|k: int|
                0 <= k < i ==> (#[trigger] views[k]).0 != column) implies stats::cell_in(
            views,
            column,
        ) == Some(views[i].1) by {
            if i > 0 {
                assert(views[0].0 != column);
                assert(rest[i - 1] == views[i]);
            }
        }
    }
}

proof fn lemma_cells(row: Row, column: Seq<char>)
    ensures
        forall|i: int| #[trigger]
            is_cell(row, column, i) ==> stats::cell_in(row@, column) == Some(row.fields@[i].1@),
        has_no_cell(row, column) ==> stats::cell_in(row@, column) is None,
{
    lemma_cell_in(row@, column);
    assert forall|k: int| 0 <= k < row@.len() implies (#[trigger] row@[k]) == (
        row.fields@[k].0@,
        row.fields@[k].1@,
    ) by {}
    assert forall|i: int| #[trigger] is_cell(row, column, i) implies stats::cell_in(row@, column)
        == Some(row.fields@[i].1@) by {
        assert(row@[i].0 == column);
        assert forall|k: int| 0 <= k < i implies (#[trigger] row@[k]).0 != column by {
            assert(row.fields@[k].0@ != column);
        }
    }
    if has_no_cell(row, column) {
        assert forall|k: int| 0 <= k < row@.len() implies (#[trigger] row@[k]).0 != column by {
            assert(row.fields@[k].0@ != column);
        }
    }
}

/// The text in a column is that of the row's first cell of the name; it is
/// empty where there is none.
pub proof fn law_text_in_column(row: &Row, column: &str, label: String)
    requires
        call_ensures(stats::jstr, (row, column), label),
    ensures
        forall|i: int| #[trigger]
            is_cell(*row, column@, i) ==> label@ == row.fields@[i].1.label@,
        has_no_cell(*row, column@) ==> label@.len() == 0,
{
    lemma_cells(*row, column@);
}

/// The number in a column is that of the row's first cell of the name; it is
/// zero where there is none.
pub proof fn law_number_in_column(row: &Row, column: &str, number: String)
    requires
        call_ensures(stats::jnum, (row, column), number),
    ensures
        forall|i: int| #[trigger]
            is_cell(*row, column@, i) ==> number@ == row.fields@[i].1.number@,
        has_no_cell(*row, column@) ==> number@ == "0"@,
{
    lemma_cells(*row, column@);
}

// ---------------------------------------------------------------------------
// Tables

/// A text at the left of a column; a wider one sticks out.
pub open spec fn at_left(s: Seq<char>, width: int) -> Seq<char> {
    Seq::new(
        (if s.len() < width {
            width
        } else {
            s.len() as int
        }) as nat,
        |i: int|
            if i < s.len() {
                s[i]
            } else {
                ' '
            },
    )
}

/// A text at the right of a column; a wider one sticks out.
pub open spec fn at_right(s: Seq<char>, width: int) -> Seq<char> {
    let gap = if s.len() < width {
        width - s.len()
    } else {
        0
    };
    Seq::new(
        (gap + s.len()) as nat,
        |i: int|
            if i < gap {
                ' '
            } else {
                s[i - gap]
            },
    )
}

proof fn lemma_columns(s: Seq<char>, width: nat)
    ensures
        text::left_aligned(s, width) == at_left(s, width as int),
        text::right_aligned(s, width) == at_right(s, width as int),
{
    assert(text::left_aligned(s, width) =~= at_left(s, width as int));
    assert(text::right_aligned(s, width) =~= at_right(s, width as int));
}

proof fn lemma_more_rows(shorter: Seq<Row>, row: Row, longer: Seq<Row>)
    requires
        longer == shorter.push(row),
    ensures
        stats::row_views(longer).len() == shorter.len() + 1,
        stats::row_views(longer).drop_last() == stats::row_views(shorter),
        stats::row_views(longer).last() == row@,
{
    assert(stats::row_views(longer).drop_last() =~= stats::row_views(shorter));
}

/// A table of counts is empty without rows, and each row adds a line at its
/// end: the text in one column and the number in another.
pub proof fn law_counts_grow(
    shorter: &[Row],
    short_text: String,
    row: Row,
    longer: &[Row],
    long_text: String,
    key: &str,
    label: String,
    val: &str,
    number: String,
)
    requires
        call_ensures(stats::render_counts, (shorter, key, val), short_text),
        call_ensures(stats::render_counts, (longer, key, val), long_text),
        longer@ == shorter@.push(row),
        call_ensures(stats::jstr, (&row, key), label),
        call_ensures(stats::jnum, (&row, val), number),
    ensures
        shorter@.len() == 0 ==> short_text@.len() == 0,
        long_text@ == short_text@ + ("  "@ + at_left(label@, 40) + " "@ + at_right(number@, 8)
            + "\n"@),
{
    lemma_more_rows(shorter@, row, longer@);
    lemma_columns(label@, 40);
    lemma_columns(number@, 8);
}

/// The table of latencies is its head without rows, and each row adds a line at
/// its end: the tier, how many, and five times.
pub proof fn law_latencies_grow(
    shorter: &[Row],
    short_text: String,
    row: Row,
    longer: &[Row],
    long_text: String,
    tier: String,
    n: String,
    p50: String,
    p95: String,
    p99: String,
    up50: String,
    up95: String,
)
    requires
        call_ensures(stats::render_latency, (shorter,), short_text),
        call_ensures(stats::render_latency, (longer,), long_text),
        longer@ == shorter@.push(row),
        call_ensures(stats::jstr, (&row, "tier"), tier),
        call_ensures(stats::jnum, (&row, "n"), n),
        call_ensures(stats::jnum, (&row, "p50"), p50),
        call_ensures(stats::jnum, (&row, "p95"), p95),
        call_ensures(stats::jnum, (&row, "p99"), p99),
        call_ensures(stats::jnum, (&row, "up50"), up50),
        call_ensures(stats::jnum, (&row, "up95"), up95),
    ensures
        shorter@.len() == 0 ==> short_text@
            == "              count   total p50/p95/p99      upstream p50/p95\n"@,
        long_text@ == short_text@ + ("  "@ + at_left(tier@, 10) + " "@ + at_right(n@, 8) + "   "@
            + at_right(p50@, 4) + " / "@ + at_right(p95@, 4) + " / "@ + at_right(p99@, 4)
            + "      "@ + at_right(up50@, 4) + " / "@ + at_right(up95@, 4) + "\n"@),
{
    lemma_more_rows(shorter@, row, longer@);
    lemma_columns(tier@, 10);
    lemma_columns(n@, 8);
    lemma_columns(p50@, 4);
    lemma_columns(p95@, 4);
    lemma_columns(p99@, 4);
    lemma_columns(up50@, 4);
    lemma_columns(up95@, 4);
}

/// The table of slow places says so where there are none; the first row comes
/// behind its head, and each further one adds a line at its end.
pub proof fn law_slow_places_grow(
    shorter: &[Row],
    short_text: String,
    row: Row,
    longer: &[Row],
    long_text: String,
    colo: String,
    n: String,
    p95: String,
)
    requires
        call_ensures(stats::render_l2_tail, (shorter,), short_text),
        call_ensures(stats::render_l2_tail, (longer,), long_text),
        longer@ == shorter@.push(row),
        call_ensures(stats::jstr, (&row, "colo"), colo),
        call_ensures(stats::jnum, (&row, "n"), n),
        call_ensures(stats::jnum, (&row, "p95"), p95),
    ensures
        shorter@.len() == 0 ==> short_text@ == "  (none)\n"@,
        long_text@ == (if shorter@.len() == 0 {
            "              count   p95\n"@
        } else {
            short_text@
        }) + ("  "@ + at_left(colo@, 10) + " "@ + at_right(n@, 8) + "   "@ + at_right(p95@, 5)
            + "\n"@),
{
    lemma_more_rows(shorter@, row, longer@);
    let views = stats::row_views(longer@);
    assert(stats::tail_lines(views) == stats::tail_lines(views.drop_last()) + stats::tail_line(
        views.last(),
    ));
    if shorter@.len() == 0 {
        assert(stats::tail_lines(stats::row_views(shorter@)) == "              count   p95\n"@);
    }
    lemma_columns(colo@, 10);
    lemma_columns(n@, 8);
    lemma_columns(p95@, 5);
}

/// A tier's line: its name, its bar, its part and its count.
pub open spec fn tier_line(name: Seq<char>, share: Share) -> Seq<char> {
    "  "@ + at_left(name, 10) + " "@ + at_left(
        Seq::new(share.bar_len as nat, |i: int| '█'),
        30,
    ) + " "@ + at_right(share.percent@, 5) + "%  "@ + at_right(share.count@, 8) + "\n"@
}

proof fn lemma_tier_line(name: Seq<char>, share: Share)
    ensures
        stats::share_line(name, share@) == tier_line(name, share),
{
    let bar = Seq::new(share.bar_len as nat, |i: int| '█');
    assert(text::copies('█', share.bar_len as nat) =~= bar);
    lemma_columns(name, 10);
    lemma_columns(bar, 30);
    lemma_columns(share.percent@, 5);
    lemma_columns(share.count@, 8);
}

/// Each tier has a line with its own name and its own figures, the nearest
/// first.
pub proof fn law_tiers_have_lines(
    l1: &Share,
    l2_hit: &Share,
    l2_stale: &Share,
    l2_miss: &Share,
    upstream: &Share,
    out: String,
)
    requires
        call_ensures(stats::render_tier_dist, (l1, l2_hit, l2_stale, l2_miss, upstream), out),
    ensures
        out@ == tier_line("L1"@, *l1) + tier_line("L2-HIT"@, *l2_hit) + tier_line(
            "L2-STALE"@,
            *l2_stale,
        ) + tier_line("L2-MISS"@, *l2_miss) + tier_line("UPSTREAM"@, *upstream),
{
    lemma_tier_line("L1"@, *l1);
    lemma_tier_line("L2-HIT"@, *l2_hit);
    lemma_tier_line("L2-STALE"@, *l2_stale);
    lemma_tier_line("L2-MISS"@, *l2_miss);
    lemma_tier_line("UPSTREAM"@, *upstream);
}

/// The page shows the figures over all queries, and behind its own heading each
/// table as it is drawn for itself.
pub proof fn law_page_shows_all(
    overall: &Overall,
    tier_latency: &[Row],
    top_names: &[Row],
    qtypes: &[Row],
    rcodes: &[Row],
    colos: &[Row],
    l2_hit_tail: &[Row],
    html: String,
    tiers: String,
    latency: String,
    names: String,
    types: String,
    codes: String,
    places: String,
    slow: String,
)
    requires
        call_ensures(
            stats::render_html,
            (overall, tier_latency, top_names, qtypes, rcodes, colos, l2_hit_tail),
            html,
        ),
        call_ensures(
            stats::render_tier_dist,
            (&overall.l1, &overall.l2_hit, &overall.l2_stale, &overall.l2_miss, &overall.upstream),
            tiers,
        ),
        call_ensures(stats::render_latency, (tier_latency,), latency),
        call_ensures(stats::render_counts, (top_names, "qname", "n"), names),
        call_ensures(stats::render_counts, (qtypes, "qtype", "n"), types),
        call_ensures(stats::render_counts, (rcodes, "rcode", "n"), codes),
        call_ensures(stats::render_counts, (colos, "colo", "n"), places),
        call_ensures(stats::render_l2_tail, (l2_hit_tail,), slow),
    ensures
        html@ == stats::PAGE_HEAD@ + ("Queries         "@ + at_right(overall.total@, 10)
            + "\nCache hit rate  "@ + at_right(overall.hit_rate@, 9) + "%\np50 latency     "@
            + at_right(overall.p50@, 9) + " ms\np95 latency     "@ + at_right(overall.p95@, 9)
            + " ms\np99 latency     "@ + at_right(overall.p99@, 9) + " ms\n"@)
            + "\nTier distribution\n"@ + tiers@ + "\nLatency by tier (ms)\n"@ + latency@
            + "\nTop 20 queried names\n"@ + names@ + "\nQtype distribution\n"@ + types@
            + "\nResponse codes\n"@ + codes@ + "\nTop colos\n"@ + places@
            + "\nSlow L2-HITs (>400ms) by colo\n"@ + slow@ + stats::PAGE_FOOT@,
{
    lemma_columns(overall.total@, 10);
    lemma_columns(overall.hit_rate@, 9);
    lemma_columns(overall.p50@, 9);
    lemma_columns(overall.p95@, 9);
    lemma_columns(overall.p99@, 9);
}

} // verus!
